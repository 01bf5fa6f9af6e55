use lvgl::{BosaMonth, CipalMonth, Kwartaal, KwartaalError, MonthError};

#[test]
fn quarter_scenarios() {
    let k = Kwartaal::new("20211".to_string()).unwrap();
    assert_eq!(k, Kwartaal { year: 2021, quarter: 1 });
    assert_eq!(Kwartaal::new("20210".to_string()), Err(KwartaalError::InvalidQuarter));
    assert_eq!(Kwartaal::new("20215".to_string()), Err(KwartaalError::InvalidQuarter));
    assert_eq!(Kwartaal::new("19691".to_string()), Err(KwartaalError::InvalidYear));
}

#[test]
fn quarter_separators_and_bounds() {
    assert_eq!(
        Kwartaal::new(" 2021-4 ".to_string()),
        Ok(Kwartaal { year: 2021, quarter: 4 })
    );
    assert_eq!(Kwartaal::new("2.0.2.1.2".to_string()), Ok(Kwartaal { year: 2021, quarter: 2 }));
    assert_eq!(Kwartaal::new("19701".to_string()), Ok(Kwartaal { year: 1970, quarter: 1 }));
    assert_eq!(Kwartaal::new("21004".to_string()), Ok(Kwartaal { year: 2100, quarter: 4 }));
    assert_eq!(Kwartaal::new("21011".to_string()), Err(KwartaalError::InvalidYear));
    assert_eq!(Kwartaal::new("202111".to_string()), Err(KwartaalError::InvalidLength));
    assert_eq!(Kwartaal::new("".to_string()), Err(KwartaalError::InvalidLength));
}

#[test]
fn quarter_year_is_checked_before_quarter() {
    assert_eq!(Kwartaal::new("19690".to_string()), Err(KwartaalError::InvalidYear));
    assert_eq!(Kwartaal::new("1969x".to_string()), Err(KwartaalError::InvalidYear));
    assert_eq!(Kwartaal::new("\u{e9}123".to_string()), Err(KwartaalError::ParseIntError));
}

#[test]
fn quarter_code() {
    assert_eq!(Kwartaal { year: 2100, quarter: 4 }.to_string(), "21004");
    assert_eq!(Kwartaal { year: 7, quarter: 0 }.to_string(), "70");
}

#[test]
fn quarter_error_messages() {
    assert_eq!(KwartaalError::InvalidYear.to_string(), "Invalid Year.");
    assert_eq!(KwartaalError::InvalidQuarter.to_string(), "Invalid Quarter.");
    assert_eq!(KwartaalError::InvalidLength.to_string(), "Invalid Length.");
}

#[test]
fn bosa_scenarios() {
    let m = BosaMonth::new("202101".to_string()).unwrap();
    assert_eq!(m, BosaMonth { year: 2021, month: 1 });
    assert_eq!(m.to_kwartaal(), Kwartaal { year: 2021, quarter: 1 });
    assert_eq!(BosaMonth::new("202113".to_string()), Err(MonthError::InvalidMonth));
}

#[test]
fn bosa_keeps_separators_and_trims() {
    assert_eq!(BosaMonth::new(" 202107\t".to_string()), Ok(BosaMonth { year: 2021, month: 7 }));
    assert_eq!(BosaMonth::new("2021-7".to_string()), Err(MonthError::ParseIntError));
    assert_eq!(BosaMonth::new("2021/07".to_string()), Err(MonthError::InvalidLength));
    assert_eq!(BosaMonth::new("210101".to_string()), Err(MonthError::InvalidYear));
}

#[test]
fn every_month_maps_to_its_quarter() {
    let expected = [1u8, 1, 1, 2, 2, 2, 3, 3, 3, 4, 4, 4];
    for month in 1u8..=12 {
        let q = expected[(month - 1) as usize];
        let b = BosaMonth { year: 2022, month }.to_kwartaal();
        let c = CipalMonth { year: 2022, month }.to_kwartaal();
        assert_eq!(b, Kwartaal { year: 2022, quarter: q });
        assert_eq!(c, b);
    }
    assert_eq!(BosaMonth { year: 2022, month: 13 }.to_kwartaal().quarter, 0);
}

#[test]
fn to_kwartaal_twice_gives_equal_quarters() {
    let b = BosaMonth::new("202305".to_string()).unwrap();
    assert_eq!(b.to_kwartaal(), b.to_kwartaal());
    let c = CipalMonth::new("11/2023".to_string()).unwrap();
    assert_eq!(c.to_kwartaal(), c.to_kwartaal());
    assert_eq!(c.to_kwartaal(), Kwartaal { year: 2023, quarter: 4 });
}

#[test]
fn cipal_scenarios() {
    assert_eq!(CipalMonth::new("01/2021".to_string()), Ok(CipalMonth { year: 2021, month: 1 }));
    assert_eq!(CipalMonth::new("1/2021".to_string()), CipalMonth::new("01/2021".to_string()));
    assert_eq!(CipalMonth::new("13/2021".to_string()), Err(MonthError::InvalidMonth));
}

#[test]
fn cipal_month_is_checked_before_year() {
    assert_eq!(CipalMonth::new("13/1969".to_string()), Err(MonthError::InvalidMonth));
    assert_eq!(CipalMonth::new("xx/1969".to_string()), Err(MonthError::ParseIntError));
    assert_eq!(CipalMonth::new("12/2101".to_string()), Err(MonthError::InvalidYear));
    assert_eq!(CipalMonth::new(" 12/2100 ".to_string()), Ok(CipalMonth { year: 2100, month: 12 }));
    assert_eq!(CipalMonth::new("/012021/".to_string()), Ok(CipalMonth { year: 2021, month: 1 }));
    assert_eq!(CipalMonth::new("1/21".to_string()), Err(MonthError::InvalidLength));
}

#[test]
fn month_error_messages() {
    assert_eq!(MonthError::InvalidYear.to_string(), "Invalid Year.");
    assert_eq!(MonthError::InvalidMonth.to_string(), "Invalid Month.");
    assert_eq!(MonthError::InvalidLength.to_string(), "Invalid Length.");
    assert_eq!(
        MonthError::ParseIntError.to_string(),
        "ParseInt error: invalid digit found in string"
    );
}
