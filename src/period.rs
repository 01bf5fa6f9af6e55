//! Reporting periods: quarters, and the month codes of the BOSA and CIPAL
//! exports, which both map onto quarters.

use crate::text::{
    byte_len, byte_len_up_to, chars_of, decimal_digits, lemma_len_le_byte_len, parse_decimal,
    parse_decimal_field, push_decimal, skip_chars, strip_separators, take_chars, trim, trimmed,
    without,
};
use vstd::prelude::*;

verus! {

/// The years accepted in a period: from the Unix epoch to 2100.
pub open spec fn valid_year(y: int) -> bool {
    1970 <= y <= 2100
}

pub open spec fn valid_month(m: int) -> bool {
    1 <= m <= 12
}

/// The quarter that month `m` falls in; 0 for a number that is no month.
pub open spec fn quarter_of_month(m: int) -> int {
    if 1 <= m <= 3 {
        1
    } else if 4 <= m <= 6 {
        2
    } else if 7 <= m <= 9 {
        3
    } else if 10 <= m <= 12 {
        4
    } else {
        0
    }
}

fn quarter_for_month(m: u8) -> (q: u8)
    ensures
        q as int == quarter_of_month(m as int),
{
    match m {
        1 | 2 | 3 => 1,
        4 | 5 | 6 => 2,
        7 | 8 | 9 => 3,
        10 | 11 | 12 => 4,
        _ => 0,
    }
}

#[derive(Debug, Clone, Copy, PartialEq, Eq, Structural)]
pub enum KwartaalError {
    InvalidYear,
    InvalidQuarter,
    InvalidLength,
    ParseIntError,
}

pub open spec fn kwartaal_error_message(e: KwartaalError) -> Seq<char> {
    match e {
        KwartaalError::InvalidYear => "Invalid Year."@,
        KwartaalError::InvalidQuarter => "Invalid Quarter."@,
        KwartaalError::InvalidLength => "Invalid Length."@,
        KwartaalError::ParseIntError => "ParseInt error: invalid digit found in string"@,
    }
}

impl KwartaalError {
    pub fn to_string(&self) -> (r: String)
        ensures
            r@ == kwartaal_error_message(*self),
    {
        match self {
            KwartaalError::InvalidYear => "Invalid Year.".to_owned(),
            KwartaalError::InvalidQuarter => "Invalid Quarter.".to_owned(),
            KwartaalError::InvalidLength => "Invalid Length.".to_owned(),
            KwartaalError::ParseIntError => "ParseInt error: invalid digit found in string".to_owned(),
        }
    }
}

/// A quarter (kwartaal) of a year.
#[derive(Debug, Clone, Copy, PartialEq, Eq, Structural)]
pub struct Kwartaal {
    pub year: u16,
    pub quarter: u8,
}

/// The separators that a quarter code may hold.
pub open spec fn quarter_separators() -> Seq<char> {
    seq!['.', '-']
}

/// The outcome of parsing the quarter code `raw`, written `YYYYQ`.
pub open spec fn kwartaal_parse(raw: Seq<char>) -> Result<Kwartaal, KwartaalError> {
    let d = without(trimmed(raw), quarter_separators());
    if byte_len(d) != 5 {
        Err(KwartaalError::InvalidLength)
    } else {
        match parse_decimal(take_chars(d, 4)) {
            None => Err(KwartaalError::ParseIntError),
            Some(y) => {
                if !valid_year(y) {
                    Err(KwartaalError::InvalidYear)
                } else {
                    match parse_decimal(skip_chars(d, 4)) {
                        None => Err(KwartaalError::ParseIntError),
                        Some(q) => {
                            if 1 <= q <= 4 {
                                Ok(Kwartaal { year: y as u16, quarter: q as u8 })
                            } else {
                                Err(KwartaalError::InvalidQuarter)
                            }
                        },
                    }
                }
            },
        }
    }
}

/// The code `YYYYQ` of a quarter.
pub open spec fn kwartaal_code(k: Kwartaal) -> Seq<char> {
    decimal_digits(k.year as nat) + decimal_digits(k.quarter as nat)
}

impl Kwartaal {
    pub open spec fn wf(self) -> bool {
        valid_year(self.year as int) && 1 <= self.quarter <= 4
    }

    /// Parses a quarter code `YYYYQ`; surrounding white space and the
    /// separators `.` and `-` are ignored.
    pub fn new(kwart: String) -> (r: Result<Self, KwartaalError>)
        ensures
            r == kwartaal_parse(kwart@),
            r matches Ok(k) ==> k.wf(),
    {
        let chars = chars_of(kwart.as_str());
        let t = trim(chars.as_slice());
        let seps = vec!['.', '-'];
        assert(seps@ =~= quarter_separators());
        let d = strip_separators(t.as_slice(), seps.as_slice());
        match byte_len_up_to(d.as_slice(), 5) {
            Some(len) => {
                if len != 5 {
                    return Err(KwartaalError::InvalidLength);
                }
            },
            None => {
                return Err(KwartaalError::InvalidLength);
            },
        }
        proof {
            lemma_len_le_byte_len(d@);
        }
        let n = d.len();
        let split: usize = if n < 4 {
            n
        } else {
            4
        };
        assert(d@.subrange(0, split as int) =~= take_chars(d@, 4));
        assert(d@.subrange(split as int, n as int) =~= skip_chars(d@, 4));
        let year = match parse_decimal_field(d.as_slice(), 0, split) {
            Some(y) => y,
            None => {
                return Err(KwartaalError::ParseIntError);
            },
        };
        if year < 1970 || year > 2100 {
            return Err(KwartaalError::InvalidYear);
        }
        let quarter = match parse_decimal_field(d.as_slice(), split, n) {
            Some(q) => q,
            None => {
                return Err(KwartaalError::ParseIntError);
            },
        };
        if quarter < 1 || quarter > 4 {
            return Err(KwartaalError::InvalidQuarter);
        }
        Ok(Kwartaal { year: year as u16, quarter: quarter as u8 })
    }

    /// The code `YYYYQ` of the quarter, such as `20211`.
    pub fn to_string(&self) -> (r: String)
        ensures
            r@ == kwartaal_code(*self),
    {
        let mut s = String::new();
        push_decimal(&mut s, self.year as u32);
        push_decimal(&mut s, self.quarter as u32);
        s
    }
}

#[derive(Debug, Clone, Copy, PartialEq, Eq, Structural)]
pub enum MonthError {
    InvalidYear,
    InvalidMonth,
    InvalidLength,
    ParseIntError,
}

pub open spec fn month_error_message(e: MonthError) -> Seq<char> {
    match e {
        MonthError::InvalidYear => "Invalid Year."@,
        MonthError::InvalidMonth => "Invalid Month."@,
        MonthError::InvalidLength => "Invalid Length."@,
        MonthError::ParseIntError => "ParseInt error: invalid digit found in string"@,
    }
}

impl MonthError {
    pub fn to_string(&self) -> (r: String)
        ensures
            r@ == month_error_message(*self),
    {
        match self {
            MonthError::InvalidYear => "Invalid Year.".to_owned(),
            MonthError::InvalidMonth => "Invalid Month.".to_owned(),
            MonthError::InvalidLength => "Invalid Length.".to_owned(),
            MonthError::ParseIntError => "ParseInt error: invalid digit found in string".to_owned(),
        }
    }
}

/// The quarter that holds month `month` of `year`.
pub open spec fn month_kwartaal(year: u16, month: u8) -> Kwartaal {
    Kwartaal { year, quarter: quarter_of_month(month as int) as u8 }
}

/// A month as the BOSA export writes it: `YYYYMM`.
#[derive(Debug, Clone, Copy, PartialEq, Eq, Structural)]
pub struct BosaMonth {
    pub year: u16,
    pub month: u8,
}

/// The outcome of parsing the BOSA month code `raw`.
pub open spec fn bosa_parse(raw: Seq<char>) -> Result<BosaMonth, MonthError> {
    let d = trimmed(raw);
    if byte_len(d) != 6 {
        Err(MonthError::InvalidLength)
    } else {
        match parse_decimal(take_chars(d, 4)) {
            None => Err(MonthError::ParseIntError),
            Some(y) => {
                if !valid_year(y) {
                    Err(MonthError::InvalidYear)
                } else {
                    match parse_decimal(skip_chars(d, 4)) {
                        None => Err(MonthError::ParseIntError),
                        Some(m) => {
                            if valid_month(m) {
                                Ok(BosaMonth { year: y as u16, month: m as u8 })
                            } else {
                                Err(MonthError::InvalidMonth)
                            }
                        },
                    }
                }
            },
        }
    }
}

impl BosaMonth {
    pub open spec fn wf(self) -> bool {
        valid_year(self.year as int) && valid_month(self.month as int)
    }

    /// Parses a BOSA month code `YYYYMM`; surrounding white space is ignored.
    pub fn new(month: String) -> (r: Result<Self, MonthError>)
        ensures
            r == bosa_parse(month@),
            r matches Ok(m) ==> m.wf(),
    {
        let chars = chars_of(month.as_str());
        let d = trim(chars.as_slice());
        match byte_len_up_to(d.as_slice(), 6) {
            Some(len) => {
                if len != 6 {
                    return Err(MonthError::InvalidLength);
                }
            },
            None => {
                return Err(MonthError::InvalidLength);
            },
        }
        proof {
            lemma_len_le_byte_len(d@);
        }
        let n = d.len();
        let split: usize = if n < 4 {
            n
        } else {
            4
        };
        assert(d@.subrange(0, split as int) =~= take_chars(d@, 4));
        assert(d@.subrange(split as int, n as int) =~= skip_chars(d@, 4));
        let year = match parse_decimal_field(d.as_slice(), 0, split) {
            Some(y) => y,
            None => {
                return Err(MonthError::ParseIntError);
            },
        };
        if year < 1970 || year > 2100 {
            return Err(MonthError::InvalidYear);
        }
        let month = match parse_decimal_field(d.as_slice(), split, n) {
            Some(m) => m,
            None => {
                return Err(MonthError::ParseIntError);
            },
        };
        if month < 1 || month > 12 {
            return Err(MonthError::InvalidMonth);
        }
        Ok(BosaMonth { year: year as u16, month: month as u8 })
    }

    /// The quarter that holds this month; the year is kept.
    pub fn to_kwartaal(&self) -> (r: Kwartaal)
        ensures
            r == month_kwartaal(self.year, self.month),
            self.wf() ==> r.wf(),
    {
        Kwartaal { year: self.year, quarter: quarter_for_month(self.month) }
    }
}

/// A month as the CIPAL export writes it: `MM/YYYY`, where a month below
/// ten may lack its leading zero.
#[derive(Debug, Clone, Copy, PartialEq, Eq, Structural)]
pub struct CipalMonth {
    pub year: u16,
    pub month: u8,
}

/// The separator of a CIPAL month code.
pub open spec fn cipal_separators() -> Seq<char> {
    seq!['/']
}

/// The six characters `MMYYYY` of a CIPAL month code, or `None` where it
/// does not take 5 or 6 bytes once trimmed and without its separator.
pub open spec fn cipal_digits(raw: Seq<char>) -> Option<Seq<char>> {
    let d = without(trimmed(raw), cipal_separators());
    if byte_len(d) == 5 {
        Some(seq!['0'] + d)
    } else if byte_len(d) == 6 {
        Some(d)
    } else {
        None
    }
}

/// The outcome of parsing the CIPAL month code `raw`: the month is read
/// and checked before the year.
pub open spec fn cipal_parse(raw: Seq<char>) -> Result<CipalMonth, MonthError> {
    match cipal_digits(raw) {
        None => Err(MonthError::InvalidLength),
        Some(d) => {
            match parse_decimal(take_chars(d, 2)) {
                None => Err(MonthError::ParseIntError),
                Some(m) => {
                    if !valid_month(m) {
                        Err(MonthError::InvalidMonth)
                    } else {
                        match parse_decimal(take_chars(skip_chars(d, 2), 4)) {
                            None => Err(MonthError::ParseIntError),
                            Some(y) => {
                                if valid_year(y) {
                                    Ok(CipalMonth { year: y as u16, month: m as u8 })
                                } else {
                                    Err(MonthError::InvalidYear)
                                }
                            },
                        }
                    }
                },
            }
        },
    }
}

impl CipalMonth {
    pub open spec fn wf(self) -> bool {
        valid_year(self.year as int) && valid_month(self.month as int)
    }

    /// Parses a CIPAL month code `MM/YYYY` or `M/YYYY`; surrounding white
    /// space and the separator `/` are ignored.
    pub fn new(month: String) -> (r: Result<Self, MonthError>)
        ensures
            r == cipal_parse(month@),
            r matches Ok(m) ==> m.wf(),
    {
        let chars = chars_of(month.as_str());
        let t = trim(chars.as_slice());
        let seps = vec!['/'];
        assert(seps@ =~= cipal_separators());
        let s = strip_separators(t.as_slice(), seps.as_slice());
        let d = match byte_len_up_to(s.as_slice(), 6) {
            Some(5) => {
                let mut p: Vec<char> = vec!['0'];
                let mut k: usize = 0;
                while k < s.len()
                    invariant
                        k <= s@.len(),
                        p@ == seq!['0'] + s@.subrange(0, k as int),
                    decreases s.len() - k,
                {
                    p.push(s[k]);
                    assert(s@.subrange(0, k + 1) =~= s@.subrange(0, k as int).push(s@[k as int]));
                    k += 1;
                }
                assert(s@.subrange(0, s.len() as int) =~= s@);
                p
            },
            Some(6) => s,
            _ => {
                return Err(MonthError::InvalidLength);
            },
        };
        proof {
            lemma_len_le_byte_len(s@);
        }
        let n = d.len();
        let split: usize = if n < 2 {
            n
        } else {
            2
        };
        let end: usize = if n < 6 {
            n
        } else {
            6
        };
        assert(d@.subrange(0, split as int) =~= take_chars(d@, 2));
        assert(d@.subrange(split as int, end as int) =~= take_chars(skip_chars(d@, 2), 4));
        let month = match parse_decimal_field(d.as_slice(), 0, split) {
            Some(m) => m,
            None => {
                return Err(MonthError::ParseIntError);
            },
        };
        if month < 1 || month > 12 {
            return Err(MonthError::InvalidMonth);
        }
        let year = match parse_decimal_field(d.as_slice(), split, end) {
            Some(y) => y,
            None => {
                return Err(MonthError::ParseIntError);
            },
        };
        if year < 1970 || year > 2100 {
            return Err(MonthError::InvalidYear);
        }
        Ok(CipalMonth { year: year as u16, month: month as u8 })
    }

    /// The quarter that holds this month; the year is kept.
    pub fn to_kwartaal(&self) -> (r: Kwartaal)
        ensures
            r == month_kwartaal(self.year, self.month),
            self.wf() ==> r.wf(),
    {
        Kwartaal { year: self.year, quarter: quarter_for_month(self.month) }
    }
}

/// Mapping a valid BOSA month to its quarter depends on the month alone:
/// equal months give equal quarters, and the quarter is a valid one of the
/// same year.
pub proof fn lemma_bosa_to_kwartaal_deterministic(a: BosaMonth, b: BosaMonth)
    requires
        a.wf(),
        a == b,
    ensures
        month_kwartaal(a.year, a.month) == month_kwartaal(b.year, b.month),
        month_kwartaal(a.year, a.month).wf(),
        month_kwartaal(a.year, a.month).year == a.year,
{
}

/// Mapping a valid CIPAL month to its quarter depends on the month alone:
/// equal months give equal quarters, and the quarter is a valid one of the
/// same year.
pub proof fn lemma_cipal_to_kwartaal_deterministic(a: CipalMonth, b: CipalMonth)
    requires
        a.wf(),
        a == b,
    ensures
        month_kwartaal(a.year, a.month) == month_kwartaal(b.year, b.month),
        month_kwartaal(a.year, a.month).wf(),
        month_kwartaal(a.year, a.month).year == a.year,
{
}

} // verus!
