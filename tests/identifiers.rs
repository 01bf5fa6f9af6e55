use lvgl::{Gender, Rrn, RrnError};

#[test]
fn nine_digits_are_padded_with_two_zeros() {
    assert_eq!(Rrn::new("123456789").unwrap(), Rrn::new("00123456789").unwrap());
}

#[test]
fn ten_digits_are_padded_with_one_zero() {
    assert_eq!(Rrn::new("1234567890").unwrap(), Rrn::new("01234567890").unwrap());
}

#[test]
fn eleven_digits_normalise_to_themselves() {
    let once = Rrn::new("69100136359").unwrap();
    let again = Rrn::new("69100136359").unwrap();
    assert_eq!(once, again);
    assert_ne!(once, Rrn::new("06910013635").unwrap());
}

#[test]
fn padded_nine_digits_keep_their_check() {
    // 001234567 leaves 48 modulo 97, so the pre-2000 check number is 49.
    assert_eq!(Rrn::new("1234567-49").unwrap().check(), Ok(Gender::M));
    assert_eq!(Rrn::new("1234567-13").unwrap().check(), Err(RrnError::InvalidControl));
}

#[test]
fn white_space_around_a_number_is_ignored() {
    let rrn = Rrn::new(" \t69.10.01-363.59\u{3000}\n").unwrap();
    assert_eq!(rrn, Rrn::new("69100136359").unwrap());
    assert_eq!(rrn.check(), Ok(Gender::M));
}

#[test]
fn separators_anywhere_give_equal_numbers() {
    let a = Rrn::new("69.10.01-363.59").unwrap();
    let b = Rrn::new("6910.0136-3.59").unwrap();
    let c = Rrn::new("--691001363.59..").unwrap();
    assert_eq!(a, b);
    assert_eq!(b, c);
}

#[test]
fn eight_and_twelve_digits_are_rejected() {
    assert_eq!(Rrn::new("12345678"), Err(RrnError::InvalidLength));
    assert_eq!(Rrn::new("1.2.3.4.5.6.7.8.9.0.1.2"), Err(RrnError::InvalidLength));
    assert_eq!(Rrn::new("   "), Err(RrnError::InvalidLength));
}

#[test]
fn length_counts_bytes() {
    // Five two-byte letters and a digit take eleven bytes.
    let rrn = Rrn::new("\u{e9}\u{e9}\u{e9}\u{e9}\u{e9}1").unwrap();
    assert_eq!(rrn.check(), Err(RrnError::ParseIntError));
}

#[test]
fn non_digit_gives_parse_error() {
    let rrn = Rrn::new("6910013635x").unwrap();
    assert_eq!(rrn.check(), Err(RrnError::ParseIntError));
    let rrn = Rrn::new("+9100136359").unwrap();
    assert_eq!(rrn.check(), Err(RrnError::ParseIntError));
}

#[test]
fn post2000_scheme_is_tried_after_pre2000() {
    // 020224045 + 2000000000 leaves 1 modulo 97: check number 96.
    assert_eq!(Rrn::new("02022404596").unwrap().check(), Ok(Gender::M));
    assert_eq!(Rrn::new("02022404597").unwrap().check(), Err(RrnError::InvalidControl));
}

#[test]
fn validate_scenarios() {
    assert_eq!(Rrn::new("69100136359").unwrap().check(), Ok(Gender::M));
    assert_eq!(Rrn::new("95022899874").unwrap().check(), Ok(Gender::F));
    assert_eq!(Rrn::new("02022404596").unwrap().check(), Ok(Gender::M));
    assert_eq!(Rrn::new("05050413214").unwrap().check(), Ok(Gender::F));
    assert_eq!(Rrn::new("95022899873").unwrap().check(), Err(RrnError::InvalidControl));
}

#[test]
fn rrn_error_messages() {
    assert_eq!(RrnError::InvalidLength.to_string(), "Invalid Rijksregister Nummer Length.");
    assert_eq!(RrnError::InvalidControl.to_string(), "Invalid Rijksregister Nummer.");
    assert_eq!(
        RrnError::ParseIntError.to_string(),
        "ParseInt error: invalid digit found in string"
    );
}
