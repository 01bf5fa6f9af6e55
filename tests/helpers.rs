use lvgl::dmfa::{check_filename, check_sheet_count, has_xlsx_extension, sheet_periods};
use lvgl::text::{byte_len_up_to, chars_of, parse_decimal_field, strip_separators, trim};
use lvgl::DmfaError;

#[test]
fn trim_removes_unicode_white_space() {
    let c = chars_of("\u{a0} a b\u{2003}\r\n");
    assert_eq!(trim(&c), vec!['a', ' ', 'b']);
    assert_eq!(trim(&chars_of(" \t ")), Vec::<char>::new());
}

#[test]
fn strip_removes_every_separator() {
    let c = chars_of("-1.2-3.");
    assert_eq!(strip_separators(&c, &['.', '-']), vec!['1', '2', '3']);
    assert_eq!(strip_separators(&c, &[]), c);
}

#[test]
fn decimal_fields() {
    let c = chars_of("x0123456789");
    assert_eq!(parse_decimal_field(&c, 1, 10), Some(12345678));
    assert_eq!(parse_decimal_field(&c, 2, 11), Some(123456789));
    assert_eq!(parse_decimal_field(&c, 0, 2), None);
    assert_eq!(parse_decimal_field(&c, 3, 3), None);
}

#[test]
fn byte_lengths() {
    assert_eq!(byte_len_up_to(&chars_of("a\u{e9}\u{20ac}\u{1f600}"), 16), Some(10));
    assert_eq!(byte_len_up_to(&chars_of("abcdef"), 5), None);
    assert_eq!(byte_len_up_to(&chars_of(""), 0), Some(0));
}

#[test]
fn file_names() {
    assert_eq!(check_filename(""), Err(DmfaError::InvalidFilename));
    assert_eq!(check_filename("207527540-dmfa.txt"), Err(DmfaError::InvalidExtension));
    assert_eq!(check_filename("207527540-dmfa.xlsx"), Ok(()));
    assert_eq!(check_filename("DMFA.XLSX"), Ok(()));
    assert_eq!(check_filename("xlsx"), Err(DmfaError::InvalidExtension));
    assert!(!has_xlsx_extension("report.XLSX"));
    assert!(has_xlsx_extension(".xlsx"));
}

#[test]
fn sheet_counts() {
    assert_eq!(check_sheet_count(0), Err(DmfaError::NoSheets));
    assert_eq!(check_sheet_count(1), Ok(()));
    assert_eq!(check_sheet_count(2), Err(DmfaError::TooManySheets));
}

#[test]
fn sheet_names() {
    assert_eq!(
        sheet_periods("DMFA_20211_20224"),
        Ok(("20211".to_string(), "20224".to_string()))
    );
    assert_eq!(
        sheet_periods("a__b_c"),
        Ok(("".to_string(), "b".to_string()))
    );
    assert_eq!(sheet_periods("DMFA_20211"), Err(DmfaError::InvalidSheetName));
    assert_eq!(sheet_periods(""), Err(DmfaError::InvalidSheetName));
}

#[test]
fn dmfa_error_messages() {
    assert_eq!(DmfaError::NoSheets.to_string(), "No sheets.");
    assert_eq!(DmfaError::InvalidExtension.to_string(), "Invalid file extension.");
    assert_eq!(DmfaError::InvalidSheetName.to_string(), "Invalid sheet name");
}
