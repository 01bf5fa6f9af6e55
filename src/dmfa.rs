//! The checks that a DMFA workbook passes before it is read: its file name,
//! its single worksheet, and the two quarters that the sheet's name holds.

use crate::text::{chars_of, string_from_chars};
use vstd::prelude::*;

verus! {

#[derive(Debug, Clone, Copy, PartialEq, Eq, Structural)]
pub enum DmfaError {
    InvalidFilename,
    FileNotFound,
    InvalidExtension,
    KboNotFound,
    MultipleKbo,
    TooManySheets,
    NoSheets,
    InvalidSheetName,
    InvalidKbo,
    TooManyKbo,
}

pub open spec fn dmfa_error_message(e: DmfaError) -> Seq<char> {
    match e {
        DmfaError::InvalidFilename => "Invalid filename."@,
        DmfaError::FileNotFound => "File not found."@,
        DmfaError::InvalidExtension => "Invalid file extension."@,
        DmfaError::KboNotFound => "KBO not found."@,
        DmfaError::MultipleKbo => "Multiple KBO numbers found."@,
        DmfaError::TooManySheets => "Too many sheets."@,
        DmfaError::NoSheets => "No sheets."@,
        DmfaError::InvalidSheetName => "Invalid sheet name"@,
        DmfaError::InvalidKbo => "Invalid KBO"@,
        DmfaError::TooManyKbo => "Too many KBO numbers"@,
    }
}

impl DmfaError {
    pub fn to_string(&self) -> (r: String)
        ensures
            r@ == dmfa_error_message(*self),
    {
        match self {
            DmfaError::InvalidFilename => "Invalid filename.".to_owned(),
            DmfaError::FileNotFound => "File not found.".to_owned(),
            DmfaError::InvalidExtension => "Invalid file extension.".to_owned(),
            DmfaError::KboNotFound => "KBO not found.".to_owned(),
            DmfaError::MultipleKbo => "Multiple KBO numbers found.".to_owned(),
            DmfaError::TooManySheets => "Too many sheets.".to_owned(),
            DmfaError::NoSheets => "No sheets.".to_owned(),
            DmfaError::InvalidSheetName => "Invalid sheet name".to_owned(),
            DmfaError::InvalidKbo => "Invalid KBO".to_owned(),
            DmfaError::TooManyKbo => "Too many KBO numbers".to_owned(),
        }
    }
}

#[verifier::external_type_specification]
#[verifier::external_body]
pub struct ExPathBuf(std::path::PathBuf);

/// A DMFA workbook: where it lies, the employer's KBO number and the first
/// and last quarter that it covers.
#[derive(Debug)]
pub struct DmfaReader {
    pub path: std::path::PathBuf,
    pub kbo_nummer: String,
    pub start_kwartaal: String,
    pub stop_kwartaal: String,
}

/// What `str::to_lowercase` makes of a string.
pub uninterp spec fn lower_of(s: Seq<char>) -> Seq<char>;

/// Relies on `str::to_lowercase`: the Unicode lowercase mapping, which
/// depends on the characters alone.
#[verifier::external_body]
fn lowercase(s: &str) -> (r: String)
    ensures
        r@ == lower_of(s@),
{
    s.to_lowercase()
}

pub open spec fn ends_with(s: Seq<char>, suffix: Seq<char>) -> bool {
    suffix.len() <= s.len() && s.subrange(s.len() - suffix.len(), s.len() as int) == suffix
}

pub open spec fn xlsx_suffix() -> Seq<char> {
    seq!['.', 'x', 'l', 's', 'x']
}

/// Whether the (already lowercased) name ends with `.xlsx`.
pub fn has_xlsx_extension(lowered: &str) -> (r: bool)
    ensures
        r == ends_with(lowered@, xlsx_suffix()),
{
    let c = chars_of(lowered);
    let suffix = vec!['.', 'x', 'l', 's', 'x'];
    assert(suffix@ =~= xlsx_suffix());
    if c.len() < 5 {
        return false;
    }
    let start = c.len() - 5;
    let mut i: usize = 0;
    while i < 5
        invariant
            i <= 5,
            c@ == lowered@,
            start + 5 == c.len(),
            suffix@ == xlsx_suffix(),
            forall|k: int| 0 <= k < i ==> c@[start + k] == suffix@[k],
        decreases 5 - i,
    {
        if c[start + i] != suffix[i] {
            assert(c@.subrange(start as int, c@.len() as int)[i as int] != xlsx_suffix()[i as int]);
            return false;
        }
        i += 1;
    }
    assert(c@.subrange(start as int, c@.len() as int) =~= xlsx_suffix());
    true
}

/// The verdict on a workbook's file name: it must not be empty and, in
/// lowercase, must end with `.xlsx`.
pub open spec fn filename_check(name: Seq<char>) -> Result<(), DmfaError> {
    if name.len() == 0 {
        Err(DmfaError::InvalidFilename)
    } else if !ends_with(lower_of(name), xlsx_suffix()) {
        Err(DmfaError::InvalidExtension)
    } else {
        Ok(())
    }
}

/// Checks the file name of a DMFA workbook.
pub fn check_filename(filename: &str) -> (r: Result<(), DmfaError>)
    ensures
        r == filename_check(filename@),
{
    if filename.is_empty() {
        return Err(DmfaError::InvalidFilename);
    }
    let lowered = lowercase(filename);
    if !has_xlsx_extension(lowered.as_str()) {
        return Err(DmfaError::InvalidExtension);
    }
    Ok(())
}

/// A DMFA workbook holds exactly one worksheet.
pub fn check_sheet_count(sheet_count: usize) -> (r: Result<(), DmfaError>)
    ensures
        sheet_count == 0 ==> r == Err::<(), DmfaError>(DmfaError::NoSheets),
        sheet_count > 1 ==> r == Err::<(), DmfaError>(DmfaError::TooManySheets),
        sheet_count == 1 ==> r is Ok,
{
    if sheet_count == 0 {
        Err(DmfaError::NoSheets)
    } else if sheet_count > 1 {
        Err(DmfaError::TooManySheets)
    } else {
        Ok(())
    }
}

/// The fields of `s` between the occurrences of `sep`, as `str::split`
/// gives them: one more than there are separators.
pub open spec fn split_fields(s: Seq<char>, sep: char) -> Seq<Seq<char>>
    decreases s.len(),
{
    if s.len() == 0 {
        seq![Seq::empty()]
    } else {
        let f = split_fields(s.drop_last(), sep);
        if s.last() == sep {
            f.push(Seq::empty())
        } else {
            f.update(f.len() - 1, f.last().push(s.last()))
        }
    }
}

/// The first and last quarter that a sheet named `name` covers: the second
/// and third of its `_`-separated fields.
pub open spec fn sheet_quarters(name: Seq<char>) -> Result<(Seq<char>, Seq<char>), DmfaError> {
    let f = split_fields(name, '_');
    if f.len() < 3 {
        Err(DmfaError::InvalidSheetName)
    } else {
        Ok((f[1], f[2]))
    }
}

/// Reads the first and last quarter from the name of a DMFA worksheet,
/// such as `DMFA_20211_20224`.
pub fn sheet_periods(sheet_name: &str) -> (r: Result<(String, String), DmfaError>)
    ensures
        match r {
            Ok((start, stop)) => sheet_quarters(sheet_name@) == Ok::<
                (Seq<char>, Seq<char>),
                DmfaError,
            >((start@, stop@)),
            Err(e) => sheet_quarters(sheet_name@) == Err::<(Seq<char>, Seq<char>), DmfaError>(e),
        },
{
    let c = chars_of(sheet_name);
    let mut start: Vec<char> = Vec::new();
    let mut stop: Vec<char> = Vec::new();
    let mut k: usize = 0;
    let mut i: usize = 0;
    assert(c@.subrange(0, 0) =~= Seq::<char>::empty());
    while i < c.len()
        invariant
            i <= c@.len(),
            k <= i,
            split_fields(c@.subrange(0, i as int), '_').len() == k + 1,
            start@ == (if k >= 1 {
                split_fields(c@.subrange(0, i as int), '_')[1]
            } else {
                Seq::<char>::empty()
            }),
            stop@ == (if k >= 2 {
                split_fields(c@.subrange(0, i as int), '_')[2]
            } else {
                Seq::<char>::empty()
            }),
        decreases c.len() - i,
    {
        let ch = c[i];
        assert(c@.subrange(0, i + 1).drop_last() =~= c@.subrange(0, i as int));
        if ch == '_' {
            k += 1;
        } else if k == 1 {
            start.push(ch);
        } else if k == 2 {
            stop.push(ch);
        }
        i += 1;
    }
    assert(c@.subrange(0, c.len() as int) =~= c@);
    if k < 2 {
        return Err(DmfaError::InvalidSheetName);
    }
    Ok((string_from_chars(start.as_slice()), string_from_chars(stop.as_slice())))
}

} // verus!
