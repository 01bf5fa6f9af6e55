//! Belgian national registry numbers (rijksregisternummers).

use crate::text::{
    all_digits, byte_len, byte_len_up_to, chars_of, decimal_value, is_digit,
    lemma_len_le_byte_len, parse_decimal, parse_decimal_field, skip_chars, string_from_chars,
    strip_separators, take_chars, trim, trim_end, trim_start, trimmed, utf8_width, without,
};
use vstd::prelude::*;
use vstd::std_specs::cmp::PartialEqSpec;

verus! {

/// The sex recorded in a registry number.
#[derive(Debug, Clone, Copy, PartialEq, Eq, Structural)]
pub enum Gender {
    M,
    F,
}

pub open spec fn gender_name(g: Gender) -> Seq<char> {
    match g {
        Gender::M => "Male"@,
        Gender::F => "Female"@,
    }
}

impl Gender {
    /// `Male` or `Female`.
    pub fn to_string(&self) -> (r: String)
        ensures
            r@ == gender_name(*self),
    {
        match self {
            Gender::M => "Male".to_owned(),
            Gender::F => "Female".to_owned(),
        }
    }
}

#[derive(Debug, Clone, Copy, PartialEq, Eq, Structural)]
pub enum RrnError {
    /// After trimming and removing separators the number does not take
    /// 9, 10 or 11 bytes.
    InvalidLength,
    /// The check digits fit neither the scheme for births before 2000 nor
    /// the one for births from 2000 on.
    InvalidControl,
    /// A field that must be decimal holds something else.
    ParseIntError,
}

pub open spec fn rrn_error_message(e: RrnError) -> Seq<char> {
    match e {
        RrnError::InvalidLength => "Invalid Rijksregister Nummer Length."@,
        RrnError::InvalidControl => "Invalid Rijksregister Nummer."@,
        RrnError::ParseIntError => "ParseInt error: invalid digit found in string"@,
    }
}

impl RrnError {
    pub fn to_string(&self) -> (r: String)
        ensures
            r@ == rrn_error_message(*self),
    {
        match self {
            RrnError::InvalidLength => "Invalid Rijksregister Nummer Length.".to_owned(),
            RrnError::InvalidControl => "Invalid Rijksregister Nummer.".to_owned(),
            RrnError::ParseIntError => "ParseInt error: invalid digit found in string".to_owned(),
        }
    }
}

/// The characters that may separate the groups of a registry number.
pub open spec fn rrn_separators() -> Seq<char> {
    seq!['.', '-']
}

/// What is left of a raw registry number once it is trimmed and its
/// separators are gone.
pub open spec fn rrn_digits(raw: Seq<char>) -> Seq<char> {
    without(trimmed(raw), rrn_separators())
}

pub open spec fn zeros(n: nat) -> Seq<char> {
    Seq::new(n, |i: int| '0')
}

/// The canonical form of a raw registry number: its digits, left-padded
/// with zeros to 11 bytes.
pub open spec fn rrn_normal_form(raw: Seq<char>) -> Result<Seq<char>, RrnError> {
    let d = rrn_digits(raw);
    if 9 <= byte_len(d) <= 11 {
        Ok(zeros((11 - byte_len(d)) as nat) + d)
    } else {
        Err(RrnError::InvalidLength)
    }
}

/// The check number of `base` for a birth before 2000.
pub open spec fn control_pre2000(base: int) -> int {
    97 - base % 97
}

/// The check number of `base` for a birth from 2000 on.
pub open spec fn control_post2000(base: int) -> int {
    97 - (base + 2_000_000_000) % 97
}

/// The sex that the sequence field (the 7th to 9th characters) records:
/// even for women, odd for men.
pub open spec fn sex_of(d: Seq<char>) -> Gender {
    if decimal_value(d.subrange(6, 9)) % 2 == 0 {
        Gender::F
    } else {
        Gender::M
    }
}

/// The outcome of checking the canonical number `d`.
pub open spec fn rrn_check(d: Seq<char>) -> Result<Gender, RrnError> {
    match (parse_decimal(take_chars(d, 9)), parse_decimal(skip_chars(d, 9))) {
        (Some(base), Some(control)) => {
            if control_pre2000(base) == control || control_post2000(base) == control {
                Ok(sex_of(d))
            } else {
                Err(RrnError::InvalidControl)
            }
        },
        _ => Err(RrnError::ParseIntError),
    }
}

/// A registry number in canonical form: 11 bytes, without separators.
#[derive(Debug)]
pub struct Rrn {
    rrn: String,
}

impl View for Rrn {
    type V = Seq<char>;

    closed spec fn view(&self) -> Seq<char> {
        self.rrn@
    }
}

impl PartialEq for Rrn {
    fn eq(&self, other: &Rrn) -> (r: bool)
        ensures
            r == (self@ == other@),
    {
        self.rrn == other.rrn
    }
}

impl Eq for Rrn {
}

impl vstd::std_specs::cmp::PartialEqSpecImpl for Rrn {
    open spec fn obeys_eq_spec() -> bool {
        true
    }

    open spec fn eq_spec(&self, other: &Rrn) -> bool {
        self@ == other@
    }
}

pub open spec fn rrn_result_view(r: Result<Rrn, RrnError>) -> Result<Seq<char>, RrnError> {
    match r {
        Ok(x) => Ok(x@),
        Err(e) => Err(e),
    }
}

impl Rrn {
    #[verifier::type_invariant]
    closed spec fn inv(&self) -> bool {
        byte_len(self.rrn@) == 11
    }

    /// Normalises a raw registry number: trims it, removes the `.` and `-`
    /// separators and left-pads a 9 or 10 byte result with zeros.
    pub fn new(rrn: &str) -> (r: Result<Self, RrnError>)
        ensures
            rrn_result_view(r) == rrn_normal_form(rrn@),
    {
        let chars = chars_of(rrn);
        let t = trim(chars.as_slice());
        let seps = vec!['.', '-'];
        assert(seps@ =~= rrn_separators());
        let d = strip_separators(t.as_slice(), seps.as_slice());
        match byte_len_up_to(d.as_slice(), 11) {
            Some(len) => {
                if len < 9 {
                    return Err(RrnError::InvalidLength);
                }
                let mut p: Vec<char> = Vec::new();
                let mut i: usize = len;
                while i < 11
                    invariant
                        len <= i <= 11,
                        p@ == zeros((i - len) as nat),
                    decreases 11 - i,
                {
                    p.push('0');
                    assert(p@ =~= zeros((i + 1 - len) as nat));
                    i += 1;
                }
                let mut k: usize = 0;
                while k < d.len()
                    invariant
                        k <= d@.len(),
                        p@ == zeros((11 - len) as nat) + d@.subrange(0, k as int),
                    decreases d.len() - k,
                {
                    p.push(d[k]);
                    assert(d@.subrange(0, k + 1) =~= d@.subrange(0, k as int).push(d@[k as int]));
                    k += 1;
                }
                assert(d@.subrange(0, d.len() as int) =~= d@);
                let s = string_from_chars(p.as_slice());
                proof {
                    lemma_byte_len_append(zeros((11 - len) as nat), d@);
                    lemma_byte_len_zeros((11 - len) as nat);
                }
                Ok(Rrn { rrn: s })
            },
            None => Err(RrnError::InvalidLength),
        }
    }

    /// Checks the two check digits against the first nine and, when they
    /// fit either scheme, tells the recorded sex.
    pub fn check(&self) -> (r: Result<Gender, RrnError>)
        ensures
            r == rrn_check(self@),
    {
        proof {
            use_type_invariant(self);
            lemma_len_le_byte_len(self.rrn@);
        }
        let d = chars_of(self.rrn.as_str());
        let n = d.len();
        let split: usize = if n < 9 {
            n
        } else {
            9
        };
        assert(d@.subrange(0, split as int) =~= take_chars(d@, 9));
        assert(d@.subrange(split as int, n as int) =~= skip_chars(d@, 9));
        let base = parse_decimal_field(d.as_slice(), 0, split);
        let control = parse_decimal_field(d.as_slice(), split, n);
        match (base, control) {
            (Some(b), Some(c)) => {
                // The scheme for births before 2000 first, then the one for
                // births from 2000 on.
                if 97 - b % 97 == c || 97 - (b + 2_000_000_000) % 97 == c {
                    proof {
                        let f = take_chars(d@, 9);
                        assert(d@.subrange(6, 9) =~= f.subrange(6, 9));
                        assert(all_digits(d@.subrange(6, 9))) by {
                            assert forall|i: int| 0 <= i < 3 implies is_digit(
                                #[trigger] d@.subrange(6, 9)[i],
                            ) by {
                                assert(d@.subrange(6, 9)[i] == f[i + 6]);
                            }
                        }
                    }
                    match parse_decimal_field(d.as_slice(), 6, 9) {
                        Some(id) => {
                            if id % 2 == 0 {
                                Ok(Gender::F)
                            } else {
                                Ok(Gender::M)
                            }
                        },
                        None => Err(RrnError::ParseIntError),
                    }
                } else {
                    Err(RrnError::InvalidControl)
                }
            },
            _ => Err(RrnError::ParseIntError),
        }
    }
}

proof fn lemma_byte_len_append(a: Seq<char>, b: Seq<char>)
    ensures
        byte_len(a + b) == byte_len(a) + byte_len(b),
    decreases b.len(),
{
    if b.len() > 0 {
        assert((a + b).drop_last() =~= a + b.drop_last());
        lemma_byte_len_append(a, b.drop_last());
    } else {
        assert(a + b =~= a);
    }
}

proof fn lemma_digits_untouched(d: Seq<char>)
    requires
        all_digits(d),
    ensures
        trimmed(d) == d,
        rrn_digits(d) == d,
        byte_len(d) == d.len(),
    decreases d.len(),
{
    if d.len() > 0 {
        let p = d.drop_last();
        assert(all_digits(p)) by {
            assert forall|i: int| 0 <= i < p.len() implies is_digit(#[trigger] p[i]) by {
                assert(p[i] == d[i]);
            }
        }
        lemma_digits_untouched(p);
        assert(is_digit(d[0]));
        assert(is_digit(d.last()));
        assert(!rrn_separators().contains(d.last())) by {
            if rrn_separators().contains(d.last()) {
                let j = choose|j: int| 0 <= j < 2 && rrn_separators()[j] == d.last();
                assert(j == 0 || j == 1);
            }
        }
        assert(trim_start(d) == d);
        assert(trim_end(d) == d);
        assert(utf8_width(d.last()) == 1);
    }
}

/// A run of 9 to 11 digits normalises to exactly 11 digits: the run itself,
/// left-padded with zeros. Normalising that result again leaves it as it
/// is, so a run of 11 digits normalises to itself.
pub proof fn lemma_normal_form_of_digits(d: Seq<char>)
    requires
        all_digits(d),
        9 <= d.len() <= 11,
    ensures
        ({
            let p = zeros((11 - d.len()) as nat) + d;
            &&& rrn_normal_form(d) == Ok::<Seq<char>, RrnError>(p)
            &&& p.len() == 11
            &&& all_digits(p)
            &&& rrn_normal_form(p) == Ok::<Seq<char>, RrnError>(p)
            &&& (d.len() == 11 ==> p == d)
        }),
{
    let p = zeros((11 - d.len()) as nat) + d;
    lemma_digits_untouched(d);
    assert(all_digits(p)) by {
        assert forall|i: int| 0 <= i < p.len() implies is_digit(#[trigger] p[i]) by {
            if i >= 11 - d.len() {
                assert(p[i] == d[i - (11 - d.len())]);
            }
        }
    }
    lemma_digits_untouched(p);
    assert(zeros(0) + p =~= p);
    assert(d.len() == 11 ==> p =~= d);
}

/// Raw numbers that agree once trimmed and rid of separators, wherever the
/// separators stood, have the same canonical form; `Rrn` values built from
/// them are equal.
pub proof fn lemma_same_digits_same_rrn(a: Seq<char>, b: Seq<char>, x: Rrn, y: Rrn)
    requires
        rrn_digits(a) == rrn_digits(b),
        rrn_normal_form(a) == Ok::<Seq<char>, RrnError>(x@),
        rrn_normal_form(b) == Ok::<Seq<char>, RrnError>(y@),
    ensures
        rrn_normal_form(a) == rrn_normal_form(b),
        x.eq_spec(&y),
{
}

proof fn lemma_byte_len_zeros(n: nat)
    ensures
        byte_len(zeros(n)) == n,
    decreases n,
{
    if n > 0 {
        assert(zeros(n).drop_last() =~= zeros((n - 1) as nat));
        lemma_byte_len_zeros((n - 1) as nat);
    }
}

} // verus!
