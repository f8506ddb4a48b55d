use crate::circuit::{decimal, push_decimal};
use regex::Regex;
use vstd::prelude::*;

verus! {

/// The digits that follow `non-linear constraints:` and any whitespace in the
/// first place where a compiler report holds that phrase with a number.
pub uninterp spec fn nonlinear_capture(report: Seq<char>) -> Option<Seq<char>>;

/// Relies on regex's `Regex::captures` with the pattern
/// `non-linear constraints:\s*(\d+)`: the first match's digit group, or `None`
/// where the report holds no match. The group matches one digit or more.
#[verifier::external_body]
fn capture_count_digits(report: &str) -> (r: Option<String>)
    ensures
        r.is_some() == nonlinear_capture(report@).is_some(),
        r.is_some() ==> r.unwrap()@ == nonlinear_capture(report@).unwrap(),
        r.is_some() ==> r.unwrap()@.len() > 0,
{
    let re = Regex::new(r"non-linear constraints:\s*(\d+)").unwrap();
    re.captures(report).map(|c| c[1].to_string())
}

/// Why the optimized constraint count could not be read from a report.
#[derive(Debug, Clone, Copy, PartialEq, Eq, Structural)]
pub enum ReportError {
    /// The report holds no `non-linear constraints: <integer>` line.
    PatternMissing,
    /// The reported count holds a digit other than `0` to `9`.
    NotANumber,
    /// The reported count does not fit in a `u64`.
    TooLarge,
}

pub open spec fn is_ascii_digit(c: char) -> bool {
    '0' <= c <= '9'
}

pub open spec fn all_ascii_digits(s: Seq<char>) -> bool {
    forall|j: int| 0 <= j < s.len() ==> is_ascii_digit(#[trigger] s[j])
}

/// The number that a string of ASCII digits writes in decimal.
pub open spec fn digits_value(s: Seq<char>) -> nat
    decreases s.len(),
{
    if s.len() == 0 {
        0
    } else {
        digits_value(s.drop_last()) * 10 + (s.last() as nat - '0' as nat) as nat
    }
}

/// What reading the digit string `d` gives.
pub open spec fn count_of_digits(d: Seq<char>) -> Result<u64, ReportError> {
    if !all_ascii_digits(d) {
        Err(ReportError::NotANumber)
    } else if digits_value(d) > u64::MAX {
        Err(ReportError::TooLarge)
    } else {
        Ok(digits_value(d) as u64)
    }
}

proof fn lemma_digits_value_grows(s: Seq<char>, j: int)
    requires
        0 <= j <= s.len(),
        all_ascii_digits(s),
    ensures
        digits_value(s.subrange(0, j)) <= digits_value(s),
    decreases s.len() - j,
{
    if j < s.len() {
        lemma_digits_value_grows(s, j + 1);
        let t = s.subrange(0, j + 1);
        assert(t.drop_last() =~= s.subrange(0, j));
        assert(digits_value(t) >= digits_value(s.subrange(0, j)) * 10);
    } else {
        assert(s.subrange(0, j) =~= s);
    }
}

/// Reads a decimal count written with the digits `0` to `9`.
pub fn count_from_digits(digits: &str) -> (r: Result<u64, ReportError>)
    ensures
        r == count_of_digits(digits@),
{
    let n = digits.unicode_len();
    let mut i: usize = 0;
    while i < n
        invariant
            n == digits@.len(),
            i <= n,
            all_ascii_digits(digits@.subrange(0, i as int)),
        decreases n - i,
    {
        let c = digits.get_char(i);
        if !('0' <= c && c <= '9') {
            assert(!all_ascii_digits(digits@));
            return Err(ReportError::NotANumber);
        }
        assert(digits@.subrange(0, i + 1) =~= digits@.subrange(0, i as int).push(c));
        i = i + 1;
    }
    assert(digits@.subrange(0, n as int) =~= digits@);
    let mut value: u64 = 0;
    let mut i: usize = 0;
    while i < n
        invariant
            n == digits@.len(),
            i <= n,
            all_ascii_digits(digits@),
            value == digits_value(digits@.subrange(0, i as int)),
        decreases n - i,
    {
        let c = digits.get_char(i);
        let d = (c as u32 - '0' as u32) as u64;
        let ghost next = digits@.subrange(0, i + 1);
        assert(next.drop_last() =~= digits@.subrange(0, i as int));
        assert(digits_value(next) == value * 10 + d);
        if value > (u64::MAX - d) / 10 {
            proof {
                lemma_digits_value_grows(digits@, i + 1);
            }
            return Err(ReportError::TooLarge);
        }
        value = value * 10 + d;
        i = i + 1;
    }
    assert(digits@.subrange(0, n as int) =~= digits@);
    Ok(value)
}

/// Reads the optimized non-linear constraint count from a compiler report.
/// A report without the `non-linear constraints: <integer>` line is an error,
/// never an estimate.
pub fn parse_optimized_count(report: &str) -> (r: Result<u64, ReportError>)
    ensures
        nonlinear_capture(report@).is_none() ==> r == Err::<u64, ReportError>(
            ReportError::PatternMissing,
        ),
        nonlinear_capture(report@).is_some() ==> r == count_of_digits(
            nonlinear_capture(report@).unwrap(),
        ),
{
    match capture_count_digits(report) {
        None => Err(ReportError::PatternMissing),
        Some(d) => count_from_digits(d.as_str()),
    }
}

/// A reducibility sample `1 - optimized / baseline`, kept exact as the
/// fraction `saved / baseline`. It is negative where the optimizer grew the
/// circuit.
#[derive(Debug, Clone, Copy, PartialEq, Eq, Structural)]
pub struct Reducibility {
    /// `baseline - optimized`.
    pub saved: i128,
    /// The constraint count before optimization.
    pub baseline: u64,
}

/// The reducibility of a circuit whose `baseline` constraints the optimizer
/// brought to `optimized`; a rise gives a negative value, unclamped.
pub fn reducibility(baseline: u64, optimized: u64) -> (r: Reducibility)
    requires
        baseline > 0,
    ensures
        r.saved == baseline - optimized,
        r.baseline == baseline,
{
    Reducibility { saved: baseline as i128 - optimized as i128, baseline }
}

pub open spec fn sample_seed(difficulty: u32, sample: u64) -> Seq<char> {
    "calib_"@ + decimal(difficulty as nat) + "_"@ + decimal(sample as nat)
}

/// The seed `calib_<difficulty>_<sample>` of one calibration sample.
pub fn calibration_seed(difficulty: u32, sample: u64) -> (r: String)
    ensures
        r@ == sample_seed(difficulty, sample),
{
    let mut s = String::from_str("calib_");
    push_decimal(&mut s, difficulty as u64);
    s.append("_");
    push_decimal(&mut s, sample);
    assert(s@ =~= sample_seed(difficulty, sample));
    s
}

} // verus!
