use vstd::prelude::*;

verus! {

/// Lowest port number that a service may be bound to.
pub const MIN_PORT: i32 = 1024;

/// Highest port number that a service may be bound to.
pub const MAX_PORT: i32 = 65535;

/// Settings of a broker run, as given on the command line.
pub struct Args {
    pub rules_file: String,
    pub log_level: String,
    pub log_style: String,
    pub ip: String,
    pub pull_port: i32,
    pub pub_port: i32,
    pub rhwn: i32,
    pub shwm: i32,
}

/// Decimal value of a sequence of ASCII digits.
pub open spec fn digits_value(d: Seq<char>) -> int
    decreases d.len(),
{
    if d.len() == 0 {
        0
    } else {
        digits_value(d.drop_last()) * 10 + (d.last() as int - '0' as int)
    }
}

pub open spec fn all_digits(d: Seq<char>) -> bool {
    forall|i: int| 0 <= i < d.len() ==> '0' <= #[trigger] d[i] && d[i] <= '9'
}

/// What `str::parse::<i32>` yields: an optional `+` or `-` sign followed by
/// one or more ASCII digits, whose value fits in an `i32`.
pub open spec fn i32_of(s: Seq<char>) -> Option<i32> {
    let signed = s.len() > 0 && (s[0] == '-' || s[0] == '+');
    let d = if signed { s.skip(1) } else { s };
    let v = if signed && s[0] == '-' { -digits_value(d) } else { digits_value(d) };
    if d.len() > 0 && all_digits(d) && i32::MIN <= v && v <= i32::MAX {
        Some(v as i32)
    } else {
        None
    }
}

/// The number a command-line value stands for, zero where it is no number.
pub open spec fn number_or_zero(s: Seq<char>) -> int {
    match i32_of(s) {
        Some(v) => v as int,
        None => 0,
    }
}

/// Relies on `str::parse::<i32>` (std's `FromStr` for `i32`), which accepts
/// exactly the text described by `i32_of`.
#[verifier::external_body]
fn parse_i32(s: &str) -> (r: Option<i32>)
    ensures
        r == i32_of(s@),
{
    s.parse::<i32>().ok()
}

/// Relies on `format!` to render the port-range complaint.
#[verifier::external_body]
fn port_complaint(num: i32, lo: i32, hi: i32) -> String {
    format!("Bad port number {}. Chose a number in this range {}-{}", num, lo, hi)
}

/// Relies on `format!` to render the high-water-mark complaint.
#[verifier::external_body]
fn hwm_complaint(s: &str) -> String {
    format!("HWM {} too low.", s)
}

impl Args {
    /// Accepts a port number in `MIN_PORT..=MAX_PORT`; text that is no
    /// number counts as zero and is refused.
    pub fn is_good_port_number(s: String) -> (r: Result<(), String>)
        ensures
            r is Ok <==> MIN_PORT <= number_or_zero(s@) <= MAX_PORT,
    {
        let num: i32 = match parse_i32(s.as_str()) {
            Some(v) => v,
            None => 0,
        };
        if num < MIN_PORT || MAX_PORT < num {
            return Err(port_complaint(num, MIN_PORT, MAX_PORT));
        }
        Ok(())
    }

    /// Accepts a high-water mark of at least one; text that is no number
    /// counts as zero and is refused.
    pub fn hwm_is_sane(s: String) -> (r: Result<(), String>)
        ensures
            r is Ok <==> 1 <= number_or_zero(s@),
    {
        let num: i32 = match parse_i32(s.as_str()) {
            Some(v) => v,
            None => 0,
        };
        if num < 1 {
            return Err(hwm_complaint(s.as_str()));
        }
        Ok(())
    }
}

} // verus!
