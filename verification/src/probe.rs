//! Reading the round-trip time out of the report of a latency probe.
//!
//! The probe is the system's `ping`, run once by the caller. Its report names
//! the round-trip time as `time=<digits>ms`; the first such place counts.

use crate::decimal::{latency_from_digits, parse_latency};
use crate::error::QueryError;
use vstd::prelude::*;

verus! {

/// The pattern that finds the round-trip time in a probe report.
pub const PING_PATTERN: &'static str = "time=(?P<time>\\d+)ms";

/// The capture group of [`PING_PATTERN`] that holds the digits.
pub const PING_GROUP: &'static str = "time";

/// What the capture group `group` holds where the regular expression
/// `pattern` first matches in `text`, as the regex crate finds it.
pub uninterp spec fn first_capture(pattern: Seq<char>, group: Seq<char>, text: Seq<char>) -> Option<
    Seq<char>,
>;

/// Compiles `pattern` with `Regex::new`, searches `text` with
/// `Regex::captures`, takes the group with `Captures::name` and its text with
/// `Match::as_str`.
///
/// The contract claims that the outcome depends on the three texts alone. Of
/// the search that holds for every pattern. Of the compilation it does not:
/// the crate refuses a pattern whose program exceeds a size limit in bytes,
/// and the bytes a program takes differ with the target's pointer width. So
/// the wrapper is for the probe pattern only, which is far below the limit on
/// every target.
#[verifier::external_body]
fn capture(pattern: &str, group: &str, text: &str) -> (found: Option<String>)
    requires
        pattern@ == PING_PATTERN@,
    ensures
        match found {
            Some(part) => first_capture(pattern@, group@, text@) == Some(part@),
            None => first_capture(pattern@, group@, text@) is None,
        },
{
    match regex::Regex::new(pattern) {
        Ok(re) => re.captures(text).and_then(|caps| caps.name(group)).map(|m| m.as_str().to_string()),
        Err(_) => None,
    }
}

/// What a probe comes to: the latency that the captured digits stand for,
/// where the probe command ended well, its report held a capture, and the
/// digits are a 32-bit number; a failed probe in every other case.
pub open spec fn probe_outcome(succeeded: bool, found: Option<Seq<char>>) -> Result<
    u32,
    QueryError,
> {
    if !succeeded {
        Err(QueryError::ProbeFailed)
    } else {
        match found {
            Some(digits) => match parse_latency(digits) {
                Some(ms) => Ok(ms),
                None => Err(QueryError::ProbeFailed),
            },
            None => Err(QueryError::ProbeFailed),
        }
    }
}

/// The latency that a capture from the report of a successful probe stands
/// for. A report without a capture, or with digits that are no 32-bit number,
/// is a failed probe.
pub fn latency_from_capture(found: Option<String>) -> (r: Result<u32, QueryError>)
    ensures
        r == probe_outcome(
            true,
            match found {
                Some(digits) => Some(digits@),
                None => None,
            },
        ),
{
    match found {
        Some(digits) => match latency_from_digits(digits.as_str()) {
            Some(ms) => Ok(ms),
            None => Err(QueryError::ProbeFailed),
        },
        None => Err(QueryError::ProbeFailed),
    }
}

/// The round-trip time in milliseconds that a latency probe measured.
///
/// `succeeded` says whether the probe command ended well, `report` is what it
/// wrote. A probe that did not end well has failed, whatever it wrote.
/// Otherwise the latency is read from the first place in the report that
/// [`PING_PATTERN`] matches.
pub fn ping(succeeded: bool, report: &str) -> (r: Result<u32, QueryError>)
    ensures
        r == probe_outcome(succeeded, first_capture(PING_PATTERN@, PING_GROUP@, report@)),
{
    if !succeeded {
        return Err(QueryError::ProbeFailed);
    }
    latency_from_capture(capture(PING_PATTERN, PING_GROUP, report))
}

} // verus!
