//! The settings of the poll loop.

use vstd::prelude::*;

verus! {

/// The seconds between two probes where none are configured.
pub const DEFAULT_POLL_INTERVAL_SECS: u64 = 60;

/// The seconds after which a probe is given up. It is shorter than the
/// default interval, so that a probe that hangs does not hold up the next.
pub const PROBE_TIMEOUT_SECS: u64 = 30;

/// The number that a text is read as by `str::parse::<u64>`, if it is read
/// as one.
pub uninterp spec fn parsed_seconds(text: Seq<char>) -> Option<u64>;

/// Calls `str::parse::<u64>`, which reads a text as a decimal number and
/// fails on a text that is not one or that is too large for `u64`. The
/// contract names what was read.
#[verifier::external_body]
fn parse_seconds(text: &str) -> (seconds: Option<u64>)
    ensures
        seconds == parsed_seconds(text@),
{
    match text.parse::<u64>() {
        Ok(seconds) => Some(seconds),
        Err(_) => None,
    }
}

/// The interval that stands for a configured value once it has been read:
/// the number that was read, and the default where none was.
pub open spec fn interval_for(read: Option<u64>) -> u64 {
    match read {
        Some(seconds) => seconds,
        None => DEFAULT_POLL_INTERVAL_SECS,
    }
}

/// Gives the interval for a configured value once it has been read.
pub fn interval_or_default(read: Option<u64>) -> (seconds: u64)
    ensures
        seconds == interval_for(read),
{
    match read {
        Some(seconds) => seconds,
        None => DEFAULT_POLL_INTERVAL_SECS,
    }
}

/// Gives the seconds between two probes for the configured text, if there
/// is one: the number that the text is read as, and the default where there
/// is no text or the text is no number.
pub fn poll_interval_secs(configured: Option<&str>) -> (seconds: u64)
    ensures
        seconds == interval_for(
            match configured {
                Some(text) => parsed_seconds(text@),
                None => None,
            },
        ),
{
    match configured {
        Some(text) => interval_or_default(parse_seconds(text)),
        None => interval_or_default(None),
    }
}

} // verus!
