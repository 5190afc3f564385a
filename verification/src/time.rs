//! Instants in UTC as plain values, and the calls into `chrono` that read,
//! write and sample them.

use vstd::prelude::*;

verus! {

/// An instant: seconds since 1970-01-01T00:00:00Z and the nanoseconds past
/// that second (at or above 1_000_000_000 only during a leap second), as
/// `DateTime::<Utc>::timestamp` and `timestamp_subsec_nanos` report it.
#[derive(Clone, Copy, Debug, PartialEq, Eq, Structural)]
pub struct UtcInstant {
    pub secs: i64,
    pub nanos: u32,
}

/// Instants in time order: by second, then by nanosecond.
pub open spec fn instant_lt(a: UtcInstant, b: UtcInstant) -> bool {
    a.secs < b.secs || (a.secs == b.secs && a.nanos < b.nanos)
}

/// The text that `DateTime::<Utc>::to_rfc3339` writes for the instant (for
/// the epoch, where chrono holds no such instant).
pub uninterp spec fn rfc3339_utc(secs: i64, nanos: u32) -> Seq<char>;

/// The instant that `DateTime::parse_from_rfc2822` reads from the text, if it
/// reads one, as (seconds, nanoseconds).
pub uninterp spec fn rfc2822_instant(text: Seq<char>) -> Option<(i64, u32)>;

/// Builds the `DateTime<Utc>` of the instant with `DateTime::from_timestamp`
/// and writes it with `to_rfc3339`; an instant outside chrono's range is
/// written as the epoch. The contract only names the text.
#[verifier::external_body]
pub(crate) fn format_rfc3339(at: UtcInstant) -> (r: String)
    ensures
        r@ == rfc3339_utc(at.secs, at.nanos),
{
    chrono::DateTime::from_timestamp(at.secs, at.nanos).unwrap_or_default().to_rfc3339()
}

/// Parses an RFC 2822 date with `DateTime::parse_from_rfc2822` and reads the
/// instant with `timestamp` and `timestamp_subsec_nanos`; the contract only
/// names the outcome.
#[verifier::external_body]
pub(crate) fn parse_rfc2822(text: &str) -> (r: Option<UtcInstant>)
    ensures
        match rfc2822_instant(text@) {
            Some(p) => r == Some(UtcInstant { secs: p.0, nanos: p.1 }),
            None => r is None,
        },
{
    chrono::DateTime::parse_from_rfc2822(text).ok().map(
        |d| UtcInstant { secs: d.timestamp(), nanos: d.timestamp_subsec_nanos() },
    )
}

/// The current time from `Utc::now`; nothing is promised of its value.
#[verifier::external_body]
pub(crate) fn now_utc() -> (r: UtcInstant) {
    let now = chrono::Utc::now();
    UtcInstant { secs: now.timestamp(), nanos: now.timestamp_subsec_nanos() }
}

} // verus!
