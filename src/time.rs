//! Instants as seconds and nanoseconds since the Unix epoch, and the
//! parsing of the backup tool's timestamps.

use vstd::arithmetic::div_mod::{lemma_fundamental_div_mod, lemma_fundamental_div_mod_converse_div, lemma_mod_pos_bound};
use vstd::prelude::*;

verus! {

/// An instant: whole seconds since the Unix epoch and a nanosecond part.
#[derive(Clone, Copy, Debug, PartialEq, Eq)]
pub struct Timestamp {
    pub second: i64,
    pub nanosecond: i32,
}

/// Nanoseconds since the epoch of the instant `(second, nanosecond)`.
pub open spec fn instant_nanos(second: int, nanosecond: int) -> int {
    second * 1_000_000_000 + nanosecond
}

/// A span of nanoseconds rounded to the nearest whole second, halves upward.
pub open spec fn round_seconds(nanos: int) -> int {
    (nanos + 500_000_000) / 1_000_000_000
}

/// The instant that the timestamp text `s` denotes, as seconds and
/// nanoseconds, or `None` when it is not a valid timestamp.
pub uninterp spec fn parsed_instant(s: Seq<char>) -> Option<(int, int)>;

/// The instant of `s` as the library holds it.
pub open spec fn parsed_timestamp(s: Seq<char>) -> Option<Timestamp> {
    match parsed_instant(s) {
        Some((sec, nano)) => Some(Timestamp { second: sec as i64, nanosecond: nano as i32 }),
        None => None,
    }
}

impl Timestamp {
    /// The instant `second` seconds and `nanosecond` nanoseconds after the epoch.
    pub fn from_parts(second: i64, nanosecond: i32) -> (r: Self)
        ensures
            r.second == second,
            r.nanosecond == nanosecond,
    {
        Timestamp { second, nanosecond }
    }

    /// Nanoseconds since the epoch.
    pub open spec fn nanos(self) -> int {
        instant_nanos(self.second as int, self.nanosecond as int)
    }
}

/// Relies on jiff's `Timestamp` parser (`str::parse::<jiff::Timestamp>`), read
/// back through `as_second` and `subsec_nanosecond`; the result depends on the
/// text alone.
#[verifier::external_body]
pub(crate) fn parse_timestamp(s: &str) -> (r: Option<Timestamp>)
    ensures
        match r {
            Some(t) => parsed_instant(s@) == Some((t.second as int, t.nanosecond as int)),
            None => parsed_instant(s@) is None,
        },
{
    match s.parse::<jiff::Timestamp>() {
        Ok(t) => Some(Timestamp { second: t.as_second(), nanosecond: t.subsec_nanosecond() }),
        Err(_) => None,
    }
}

/// An age of a whole number of seconds is exact: an instant `s` seconds
/// after `end` has age `s`.
pub proof fn lemma_age_whole_seconds(now: Timestamp, end: Timestamp, s: int)
    requires
        now.nanos() - end.nanos() == s * 1_000_000_000,
    ensures
        round_seconds(now.nanos() - end.nanos()) == s,
{
    lemma_fundamental_div_mod_converse_div(s * 1_000_000_000 + 500_000_000, 1_000_000_000, s, 500_000_000);
}

/// Seconds from `end` to `now`, rounded to the nearest second, halves upward.
pub fn age_seconds(now: Timestamp, end: Timestamp) -> (r: i128)
    ensures
        r == round_seconds(now.nanos() - end.nanos()),
{
    let d: i128 = 1_000_000_000;
    let x: i128 = (now.second as i128 - end.second as i128) * 1_000_000_000
        + (now.nanosecond as i128 - end.nanosecond as i128) + 500_000_000;
    assert(x == now.nanos() - end.nanos() + 500_000_000);
    if x >= 0 {
        x / d
    } else {
        let y: i128 = -x;
        let q: i128 = (y + d - 1) / d;
        proof {
            lemma_fundamental_div_mod((y + d - 1) as int, d as int);
            lemma_mod_pos_bound((y + d - 1) as int, d as int);
            let r = (y + d - 1) as int % (d as int);
            let rem: int = d - 1 - r;
            assert((-q) * d + rem == x) by (nonlinear_arith)
                requires
                    y + d - 1 == d * q + r,
                    y == -x,
                    rem == d - 1 - r;
            lemma_fundamental_div_mod_converse_div(x as int, d as int, -q, rem);
        }
        -q
    }
}

} // verus!
