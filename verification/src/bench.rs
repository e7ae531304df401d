//! The integer side of the fork benchmarks.

use crate::text::{contains_text, has_text};
use vstd::prelude::*;

verus! {

/// Places of the order statistics that are reported, in a sorted list of measurements.
#[derive(Clone, Copy, Debug, PartialEq, Eq)]
pub struct Percentiles {
    pub p50: usize,
    pub p95: usize,
    pub p99: usize,
    pub max: usize,
}

/// Where the percentiles of `n` sorted measurements stand. The first measurement is the least;
/// the others follow in the order of the fields, each inside the list.
pub fn percentiles(n: usize) -> (p: Percentiles)
    requires
        0 < n,
        n * 99 <= usize::MAX,
    ensures
        p.p50 == n as int / 2,
        p.p95 == n * 95 / 100,
        p.p99 == n * 99 / 100,
        p.max == n - 1,
        p.p50 <= p.p95 <= p.p99 <= p.max,
{
    Percentiles { p50: n / 2, p95: n * 95 / 100, p99: n * 99 / 100, max: n - 1 }
}

/// How often a fork has echoed, and whether the first miss is worth a warning.
#[derive(Clone, Copy, Debug, PartialEq, Eq)]
pub struct EchoTally {
    pub successes: u32,
    pub warn: bool,
}

/// What a fork is asked to echo.
pub open spec fn echo_marker() -> Seq<char> {
    "hello"@
}

/// Counts run number `i` of the echo benchmark, which has had `successes` before: a run succeeds
/// where its output holds `hello`. Only the very first run warns where it does not.
pub fn tally_echo(successes: u32, i: u32, output: &str) -> (t: EchoTally)
    requires
        successes < u32::MAX,
    ensures
        t.successes == if contains_text(output@, echo_marker()) {
            successes + 1
        } else {
            successes as int
        },
        t.warn == (i == 0 && !contains_text(output@, echo_marker())),
{
    if has_text(output, "hello") {
        EchoTally { successes: successes + 1, warn: false }
    } else {
        EchoTally { successes, warn: i == 0 }
    }
}

/// What the isolation test writes into the first fork.
pub const SECRET: u64 = 0xDEADBEEF_CAFEBABE;

/// What it then writes into the second fork, at the same place.
pub const OVERWRITE: u64 = 0x1111_1111_1111_1111;

/// Where in the memory it writes.
pub const PROBE_OFFSET: usize = 0x50000;

/// What the isolation test shows.
#[derive(Clone, Copy, Debug, PartialEq, Eq)]
pub struct Isolation {
    /// The second fork does not see what was written into the first.
    pub secret_hidden: bool,
    /// The first fork keeps what was written into it after a write into the second.
    pub secret_kept: bool,
}

/// Judges the isolation test: `seen_by_second` is what the second fork read after the write into
/// the first, `left_in_first` what the first read after the write into the second.
pub fn judge_isolation(seen_by_second: u64, left_in_first: u64) -> (r: Isolation)
    ensures
        r.secret_hidden == (seen_by_second != SECRET),
        r.secret_kept == (left_in_first == SECRET),
{
    Isolation { secret_hidden: seen_by_second != SECRET, secret_kept: left_in_first == SECRET }
}

} // verus!
