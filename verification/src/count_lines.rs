//! Counting the lines of one file into the totals of a run.

use crate::classify::{counts_of, tally_lines};
use crate::code_stats::CodeStats;
use crate::params::Params;
use crate::text::lines_of;
use vstd::prelude::*;

verus! {

/// Classifies the lines of `text` and adds their tally to `stats`, under the
/// configuration's choice of what counts.
pub fn count_lines(text: &str, params: &Params, stats: &mut CodeStats)
    requires
        old(stats)@.plus(counts_of(lines_of(text@)), *params).fits(),
    ensures
        final(stats)@ == old(stats)@.plus(counts_of(lines_of(text@)), *params),
{
    let tally = tally_lines(text);
    stats.merge(&tally, params);
}

/// As `count_lines`, but where a total would overflow nothing is counted and
/// `false` is returned.
pub fn try_count_lines(text: &str, params: &Params, stats: &mut CodeStats) -> (counted: bool)
    ensures
        counted == old(stats)@.plus(counts_of(lines_of(text@)), *params).fits(),
        final(stats)@ == if counted {
            old(stats)@.plus(counts_of(lines_of(text@)), *params)
        } else {
            old(stats)@
        },
{
    let tally = tally_lines(text);
    if stats.fits(&tally, params) {
        stats.merge(&tally, params);
        true
    } else {
        false
    }
}

} // verus!
