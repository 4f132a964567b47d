//! The wc-style tool: per-input byte/char/line/word tallies, folded into a
//! running total in input order, with per-input failures reported on the
//! diagnostic channel without stopping the run.

pub mod args;
pub mod counts;
pub mod result;

use crate::wcr::args::Wcr;
use crate::wcr::counts::{compute, computed_items, initial_totals, totals_ok, WcSource};
use crate::wcr::result::{rendered_items_err, rendered_items_out};
use vstd::prelude::*;

verus! {

/// Tallies every input and renders the two streams: tally lines (and the
/// running total when more than one input was given) on the primary stream,
/// per-input failures on the diagnostic one.
pub fn run(wcr: &Wcr, sources: &Vec<WcSource>) -> (r: (String, String))
    requires
        totals_ok(initial_totals(*wcr), sources@, *wcr),
    ensures
        r.0@ == rendered_items_out(computed_items(*wcr, sources@)),
        r.1@ == rendered_items_err(computed_items(*wcr, sources@)),
{
    let res = compute(wcr, sources);
    res.render()
}

} // verus!
