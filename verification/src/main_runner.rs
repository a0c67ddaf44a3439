//! Settings of the process that runs the runners.
use crate::text::{ascii_lowered, lowered_equals, trim, trimmed};
use vstd::prelude::*;

verus! {

/// Whether a configured text turns the sequential runner off: once trimmed
/// and with its ASCII letters made small, it reads `0` or `false`.
pub open spec fn turns_sequential_off(text: Seq<char>) -> bool {
    let t = ascii_lowered(trimmed(text));
    t == "0"@ || t == "false"@
}

/// Whether the runners run in turn in one task rather than as separate
/// tasks; on unless the configured text is `0` or `false` (in any case,
/// with white space around it allowed).
pub fn sequential_runner_enabled(configured: Option<&str>) -> (r: bool)
    ensures
        r == match configured {
            Some(text) => !turns_sequential_off(text@),
            None => true,
        },
{
    match configured {
        Some(text) => {
            let t = trim(text);
            !(lowered_equals(t, "0") || lowered_equals(t, "false"))
        },
        None => true,
    }
}

} // verus!
