//! Decisions of the interactive reading stage: which candidate to fetch next.

use vstd::prelude::*;
use crate::text::starts_with;

verus! {

/// What the reader does next over a project's candidate list.
#[derive(Debug, Clone, Copy, PartialEq, Eq, Structural)]
pub enum Step {
    /// Fetch the candidate at this position.
    Fetch(usize),
    /// Every candidate has been tried.
    Exhausted,
    /// The user chose not to go on.
    Declined,
}

/// The first step over a list of `len` candidates.
pub fn first_step(len: usize) -> (r: Step)
    ensures
        r == (if len > 0 {
            Step::Fetch(0)
        } else {
            Step::Exhausted
        }),
{
    if len > 0 {
        Step::Fetch(0)
    } else {
        Step::Exhausted
    }
}

/// The step after fetching candidate `pos` of `len`. A failed fetch moves on
/// without asking; after a successful one the user's answer decides.
pub fn next_step(pos: usize, len: usize, fetched: bool, go_on: bool) -> (r: Step)
    requires
        pos < len,
    ensures
        r == (if fetched && !go_on {
            Step::Declined
        } else if pos + 1 < len {
            Step::Fetch((pos + 1) as usize)
        } else {
            Step::Exhausted
        }),
{
    if fetched && !go_on {
        Step::Declined
    } else if pos + 1 < len {
        Step::Fetch(pos + 1)
    } else {
        Step::Exhausted
    }
}

/// Whether a (trimmed) answer asks to go on: exactly `yes`.
pub fn is_yes(answer: &str) -> (r: bool)
    ensures
        r == (answer@ == "yes"@),
{
    proof {
        reveal_strlit("yes");
    }
    let r = answer.unicode_len() == 3 && starts_with(answer, "yes");
    assert(r == (answer@ == "yes"@)) by {
        if answer@.len() == 3 && "yes"@.is_prefix_of(answer@) {
            assert(answer@ =~= "yes"@);
        }
    }
    r
}

} // verus!
