use vstd::prelude::*;

verus! {

/// Milestone spacing for progress reporting: about every tenth of the total,
/// and at least one, so a total under ten (whose tenth rounds down to zero)
/// is served without ever dividing by zero.
pub open spec fn spec_progress_interval(total: nat) -> nat {
    if total / 10 == 0 {
        1
    } else {
        total / 10
    }
}

/// The milestone spacing for `total` units of work.
pub fn progress_interval(total: usize) -> (r: usize)
    ensures
        r as nat == spec_progress_interval(total as nat),
        r >= 1,
{
    let tenth = total / 10;
    if tenth == 0 {
        1
    } else {
        tenth
    }
}

/// Whether a milestone is due once `completed` of `total` units are done:
/// true on every multiple of the milestone spacing.
pub fn progress_due(completed: usize, total: usize) -> (r: bool)
    ensures
        r == (completed as nat % spec_progress_interval(total as nat) == 0),
{
    let interval = progress_interval(total);
    completed % interval == 0
}

} // verus!
