use vstd::prelude::*;

verus! {

/// What the host configures. It is read anew at every step, so a change
/// takes effect at the next one.
#[derive(Clone, Copy, Debug, PartialEq, Eq, Structural)]
pub struct Settings {
    /// How many past generations the history keeps.
    pub num_previous: usize,
}

/// `raw` brought into the range of a history depth.
pub open spec fn clamped_depth(raw: int) -> int {
    if raw < 0 {
        0
    } else if raw > usize::MAX {
        usize::MAX as int
    } else {
        raw
    }
}

impl Settings {
    /// Settings from a depth as the host supplies it. A negative depth counts
    /// as zero, and one that is too large for this machine as the largest
    /// there is; none is rejected.
    pub fn normalized(raw_num_previous: i64) -> (s: Settings)
        ensures
            s.num_previous == clamped_depth(raw_num_previous as int),
    {
        if raw_num_previous < 0 {
            Settings { num_previous: 0 }
        } else if raw_num_previous as u64 > usize::MAX as u64 {
            Settings { num_previous: usize::MAX }
        } else {
            Settings { num_previous: raw_num_previous as usize }
        }
    }
}

} // verus!
