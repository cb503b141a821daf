//! Per-level counters: the running tally that assigns each heading its
//! hierarchical number.

use vstd::prelude::*;

verus! {

/// The counters after a heading at `level` (1-based) is counted: the slot for
/// `level` is incremented, every deeper slot is reset to zero, and every
/// shallower slot keeps its value.
pub open spec fn step_counters(nums: Seq<u32>, level: int) -> Seq<u32> {
    Seq::new(
        nums.len(),
        |i: int|
            if i < level - 1 {
                nums[i]
            } else if i == level - 1 {
                ((nums[i] + 1) as u32)
            } else {
                0u32
            },
    )
}

/// Count a heading at `level` (1-based): increment its slot and reset all
/// deeper slots to zero.
pub fn update_section_numbers(nums: &mut Vec<u32>, level: usize)
    requires
        1 <= level <= old(nums)@.len(),
        old(nums)@[level - 1] < u32::MAX,
    ensures
        final(nums)@ == step_counters(old(nums)@, level as int),
{
    let cur: u32 = nums[level - 1];
    nums.set(level - 1, cur + 1);
    let mut i: usize = level;
    while i < nums.len()
        invariant
            1 <= level <= i <= nums@.len(),
            nums@.len() == old(nums)@.len(),
            forall|j: int| 0 <= j < level - 1 ==> nums@[j] == old(nums)@[j],
            nums@[level - 1] == old(nums)@[level - 1] + 1,
            forall|j: int| level <= j < i ==> nums@[j] == 0,
        decreases nums@.len() - i,
    {
        nums.set(i, 0);
        i += 1;
    }
    proof {
        assert(nums@ =~= step_counters(old(nums)@, level as int));
    }
}

} // verus!
