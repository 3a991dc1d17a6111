//! Slot arithmetic for the equipment selection: which slots count as
//! occupied, clamping an authored slot request, and wrap-around cycling.

use vstd::prelude::*;

verus! {

/// Entries whose identifier is at or below this value are empty padding
/// slots; only entries above it count as occupied.
pub const EMPTY_SLOT_SENTINEL: i32 = 1;

/// How many entries hold an occupied slot.
pub open spec fn valid_slot_count(entries: Seq<i32>) -> nat {
    entries.filter(|e: i32| e > EMPTY_SLOT_SENTINEL).len()
}

/// The index one step forward from `selected`, wrapping past the last
/// occupied slot back to slot 0. A selection outside `0..=last_valid`
/// (possible if the host structure held a stray value) restarts at 0.
pub open spec fn cycle_forward_spec(selected: i32, last_valid: i32) -> int {
    if selected >= last_valid || selected < 0 {
        0
    } else {
        selected + 1
    }
}

/// The index one step backward from `selected`, wrapping past slot 0 to the
/// last occupied slot. A selection outside `0..=last_valid` lands on
/// `last_valid`.
pub open spec fn cycle_backward_spec(selected: i32, last_valid: i32) -> int {
    if selected <= 0 || selected > last_valid {
        last_valid as int
    } else {
        selected - 1
    }
}

/// Advance the selected index by one, wrapping to 0 past `last_valid`.
pub fn cycle_forward_index(selected: i32, last_valid: i32) -> (r: i32)
    requires
        0 <= last_valid,
    ensures
        r == cycle_forward_spec(selected, last_valid),
        0 <= r <= last_valid,
{
    if selected >= last_valid || selected < 0 {
        0
    } else {
        selected + 1
    }
}

/// Step the selected index back by one, wrapping to `last_valid` below 0.
pub fn cycle_backward_index(selected: i32, last_valid: i32) -> (r: i32)
    requires
        0 <= last_valid,
    ensures
        r == cycle_backward_spec(selected, last_valid),
        0 <= r <= last_valid,
{
    if selected <= 0 || selected > last_valid {
        last_valid
    } else {
        selected - 1
    }
}

/// Cycling wraps at both ends: one step forward from the last occupied
/// slot lands on slot 0, and one step backward from slot 0 lands on the
/// last occupied slot.
pub proof fn lemma_cycle_wraps(last_valid: i32)
    requires
        0 <= last_valid,
    ensures
        cycle_forward_spec(last_valid, last_valid) == 0,
        cycle_backward_spec(0, last_valid) == last_valid,
{
}

/// The index of the last occupied slot.
pub open spec fn last_valid_spec(entries: Seq<i32>) -> int {
    valid_slot_count(entries) - 1
}

/// The index a request for 0-based slot `slot_index` selects: the request
/// itself, clamped to the last occupied slot.
pub open spec fn set_slot_spec(entries: Seq<i32>, slot_index: u8) -> int {
    if slot_index > last_valid_spec(entries) {
        last_valid_spec(entries)
    } else {
        slot_index as int
    }
}

/// Requesting slot 0 always selects slot 0 when any slot is occupied, and
/// a request beyond the last occupied slot clamps to that slot.
pub proof fn lemma_slot_clamping(entries: Seq<i32>, slot_index: u8)
    requires
        valid_slot_count(entries) > 0,
    ensures
        set_slot_spec(entries, 0) == 0,
        slot_index > last_valid_spec(entries) ==> set_slot_spec(entries, slot_index)
            == last_valid_spec(entries),
        slot_index <= last_valid_spec(entries) ==> set_slot_spec(entries, slot_index)
            == slot_index,
        0 <= set_slot_spec(entries, slot_index) <= last_valid_spec(entries),
{
}

/// Count the occupied slots.
pub fn count_valid_slots(entries: &Vec<i32>) -> (n: usize)
    ensures
        n == valid_slot_count(entries@),
{
    let mut n: usize = 0;
    let mut i: usize = 0;
    proof {
        assert(entries@.subrange(0, 0) =~= Seq::<i32>::empty());
        assert(valid_slot_count(entries@.subrange(0, 0)) == 0) by {
            reveal_with_fuel(Seq::<_>::filter, 2);
        }
    }
    while i < entries.len()
        invariant
            i <= entries@.len(),
            n == valid_slot_count(entries@.subrange(0, i as int)),
            n <= i,
        decreases entries@.len() - i,
    {
        let ghost pre = entries@.subrange(0, i as int);
        let ghost pre1 = entries@.subrange(0, i as int + 1);
        proof {
            assert(pre1.drop_last() =~= pre);
            assert(pre1.last() == entries@[i as int]);
            reveal_with_fuel(Seq::<_>::filter, 2);
            assert(pre1.filter(|e: i32| e > EMPTY_SLOT_SENTINEL) == (if entries@[i as int]
                > EMPTY_SLOT_SENTINEL {
                pre.filter(|e: i32| e > EMPTY_SLOT_SENTINEL).push(entries@[i as int])
            } else {
                pre.filter(|e: i32| e > EMPTY_SLOT_SENTINEL)
            }));
        }
        if entries[i] > EMPTY_SLOT_SENTINEL {
            n += 1;
        }
        i += 1;
    }
    proof {
        assert(entries@.subrange(0, entries@.len() as int) =~= entries@);
    }
    n
}

/// The 0-based index written for a request to select `slot_index`: clamped
/// to the last occupied slot.
pub fn set_memory_slot(entries: &Vec<i32>, slot_index: u8) -> (r: i32)
    requires
        valid_slot_count(entries@) > 0,
        entries@.len() <= 0x7fffffff,
    ensures
        r == set_slot_spec(entries@, slot_index),
        0 <= r <= last_valid_spec(entries@),
{
    let count = count_valid_slots(entries);
    proof {
        entries@.lemma_filter_len(|e: i32| e > EMPTY_SLOT_SENTINEL);
    }
    let last_slot = count - 1;
    if slot_index as usize > last_slot {
        last_slot as i32
    } else {
        slot_index as i32
    }
}

/// The index written for a backward cycle from `selected`.
pub fn back_cycle_memory_slot(entries: &Vec<i32>, selected: i32) -> (r: i32)
    requires
        valid_slot_count(entries@) > 0,
        entries@.len() <= 0x7fffffff,
    ensures
        r == cycle_backward_spec(selected, last_valid_spec(entries@) as i32),
        0 <= r <= last_valid_spec(entries@),
{
    let count = count_valid_slots(entries);
    proof {
        entries@.lemma_filter_len(|e: i32| e > EMPTY_SLOT_SENTINEL);
    }
    let last_slot = (count - 1) as i32;
    cycle_backward_index(selected, last_slot)
}

/// The index written for a forward cycle from `selected`.
pub fn forward_cycle_memory_slot(entries: &Vec<i32>, selected: i32) -> (r: i32)
    requires
        valid_slot_count(entries@) > 0,
        entries@.len() <= 0x7fffffff,
    ensures
        r == cycle_forward_spec(selected, last_valid_spec(entries@) as i32),
        0 <= r <= last_valid_spec(entries@),
{
    let count = count_valid_slots(entries);
    proof {
        entries@.lemma_filter_len(|e: i32| e > EMPTY_SLOT_SENTINEL);
    }
    let last_slot = (count - 1) as i32;
    cycle_forward_index(selected, last_slot)
}

} // verus!
