//! The circular history of admitted samples.

use vstd::prelude::*;
use crate::lane::Lane;

verus! {

/// Number of slots of a history. A power of two, so that a position is
/// reduced to its slot by masking.
pub const HISTORY_CAPACITY: usize = 1024;

/// The slot in which the sample of position `t` is kept.
pub open spec fn slot_of(t: int) -> int {
    t % 1024
}

/// A sweep that looks `span` positions back can keep all of them apart in a
/// history: no two positions that are at most `span` apart share a slot.
pub open spec fn window_fits(span: int) -> bool {
    0 <= span < 1024
}

/// Positions closer than the capacity lie in different slots.
pub proof fn lemma_slots_apart(a: int, b: int)
    requires
        a != b,
        -1024 < a - b < 1024,
    ensures
        slot_of(a) != slot_of(b),
{
}

/// A ring of `HISTORY_CAPACITY` accumulator values, addressed by position
/// modulo the capacity. Position `t` and position `t + 1024` are the same
/// slot: storing at one replaces what was held at the other.
pub struct CircularHistory<A: Lane> {
    slots: [A; HISTORY_CAPACITY],
}

impl<A: Lane> CircularHistory<A> {
    /// The value held in the slot of position `t`.
    pub closed spec fn held(&self, t: int) -> int {
        self.slots@[slot_of(t)].val()
    }

    /// A history that holds zero at every position.
    pub fn new() -> (h: Self)
        ensures
            forall|t: int| #[trigger] h.held(t) == 0,
    {
        CircularHistory { slots: [A::from_i32(0); HISTORY_CAPACITY] }
    }

    fn slot(t: i64) -> (s: usize)
        requires
            -1024 <= t < 0x4000_0000_0000_0000,
        ensures
            s == slot_of(t as int),
            s < 1024,
    {
        let shifted: u64 = (t + 1024) as u64;
        assert(shifted & 1023 == shifted % 1024) by (bit_vector);
        (shifted & 1023) as usize
    }

    /// Puts `v` into the slot of position `t`. Every position of that slot now
    /// holds `v`; every other position holds what it held.
    pub fn store(&mut self, t: i64, v: A)
        requires
            -1024 <= t < 0x4000_0000_0000_0000,
        ensures
            forall|u: int|
                #[trigger] final(self).held(u) == (if slot_of(u) == slot_of(t as int) {
                    v.val()
                } else {
                    old(self).held(u)
                }),
    {
        let s = Self::slot(t);
        self.slots[s] = v;
    }

    /// The value held in the slot of position `t`.
    pub fn load(&self, t: i64) -> (v: A)
        requires
            -1024 <= t < 0x4000_0000_0000_0000,
        ensures
            v.val() == self.held(t as int),
    {
        let s = Self::slot(t);
        self.slots[s]
    }
}

} // verus!
