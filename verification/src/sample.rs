//! Pixel element types: what one channel of one pixel is stored as.

use vstd::prelude::*;

verus! {

/// An unsigned pixel element. Its `level` is the intensity it stands for, a
/// whole number between zero and `max_level`.
pub trait Sample: Copy + Sized {
    /// The intensity that the element stands for.
    spec fn level(self) -> int;

    /// The highest intensity that an element of this type can stand for.
    spec fn max_level() -> int;

    /// The highest level is above zero and fits in 16 bits.
    proof fn lemma_max_level()
        ensures
            0 < Self::max_level() <= 0xffff,
    ;

    /// Every level lies between zero and the highest.
    proof fn lemma_level_range(self)
        ensures
            0 <= self.level() <= Self::max_level(),
    ;

    /// Two elements of the same level are the same element.
    proof fn lemma_level_injective(self, other: Self)
        requires
            self.level() == other.level(),
        ensures
            self == other,
    ;

    /// The highest level.
    fn ceiling() -> (m: u16)
        ensures
            m == Self::max_level(),
    ;

    /// The level as a machine integer.
    fn widen(self) -> (r: u16)
        ensures
            r == self.level(),
    ;

    /// The element of level `v`, or of level zero when the type has no such
    /// level.
    fn narrow(v: u32) -> (r: Self)
        ensures
            r.level() == (if v <= Self::max_level() {
                v as int
            } else {
                0
            }),
    ;
}

/// `num_traits::FromPrimitive::from_u32` for `u8`: the value itself when it is
/// at most 255, otherwise nothing.
#[verifier::external_body]
fn u8_from_u32(v: u32) -> (r: Option<u8>)
    ensures
        r == (if v <= 255 {
            Some(v as u8)
        } else {
            None::<u8>
        }),
{
    <u8 as num_traits::FromPrimitive>::from_u32(v)
}

/// `num_traits::FromPrimitive::from_u32` for `u16`: the value itself when it
/// is at most 65535, otherwise nothing.
#[verifier::external_body]
fn u16_from_u32(v: u32) -> (r: Option<u16>)
    ensures
        r == (if v <= 65535 {
            Some(v as u16)
        } else {
            None::<u16>
        }),
{
    <u16 as num_traits::FromPrimitive>::from_u32(v)
}

impl Sample for u8 {
    open spec fn level(self) -> int {
        self as int
    }

    open spec fn max_level() -> int {
        255
    }

    proof fn lemma_max_level() {
    }

    proof fn lemma_level_range(self) {
    }

    proof fn lemma_level_injective(self, other: Self) {
    }

    fn ceiling() -> (m: u16) {
        255
    }

    fn widen(self) -> (r: u16) {
        self as u16
    }

    fn narrow(v: u32) -> (r: Self) {
        match u8_from_u32(v) {
            Some(x) => x,
            None => 0,
        }
    }
}

impl Sample for u16 {
    open spec fn level(self) -> int {
        self as int
    }

    open spec fn max_level() -> int {
        65535
    }

    proof fn lemma_max_level() {
    }

    proof fn lemma_level_range(self) {
    }

    proof fn lemma_level_injective(self, other: Self) {
    }

    fn ceiling() -> (m: u16) {
        65535
    }

    fn widen(self) -> (r: u16) {
        self
    }

    fn narrow(v: u32) -> (r: Self) {
        match u16_from_u32(v) {
            Some(x) => x,
            None => 0,
        }
    }
}

/// The levels of a run of elements.
pub open spec fn levels<T: Sample>(s: Seq<T>) -> Seq<int> {
    Seq::new(s.len(), |i: int| s[i].level())
}

/// The levels of a run of elements say which elements they are.
pub proof fn lemma_levels_determine<T: Sample>(a: Seq<T>, b: Seq<T>)
    requires
        levels(a) == levels(b),
    ensures
        a == b,
{
    assert(a.len() == levels(a).len());
    assert forall|i: int| 0 <= i < a.len() implies a[i] == b[i] by {
        assert(levels(a)[i] == a[i].level());
        a[i].lemma_level_injective(b[i]);
    }
}

} // verus!
