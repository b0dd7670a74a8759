use vstd::prelude::*;

verus! {

/// Integer handle into an arena. The maximum representable value is reserved
/// as a sentinel meaning "no element".
pub type Index = u32;

/// Reserved index value meaning "no reference".
pub const SENTINEL: Index = u32::MAX;

/// Turns a raw index into an option, mapping the sentinel to `None`.
pub fn index_to_option(i: Index) -> (r: Option<Index>)
    ensures
        r == (if i == SENTINEL {
            None::<Index>
        } else {
            Some(i)
        }),
{
    if i == SENTINEL {
        return None;
    }
    return Some(i);
}

/// An integer type that can serve as an arena handle: convertible from and to
/// `usize`, with its maximum value reserved as the "absent" sentinel.
pub trait IndexType: Copy + Default + Sized {
    /// The numeric value of this handle.
    spec fn spec_value(&self) -> int;

    /// The reserved sentinel value, the largest value the type can hold.
    spec fn spec_sentinel() -> int;

    fn new(x: usize) -> (r: Self)
        requires
            x <= Self::spec_sentinel(),
        ensures
            r.spec_value() == x,
    ;

    fn index(&self) -> (r: usize)
        requires
            0 <= self.spec_value() <= usize::MAX,
        ensures
            r == self.spec_value(),
    ;

    fn max() -> (r: Self)
        ensures
            r.spec_value() == Self::spec_sentinel(),
    ;

    fn is_valid(&self) -> (r: bool)
        ensures
            r == (self.spec_value() != Self::spec_sentinel()),
    ;

    /// Maps a handle to `Some(handle)` when it holds a real index, and to
    /// `None` when it holds the sentinel.
    fn to_option(&self) -> (r: Option<Self>)
        ensures
            r == (if self.spec_value() != Self::spec_sentinel() {
                Some(*self)
            } else {
                None::<Self>
            }),
    {
        if self.is_valid() {
            Some(*self)
        } else {
            None
        }
    }
}

impl IndexType for u32 {
    open spec fn spec_value(&self) -> int {
        *self as int
    }

    open spec fn spec_sentinel() -> int {
        u32::MAX as int
    }

    fn new(x: usize) -> (r: Self) {
        x as u32
    }

    fn index(&self) -> (r: usize) {
        *self as usize
    }

    fn max() -> (r: Self) {
        u32::MAX
    }

    fn is_valid(&self) -> (r: bool) {
        *self != u32::MAX
    }
}

} // verus!
