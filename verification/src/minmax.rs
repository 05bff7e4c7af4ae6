//! Lowering and raising a value in place.

use core::cmp::Ordering;
use vstd::prelude::*;
use vstd::std_specs::cmp::PartialOrdSpec;

verus! {

/// `a` comes after `b` in the order of their type.
pub open spec fn exceeds<T: PartialOrd>(a: &T, b: &T) -> bool {
    a.partial_cmp_spec(b) == Some(Ordering::Greater)
}

/// `a` comes before `b` in the order of their type.
pub open spec fn precedes<T: PartialOrd>(a: &T, b: &T) -> bool {
    a.partial_cmp_spec(b) == Some(Ordering::Less)
}

/// Updating a value by a candidate that improves on it.
pub trait SetMinMax: Sized {
    /// Whether comparisons of this type are known to follow its order.
    spec fn ordered() -> bool;

    /// Whether the value is replaced when `setmin` is called with `v`.
    spec fn lowers(&self, v: &Self) -> bool;

    /// Whether the value is replaced when `setmax` is called with `v`.
    spec fn raises(&self, v: &Self) -> bool;

    /// Replaces the value by `v` if `v` is smaller, and says whether it did.
    fn setmin(&mut self, v: Self) -> (changed: bool)
        ensures
            Self::ordered() ==> changed == old(self).lowers(&v),
            *final(self) == if changed {
                v
            } else {
                *old(self)
            },
    ;

    /// Replaces the value by `v` if `v` is larger, and says whether it did.
    fn setmax(&mut self, v: Self) -> (changed: bool)
        ensures
            Self::ordered() ==> changed == old(self).raises(&v),
            *final(self) == if changed {
                v
            } else {
                *old(self)
            },
    ;
}

impl<T: PartialOrd> SetMinMax for T {
    open spec fn ordered() -> bool {
        T::obeys_partial_cmp_spec()
    }

    open spec fn lowers(&self, v: &Self) -> bool {
        exceeds(self, v)
    }

    open spec fn raises(&self, v: &Self) -> bool {
        precedes(self, v)
    }

    fn setmin(&mut self, v: T) -> (changed: bool) {
        if *self > v {
            *self = v;
            true
        } else {
            false
        }
    }

    fn setmax(&mut self, v: T) -> (changed: bool) {
        if *self < v {
            *self = v;
            true
        } else {
            false
        }
    }
}

} // verus!
