//! What the grids' laws ask of an element type.
use vstd::prelude::*;

verus! {

/// `v` is a value that `T::default()` may return.
pub open spec fn is_default<T: Default>(v: T) -> bool {
    call_ensures(T::default, (), v)
}

/// `T::default()` always returns the same value.
pub open spec fn default_is_unique<T: Default>() -> bool {
    forall|a: T, b: T| #[trigger] is_default(a) && #[trigger] is_default(b) ==> a == b
}

/// Cloning a `T` gives a value equal to the one cloned.
pub open spec fn clone_is_copy<T: Clone>() -> bool {
    forall|a: T, b: T| #[trigger] cloned(a, b) ==> a == b
}

} // verus!
