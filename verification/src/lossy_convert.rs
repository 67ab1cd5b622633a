use vstd::prelude::*;

verus! {

/// A conversion that is allowed to lose information. What a particular
/// conversion yields is pinned by its `from_lossy_spec`.
pub trait FromLossy<T>: Sized {
    spec fn from_lossy_spec(value: T) -> Self;

    fn from_lossy(value: T) -> (r: Self)
        ensures
            r == Self::from_lossy_spec(value),
    ;
}

/// Companion of `FromLossy`, by analogy with `From` and `Into`.
pub trait IntoLossy<T>: Sized {
    spec fn into_lossy_spec(self) -> T;

    fn into_lossy(self) -> (r: T)
        ensures
            r == self.into_lossy_spec(),
    ;
}

impl<T> FromLossy<T> for T {
    open spec fn from_lossy_spec(value: T) -> T {
        value
    }

    fn from_lossy(value: T) -> (r: T) {
        value
    }
}

impl<T, U: FromLossy<T>> IntoLossy<U> for T {
    open spec fn into_lossy_spec(self) -> U {
        U::from_lossy_spec(self)
    }

    fn into_lossy(self) -> (r: U) {
        U::from_lossy(self)
    }
}

} // verus!
