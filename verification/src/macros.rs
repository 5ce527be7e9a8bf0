//! Early-return helpers over `Result` and `Option`.

use vstd::prelude::*;

verus! {

/// A `Result` or an `Option`, so that both can be unwrapped the same way.
pub enum ROO<T, E> {
    R(Result<T, E>),
    O(Option<T>),
}

/// Wraps a `Result` or an `Option` into a `ROO`.
pub trait UOR<T, E> {
    fn wrap(self) -> ROO<T, E>;
}

impl<T, E> UOR<T, E> for Result<T, E> {
    fn wrap(self) -> (wrapped: ROO<T, E>)
        ensures
            wrapped == ROO::<T, E>::R(self),
    {
        ROO::R(self)
    }
}

impl<T> UOR<T, ()> for Option<T> {
    fn wrap(self) -> (wrapped: ROO<T, ()>)
        ensures
            wrapped == ROO::<T, ()>::O(self),
    {
        ROO::O(self)
    }
}

} // verus!
