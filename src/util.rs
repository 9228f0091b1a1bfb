//! Small conversions between `Option`, `bool` and `Result` used across the
//! host.
use vstd::prelude::*;
use crate::error::ServiceError;

verus! {

/// Turns an absent or failed value into a chosen service error.
pub trait ErrorMapper<T>: Sized {
    /// The result `error` makes of this value.
    spec fn mapped(self, error: ServiceError) -> Result<T, ServiceError>;

    /// The value, or `error` when there is none.
    fn error(self, error: ServiceError) -> (r: Result<T, ServiceError>)
        ensures
            r == self.mapped(error),
    ;
}

impl<T> ErrorMapper<T> for Option<T> {
    open spec fn mapped(self, error: ServiceError) -> Result<T, ServiceError> {
        match self {
            Some(v) => Ok(v),
            None => Err(error),
        }
    }

    fn error(self, error: ServiceError) -> (r: Result<T, ServiceError>) {
        match self {
            Some(v) => Ok(v),
            None => Err(error),
        }
    }
}

impl<T, E> ErrorMapper<T> for Result<T, E> {
    open spec fn mapped(self, error: ServiceError) -> Result<T, ServiceError> {
        match self {
            Ok(v) => Ok(v),
            Err(_) => Err(error),
        }
    }

    fn error(self, error: ServiceError) -> (r: Result<T, ServiceError>) {
        match self {
            Ok(v) => Ok(v),
            Err(_) => Err(error),
        }
    }
}

/// Turns `false` into an error.
pub trait TrueOrErr: Sized {
    /// Whether the value counts as success.
    spec fn holds(self) -> bool;

    /// `Ok(())` when the value holds, else `Err(error)`.
    fn or_error<E>(self, error: E) -> (r: Result<(), E>)
        ensures
            self.holds() ==> r is Ok,
            !self.holds() ==> r == Err::<(), E>(error),
    ;
}

impl TrueOrErr for bool {
    open spec fn holds(self) -> bool {
        self
    }

    fn or_error<E>(self, error: E) -> (r: Result<(), E>) {
        if self {
            Ok(())
        } else {
            Err(error)
        }
    }
}

/// Flattens a nested result whose two layers share an error type.
pub trait ResultFlatten<T, E>: Sized {
    /// The flattened result.
    spec fn flat(self) -> Result<T, E>;

    /// The inner result of an `Ok`, or the outer error.
    fn flatten_(self) -> (r: Result<T, E>)
        ensures
            r == self.flat(),
    ;
}

impl<T, E> ResultFlatten<T, E> for Result<Result<T, E>, E> {
    open spec fn flat(self) -> Result<T, E> {
        match self {
            Ok(Ok(v)) => Ok(v),
            Ok(Err(e)) => Err(e),
            Err(e) => Err(e),
        }
    }

    fn flatten_(self) -> (r: Result<T, E>) {
        match self {
            Ok(Ok(v)) => Ok(v),
            Ok(Err(e)) => Err(e),
            Err(e) => Err(e),
        }
    }
}

} // verus!
