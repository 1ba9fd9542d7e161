use crate::error::Error;
use anyhow::Error as AnyError;
use std::sync::Arc;
use vstd::prelude::*;

verus! {

/// What a container can hand out: a value that can be cloned and shared across threads.
pub trait Resolvable: Clone + Send + Sync + 'static {}

impl<T> Resolvable for T where T: Clone + Send + Sync + 'static {}

/// A provider that hands out clones of one fixed value.
pub struct StaticProvider<T>(T);

impl<T> StaticProvider<T> {
    /// The value that this provider hands out.
    pub closed spec fn value(&self) -> T {
        self.0
    }

    /// A provider of `value`.
    pub fn new(value: T) -> (r: Self)
        ensures
            r.value() == value,
    {
        StaticProvider(value)
    }
}

impl<T: Clone> StaticProvider<T> {
    /// What one provision yields: a clone of the fixed value.
    pub fn provide(&self) -> (r: T)
        ensures
            cloned(self.value(), r),
    {
        self.0.clone()
    }
}

/// The error that a failed provision is reported with.  `downcast` is the
/// provider's error tried as an [`Error`] of this crate: such an error is
/// passed on as it is (a provider that failed because one of its own
/// dependencies could not be resolved reports that failure), any other error
/// becomes `Service`.
pub fn provider_failure(downcast: Result<Error, AnyError>) -> (r: Error)
    ensures
        match downcast {
            Ok(own) => r == own,
            Err(other) => r is Service && *r->Service_0 == other,
        },
{
    match downcast {
        Ok(own) => own,
        Err(other) => Error::Service(Arc::new(other)),
    }
}

} // verus!
