use anyhow::Error as AnyError;
use std::sync::Arc;
use vstd::prelude::*;

verus! {

/// Why a service could not be handed out.
#[derive(Debug)]
pub enum Error {
    /// The container was dropped.
    ContainerGone,
    /// The resolve worker stopped before it answered.
    WorkerGone,
    /// No provider was registered for the requested type; holds its name.
    UnregisteredServiceType(&'static str),
    /// The provider of the service failed with this error.
    Service(Arc<AnyError>),
}

/// `Arc::clone` on a provider failure: the new handle points at the same error.
#[verifier::external_body]
fn clone_failure(failure: &Arc<AnyError>) -> (r: Arc<AnyError>)
    ensures
        r == *failure,
{
    Arc::clone(failure)
}

impl Clone for Error {
    fn clone(&self) -> (r: Self)
        ensures
            r == *self,
    {
        match self {
            Error::ContainerGone => Error::ContainerGone,
            Error::WorkerGone => Error::WorkerGone,
            Error::UnregisteredServiceType(name) => Error::UnregisteredServiceType(name),
            Error::Service(failure) => Error::Service(clone_failure(failure)),
        }
    }
}

} // verus!
