use anyhow::Error as AnyError;
use vstd::prelude::*;

verus! {

/// Declares `anyhow::Error`, the error of a failed service provider: it is
/// carried through as it came, and nothing inside it is read.
#[verifier::external_type_specification]
#[verifier::external_body]
pub struct ExAnyhowError(AnyError);

} // verus!
