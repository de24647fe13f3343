use crate::error::DomainError;
use crate::state::duplicate_key;
use vstd::prelude::*;
use vstd::string::*;

pub mod fields;
pub mod keys;
pub mod objects;
pub mod rules;

verus! {

/// Calls `uuid::Uuid::new_v4` and renders the identifier as text. Trusted,
/// with nothing claimed of the text: the identifier is random, and two
/// calls need not differ.
#[verifier::external_body]
pub(crate) fn new_id() -> String {
    uuid::Uuid::new_v4().to_string()
}

/// The error of a row whose primary key is taken.
pub(crate) fn duplicate_key_error() -> (error: DomainError)
    ensures
        error@ == duplicate_key(),
{
    DomainError::Unexpected(String::from_str("duplicate key value violates unique constraint"))
}

} // verus!
