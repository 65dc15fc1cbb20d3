//! Identifiers of documents, projects and owners.

use uuid::Uuid;
use vstd::prelude::*;

verus! {

/// `uuid::Uuid`, carried as it is.
#[verifier::external_type_specification]
#[verifier::external_body]
pub struct ExUuid(uuid::Uuid);

/// The 128 bits of an identifier, read as one number, as `Uuid::as_u128`
/// gives them.
pub uninterp spec fn uuid_value(id: uuid::Uuid) -> u128;

/// `Uuid::nil`: the identifier whose bits are all zero.
#[verifier::external_body]
fn nil_uuid() -> (id: Uuid)
    ensures
        uuid_value(id) == 0,
{
    Uuid::nil()
}

/// `Uuid::new_v4`: an identifier drawn at random. Nothing is known of it.
#[verifier::external_body]
pub(crate) fn random_uuid() -> Uuid {
    Uuid::new_v4()
}

/// `Clone` of an identifier: the same identifier.
pub assume_specification[ <uuid::Uuid as Clone>::clone ](id: &uuid::Uuid) -> (copy: uuid::Uuid)
    ensures
        copy == *id,
;

/// The identifier that stands for "none": all of its bits are zero.
pub fn empty_uuid() -> (id: Uuid)
    ensures
        uuid_value(id) == 0,
{
    nil_uuid()
}

} // verus!
