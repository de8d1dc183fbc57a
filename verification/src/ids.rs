//! Type identities, as used for actions, components, inputs and AI markers.
use std::any::TypeId;
use vstd::prelude::*;

verus! {

/// Makes `std::any::TypeId` known to the verifier as an opaque value.
#[verifier::external_type_specification]
#[verifier::external_body]
pub struct ExTypeId(std::any::TypeId);

/// Compares two type identities with `<TypeId as PartialEq>::eq`.
/// Trusted: `TypeId` compares its inner identity value, so two `TypeId`s are
/// `==` exactly when they are the same value.
#[verifier::external_body]
pub(crate) fn type_ids_equal(a: &TypeId, b: &TypeId) -> (r: bool)
    ensures
        r == (*a == *b),
{
    *a == *b
}

} // verus!
