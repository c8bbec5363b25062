//! Declarations for the outside types that run through the ledger, and the
//! few operations on them that the ledger relies on without proof: principal
//! identity comparison and property-value cloning.

use vstd::prelude::*;

verus! {

#[verifier::external_type_specification]
#[verifier::external_body]
pub struct ExPrincipal(candid::Principal);

#[verifier::external_type_specification]
#[verifier::external_body]
pub struct ExGenericValue(dip721_rs::GenericValue);

/// Relies on candid::Principal's derived PartialEq: two principals compare
/// equal exactly when they are the same principal (all fields equal).
#[verifier::external_body]
pub(crate) fn principal_eq(a: &candid::Principal, b: &candid::Principal) -> (r: bool)
    ensures
        r == (*a == *b),
{
    a == b
}

/// Relies on candid::Principal's derived Copy: a bitwise copy is the same
/// principal.
#[verifier::external_body]
pub(crate) fn principal_copy(p: &candid::Principal) -> (r: candid::Principal)
    ensures
        r == *p,
{
    *p
}

/// Relies on dip721_rs::GenericValue's derived Clone: a deep copy of the
/// same value.
#[verifier::external_body]
pub(crate) fn value_clone(v: &dip721_rs::GenericValue) -> (r: dip721_rs::GenericValue)
    ensures
        r == *v,
{
    v.clone()
}

} // verus!
