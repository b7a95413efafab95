//! Analysis dependency graph.
//!
//! Each analysis declares the analyses it depends on (consumer to
//! producers); the manager computes producers before consumers. In this
//! version every analysis is self-contained.
use vstd::prelude::*;
use std::any::TypeId;

verus! {

#[verifier::external_type_specification]
#[verifier::external_body]
pub struct ExTypeId(TypeId);

/// Whether two type identifiers are equal.
///
/// Calls `TypeId`'s `==`, which holds exactly for the identifiers of the same
/// type.
#[verifier::external_body]
pub(crate) fn type_id_eq(a: &TypeId, b: &TypeId) -> (r: bool)
    ensures
        r == (*a == *b),
{
    *a == *b
}

/// The `TypeId` of the given analysis type.
///
/// Calls `TypeId::of::<A>()`; nothing is stated of its value.
#[verifier::external_body]
pub fn type_id_of<A: 'static>() -> TypeId {
    TypeId::of::<A>()
}

/// Dependencies for each analysis (consumer to producers). No analysis
/// depends on another one: the list is always empty.
pub fn dependencies_of(analysis_id: TypeId) -> (deps: Vec<TypeId>)
    ensures
        deps@.len() == 0,
{
    let _ = analysis_id;
    Vec::new()
}

} // verus!
