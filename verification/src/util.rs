//! Type identity.
use std::any::TypeId;
use vstd::prelude::*;

verus! {

pub open spec fn same_value<T>(a: T, b: T) -> bool {
    a == b
}

/// Every two values of `T` are equal: `T` has at most one value, as `()` has.
pub open spec fn has_single_value<T>() -> bool {
    forall|a: T, b: T| #[trigger] same_value(a, b)
}

/// Calls `TypeId::of::<T>()` and `TypeId::of::<()>()` and compares the two
/// with `==`. A `TypeId` is a globally unique identifier of a type, so equal
/// identifiers mean that `T` is `()`, whose values are all equal; that is what
/// the clause states. That a type other than `()` gives `false` is not stated.
#[verifier::external_body]
fn type_id_is_unit<T: 'static>() -> (r: bool)
    ensures
        r ==> has_single_value::<T>(),
{
    TypeId::of::<T>() == TypeId::of::<()>()
}

/// Is `T` the unit type `()`? When it answers `true`, every two values of `T`
/// are equal.
pub fn is_unit<T: 'static>() -> (r: bool)
    ensures
        r ==> has_single_value::<T>(),
{
    type_id_is_unit::<T>()
}

} // verus!
