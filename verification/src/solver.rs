//! Coordinates of piece subsets, the tables built over them, and the search.

use vstd::prelude::*;

pub mod iddfs;
pub mod index;
pub mod pruning;
pub mod pruning_laws;
pub mod round_trip;
pub mod search_laws;
pub mod table_laws;
pub mod tracking;
pub mod transition;

verus! {

/// `Vec::into_boxed_slice` of std, which vstd does not specify: the boxed
/// slice holds the elements of the vector, in their order. Believed, not
/// proved.
#[verifier::external_body]
pub(crate) fn into_boxed<T>(v: Vec<T>) -> (b: Box<[T]>)
    ensures
        b@ == v@,
{
    v.into_boxed_slice()
}

} // verus!
