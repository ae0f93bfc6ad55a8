//! Values held in common.

use std::sync::Arc;
use vstd::prelude::*;

verus! {

/// One more handle on a value, by `Arc`'s `clone`: it points to the same
/// value as the handle it was made from.
#[verifier::external_body]
pub(crate) fn shared<T>(value: &Arc<T>) -> (r: Arc<T>)
    ensures
        *r == **value,
{
    Arc::clone(value)
}

} // verus!
