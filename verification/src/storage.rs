use std::sync::Arc;
use vstd::prelude::*;

verus! {

/// `Arc::clone`: a second handle to the same allocation. Nothing is copied,
/// so the new handle shows the very buffer that `storage` shows.
#[verifier::external_body]
pub(crate) fn share_storage<T>(storage: &Arc<Vec<T>>) -> (r: Arc<Vec<T>>)
    ensures
        r == *storage,
{
    Arc::clone(storage)
}

/// `Arc::get_mut`, handed out as a slice: the buffer's elements for writing
/// when this is the only handle to the allocation, `None` when another
/// handle exists. Whether another exists is not something the contract can
/// tell, so it promises neither outcome. With `Some`, the slice holds the
/// buffer as it was, what is written through it is what the buffer holds
/// afterwards, and, being a slice, it cannot change its length. With `None`
/// the buffer is as it was. The call never panics.
#[verifier::external_body]
pub(crate) fn exclusive_storage<T>(storage: &mut Arc<Vec<T>>) -> (r: Option<&mut [T]>)
    ensures
        match r {
            Some(all) => {
                &&& all@ == old(storage)@
                &&& final(storage)@ == final(all)@
                &&& final(all)@.len() == all@.len()
            },
            None => *final(storage) == *old(storage),
        },
    no_unwind
{
    match Arc::get_mut(storage) {
        Some(buffer) => Some(buffer.as_mut_slice()),
        None => None,
    }
}

} // verus!
