use vstd::prelude::*;

verus! {

/// Relies on `Vec::capacity`: reads the allocation size, nothing else.
#[verifier::external_body]
fn vec_capacity<T>(v: &Vec<T>) -> (r: usize) {
    v.capacity()
}

/// Relies on `Vec::shrink_to_fit`: it releases spare capacity and leaves the
/// elements as they are.
#[verifier::external_body]
fn vec_shrink_to_fit<T>(v: &mut Vec<T>)
    ensures
        final(v)@ == old(v)@,
{
    v.shrink_to_fit()
}

/// Releases spare capacity once it exceeds `threshold` elements.
pub(crate) fn shrink_to_fit<T>(v: &mut Vec<T>, threshold: usize)
    ensures
        final(v)@ == old(v)@,
{
    let cap = vec_capacity(v);
    if cap > v.len() && cap - v.len() > threshold {
        vec_shrink_to_fit(v);
    }
}

} // verus!
