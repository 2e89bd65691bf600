//! Views of values that hold other values: what a result, an option or a
//! sequence holds, told by what its parts hold.

use vstd::prelude::*;

verus! {

/// The views of the items of `s`, in order.
pub open spec fn views<T: View>(s: Seq<T>) -> Seq<T::V> {
    Seq::new(s.len(), |i: int| s[i]@)
}

/// The view of what `o` holds, if it holds anything.
pub open spec fn opt_view<T: View>(o: Option<T>) -> Option<T::V> {
    match o {
        Some(x) => Some(x@),
        None => None,
    }
}

/// Whether a computed result stands for the result that a model gives: the
/// same error, or a value whose view is the model's value.
pub open spec fn agrees<T: View, E>(r: Result<T, E>, model: Result<T::V, E>) -> bool {
    match (r, model) {
        (Ok(x), Ok(m)) => x@ == m,
        (Err(e), Err(f)) => e == f,
        _ => false,
    }
}

/// The views of a sequence with one more item are the views of the sequence
/// and then the view of the item.
pub proof fn lemma_views_push<T: View>(s: Seq<T>, x: T)
    ensures
        views(s.push(x)) == views(s).push(x@),
{
    assert(views(s.push(x)) =~= views(s).push(x@));
}

/// An empty sequence has no views.
pub proof fn lemma_views_empty<T: View>()
    ensures
        views(Seq::<T>::empty()) == Seq::<T::V>::empty(),
{
    assert(views(Seq::<T>::empty()) =~= Seq::<T::V>::empty());
}

} // verus!
