//! Helpers that lift views through sequences, options and results.

use vstd::prelude::*;

verus! {

/// The views of the members of a sequence, in order.
pub open spec fn views<T: View>(items: Seq<T>) -> Seq<T::V> {
    Seq::new(items.len(), |i: int| items[i]@)
}

/// The view of what an `Option` holds.
pub open spec fn option_view<T: View>(item: Option<T>) -> Option<T::V> {
    match item {
        Some(t) => Some(t@),
        None => None,
    }
}

/// The view of what a `Result` holds, on either side.
pub open spec fn result_view<T: View, E: View>(item: Result<T, E>) -> Result<T::V, E::V> {
    match item {
        Ok(t) => Ok(t@),
        Err(e) => Err(e@),
    }
}

/// Pushing onto a sequence pushes the view onto its views.
pub proof fn lemma_views_push<T: View>(items: Seq<T>, item: T)
    ensures
        views(items.push(item)) == views(items).push(item@),
{
    assert(views(items.push(item)) =~= views(items).push(item@));
}

/// The views of a part of a sequence are that part of its views.
pub proof fn lemma_views_subrange<T: View>(items: Seq<T>, from: int, to: int)
    requires
        0 <= from <= to <= items.len(),
    ensures
        views(items.subrange(from, to)) == views(items).subrange(from, to),
{
    assert(views(items.subrange(from, to)) =~= views(items).subrange(from, to));
}

} // verus!
