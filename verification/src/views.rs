//! Views of options, results and sequences by the views of what they hold.

use vstd::prelude::*;

verus! {

pub open spec fn view_option<T: View>(option: Option<T>) -> Option<T::V> {
    match option {
        Some(value) => Some(value@),
        None => None,
    }
}

pub open spec fn view_result<T: View, E: View>(result: Result<T, E>) -> Result<T::V, E::V> {
    match result {
        Ok(value) => Ok(value@),
        Err(error) => Err(error@),
    }
}

pub open spec fn view_all<T: View>(items: Seq<T>) -> Seq<T::V> {
    items.map_values(|item: T| item@)
}

/// The view of an option is the view of what it holds.
pub proof fn lemma_view_option<T: View>(option: Option<T>)
    ensures
        option matches Some(value) ==> view_option(option) == Some(value@),
        option is None ==> view_option(option) is None,
{
}

/// The view of a result is the view of what it holds.
pub proof fn lemma_view_result<T: View, E: View>(result: Result<T, E>)
    ensures
        result matches Ok(value) ==> view_result(result) == Ok::<T::V, E::V>(value@),
        result matches Err(error) ==> view_result(result) == Err::<T::V, E::V>(error@),
{
}

/// The view of a sequence holds the view of each of its items, at the same index.
pub proof fn lemma_view_all<T: View>(items: Seq<T>)
    ensures
        view_all(items).len() == items.len(),
        forall|i: int| 0 <= i < items.len() ==> #[trigger] view_all(items)[i] == items[i]@,
{
}

} // verus!
