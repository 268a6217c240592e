//! The sort operators.

use vstd::prelude::*;

use crate::order::spec_sort;
use crate::value::{val_wf, vviews, Val, Value};

verus! {

/// `o`: sort an array descending under the total value order.
pub struct SortDescending;

impl SortDescending {
    /// Sort the array descending; anything else passes through.
    pub fn apply(&self, value: Value) -> (r: Value)
        requires
            val_wf(value@),
        ensures
            match value {
                Value::Array(arr) => r@ == (Val::Arr {
                    level: arr.level,
                    elems: spec_sort(true, vviews(arr.elements@)),
                }),
                _ => r@ == value@,
            },
            val_wf(r@),
    {
        match value {
            Value::Array(mut arr) => {
                let ghost pre = arr@;
                arr.sort(true);
                proof {
                    crate::order::lemma_spec_sort_ensures(true, pre->Arr_elems);
                    lemma_sorted_wf(arr@, pre);
                }
                Value::Array(arr)
            },
            other => other,
        }
    }
}

/// `O`: sort an array ascending under the total value order.
pub struct SortAscending;

impl SortAscending {
    /// Sort the array ascending; anything else passes through.
    pub fn apply(&self, value: Value) -> (r: Value)
        requires
            val_wf(value@),
        ensures
            match value {
                Value::Array(arr) => r@ == (Val::Arr {
                    level: arr.level,
                    elems: spec_sort(false, vviews(arr.elements@)),
                }),
                _ => r@ == value@,
            },
            val_wf(r@),
    {
        match value {
            Value::Array(mut arr) => {
                let ghost pre = arr@;
                arr.sort(false);
                proof {
                    crate::order::lemma_spec_sort_ensures(false, pre->Arr_elems);
                    lemma_sorted_wf(arr@, pre);
                }
                Value::Array(arr)
            },
            other => other,
        }
    }
}

/// A permutation of a well-formed array is well-formed.
proof fn lemma_sorted_wf(sorted: Val, orig: Val)
    requires
        val_wf(orig),
        orig is Arr,
        sorted is Arr,
        sorted->Arr_elems.to_multiset() == orig->Arr_elems.to_multiset(),
    ensures
        val_wf(sorted),
{
    broadcast use vstd::seq_lib::group_to_multiset_ensures;

    crate::value::lemma_arr_wf_elems(orig);
    assert forall|i: int| 0 <= i < sorted->Arr_elems.len() implies val_wf(
        #[trigger] sorted->Arr_elems[i],
    ) by {
        let e = sorted->Arr_elems[i];
        assert(sorted->Arr_elems.contains(e));
        assert(sorted->Arr_elems.to_multiset().count(e) > 0);
        assert(orig->Arr_elems.contains(e));
        let j = choose|j: int| 0 <= j < orig->Arr_elems.len() && orig->Arr_elems[j] == e;
        assert(val_wf(orig->Arr_elems[j]));
    }
}

} // verus!
