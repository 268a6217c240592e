//! Whitespace-trimming operators.

use vstd::prelude::*;

use crate::ast::Selection;
use crate::operators::select::{
    apply_to_selected, map_leaves, spec_apply_selected, spec_map_leaves, LeafOp,
};
use crate::value::{val_wf, vviews, Val, Value};

verus! {

/// `t`: trim whitespace off every text leaf.
pub struct Trim;

impl Trim {
    /// Trim leading and trailing whitespace off every text leaf.
    pub fn apply(&self, value: Value) -> (r: Value)
        requires
            val_wf(value@),
        ensures
            r@ == spec_map_leaves(LeafOp::Trim, value@),
            val_wf(r@),
    {
        map_leaves(&LeafOp::Trim, &value)
    }
}

/// `T<selection>`: trim only the selected elements.
pub struct TrimSelected {
    pub selection: Selection,
}

impl TrimSelected {
    pub fn new(selection: Selection) -> (r: TrimSelected)
        ensures
            r.selection == selection,
    {
        TrimSelected { selection }
    }

    /// Trim the selected elements of an array; anything else passes through
    /// unchanged.
    pub fn apply(&self, value: Value) -> (r: Value)
        requires
            val_wf(value@),
        ensures
            match value {
                Value::Array(arr) => r@ == spec_apply_selected(
                    LeafOp::Trim,
                    arr.level,
                    vviews(arr.elements@),
                    self.selection.items@,
                ),
                _ => r@ == value@,
            },
            val_wf(r@),
    {
        match value {
            Value::Array(arr) => apply_to_selected(arr, &self.selection, &LeafOp::Trim),
            other => other,
        }
    }
}

} // verus!
