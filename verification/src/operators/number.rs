//! Numeric-coercion operators.

use vstd::prelude::*;

use crate::ast::Selection;
use crate::operators::select::{
    apply_to_selected, map_leaves, spec_apply_selected, spec_map_leaves, LeafOp,
};
use crate::value::{val_wf, vviews, Val, Value};

verus! {

/// `n`: parse every text leaf as a number, zero where it does not parse.
pub struct ToNumber;

impl ToNumber {
    /// Turn every text leaf into the number it spells, or zero.
    pub fn apply(&self, value: Value) -> (r: Value)
        requires
            val_wf(value@),
        ensures
            r@ == spec_map_leaves(LeafOp::ToNumber, value@),
            val_wf(r@),
    {
        map_leaves(&LeafOp::ToNumber, &value)
    }
}

/// `N<selection>`: convert only the selected elements to numbers.
pub struct ToNumberSelected {
    pub selection: Selection,
}

impl ToNumberSelected {
    pub fn new(selection: Selection) -> (r: ToNumberSelected)
        ensures
            r.selection == selection,
    {
        ToNumberSelected { selection }
    }

    /// Convert the selected elements of an array to numbers; anything else
    /// passes through unchanged.
    pub fn apply(&self, value: Value) -> (r: Value)
        requires
            val_wf(value@),
        ensures
            match value {
                Value::Array(arr) => r@ == spec_apply_selected(
                    LeafOp::ToNumber,
                    arr.level,
                    vviews(arr.elements@),
                    self.selection.items@,
                ),
                _ => r@ == value@,
            },
            val_wf(r@),
    {
        match value {
            Value::Array(arr) => apply_to_selected(arr, &self.selection, &LeafOp::ToNumber),
            other => other,
        }
    }
}

} // verus!
