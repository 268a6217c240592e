//! Case conversion operators.

use vstd::prelude::*;

use crate::ast::Selection;
use crate::operators::select::{
    apply_to_selected, map_leaves, spec_apply_selected, spec_map_leaves, LeafOp,
};
use crate::value::{val_wf, vviews, Val, Value};

verus! {

/// `l`: lowercase every text leaf.
pub struct Lowercase;

impl Lowercase {
    /// Lowercase every text leaf of the value.
    pub fn apply(&self, value: Value) -> (r: Value)
        requires
            val_wf(value@),
        ensures
            r@ == spec_map_leaves(LeafOp::Lower, value@),
            val_wf(r@),
    {
        map_leaves(&LeafOp::Lower, &value)
    }
}

/// `u`: uppercase every text leaf.
pub struct Uppercase;

impl Uppercase {
    /// Uppercase every text leaf of the value.
    pub fn apply(&self, value: Value) -> (r: Value)
        requires
            val_wf(value@),
        ensures
            r@ == spec_map_leaves(LeafOp::Upper, value@),
            val_wf(r@),
    {
        map_leaves(&LeafOp::Upper, &value)
    }
}

/// `L<selection>`: lowercase only the selected elements.
pub struct LowercaseSelected {
    pub selection: Selection,
}

impl LowercaseSelected {
    pub fn new(selection: Selection) -> (r: LowercaseSelected)
        ensures
            r.selection == selection,
    {
        LowercaseSelected { selection }
    }

    /// Lowercase the selected elements of an array; anything else passes
    /// through unchanged.
    pub fn apply(&self, value: Value) -> (r: Value)
        requires
            val_wf(value@),
        ensures
            match value {
                Value::Array(arr) => r@ == spec_apply_selected(
                    LeafOp::Lower,
                    arr.level,
                    vviews(arr.elements@),
                    self.selection.items@,
                ),
                _ => r@ == value@,
            },
            val_wf(r@),
    {
        match value {
            Value::Array(arr) => apply_to_selected(arr, &self.selection, &LeafOp::Lower),
            other => other,
        }
    }
}

/// `U<selection>`: uppercase only the selected elements.
pub struct UppercaseSelected {
    pub selection: Selection,
}

impl UppercaseSelected {
    pub fn new(selection: Selection) -> (r: UppercaseSelected)
        ensures
            r.selection == selection,
    {
        UppercaseSelected { selection }
    }

    /// Uppercase the selected elements of an array; anything else passes
    /// through unchanged.
    pub fn apply(&self, value: Value) -> (r: Value)
        requires
            val_wf(value@),
        ensures
            match value {
                Value::Array(arr) => r@ == spec_apply_selected(
                    LeafOp::Upper,
                    arr.level,
                    vviews(arr.elements@),
                    self.selection.items@,
                ),
                _ => r@ == value@,
            },
            val_wf(r@),
    {
        match value {
            Value::Array(arr) => apply_to_selected(arr, &self.selection, &LeafOp::Upper),
            other => other,
        }
    }
}

} // verus!
