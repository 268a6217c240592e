//! The regex replace operator.

use vstd::prelude::*;

use crate::ast::Selection;
use crate::operators::select::{
    apply_to_selected, map_leaves, spec_apply_selected, spec_map_leaves, LeafOp,
};
use crate::pattern::re_valid;
use crate::value::{val_wf, vviews, Val, Value};

verus! {

/// `r[<selection>]/<pattern>/<replacement>/`: global regex substitution on
/// every text leaf, or only inside the selected elements.
pub struct Replace {
    pub pattern: String,
    pub replacement: String,
    pub selection: Option<Selection>,
}

impl Replace {
    pub fn new(pattern: String, replacement: String, selection: Option<Selection>) -> (r: Replace)
        requires
            re_valid(pattern@),
        ensures
            r.pattern == pattern,
            r.replacement == replacement,
            r.selection == selection,
    {
        Replace { pattern, replacement, selection }
    }

    /// The leaf transformation this operator applies.
    pub open spec fn leaf(self) -> LeafOp {
        LeafOp::Replace { pattern: self.pattern, replacement: self.replacement }
    }

    /// Substitute in every text leaf, or only in the selected elements.
    pub fn apply(&self, value: Value) -> (r: Value)
        requires
            val_wf(value@),
            re_valid(self.pattern@),
        ensures
            match self.selection {
                Some(sel) => match value {
                    Value::Array(arr) => r@ == spec_apply_selected(
                        self.leaf(),
                        arr.level,
                        vviews(arr.elements@),
                        sel.items@,
                    ),
                    _ => r@ == value@,
                },
                None => r@ == spec_map_leaves(self.leaf(), value@),
            },
            val_wf(r@),
    {
        let op = LeafOp::Replace {
            pattern: self.pattern.clone(),
            replacement: self.replacement.clone(),
        };
        match &self.selection {
            Some(sel) => match value {
                Value::Array(arr) => apply_to_selected(arr, sel, &op),
                other => other,
            },
            None => map_leaves(&op, &value),
        }
    }
}

} // verus!
