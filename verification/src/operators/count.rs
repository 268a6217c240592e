//! The count operator.

use vstd::prelude::*;

use crate::error::{Error, TResult};
use crate::num::Number;
use crate::value::{val_wf, Val, Value};

verus! {

broadcast use vstd::std_specs::vec::group_vec_axioms;

/// What counting yields: the number of elements of an array, the number of
/// characters of a text, zero for a number.
pub open spec fn spec_count(v: Val) -> int {
    match v {
        Val::Arr { elems, .. } => elems.len() as int,
        Val::Txt(s) => s.len() as int,
        Val::Num { .. } => 0,
    }
}

/// `#`: count the elements of an array or the characters of a text.
pub struct Count;

impl Count {
    /// The element or character count, as a number.  Fails only where the
    /// count cannot be represented, which nothing that fits in memory
    /// reaches.
    pub fn apply(&self, value: Value) -> (r: TResult<Value>)
        requires
            val_wf(value@),
        ensures
            match r {
                Ok(v) => spec_count(value@) <= 0x7fff_ffff_ffff_ffff && v@ == (Val::Num {
                    m: spec_count(value@),
                    s: 0,
                }) && val_wf(v@),
                Err(e) => spec_count(value@) > 0x7fff_ffff_ffff_ffff && e.message@
                    == "count does not fit a number"@,
            },
    {
        let n: usize = match &value {
            Value::Array(arr) => {
                proof {
                    crate::value::lemma_vviews(arr.elements@);
                }
                arr.elements.len()
            },
            Value::Text(s) => {
                let cs = crate::textutil::str_chars(s.as_str());
                cs.len()
            },
            Value::Number(_) => 0,
        };
        if (n as u64) <= 0x7fff_ffff_ffff_ffffu64 {
            Ok(Value::Number(Number::from_int(n as i64)))
        } else {
            proof {
                reveal_strlit("count does not fit a number");
            }
            Err(Error::runtime("count does not fit a number".to_owned()))
        }
    }
}

} // verus!
