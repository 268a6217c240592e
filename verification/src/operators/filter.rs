//! The regex filter operator.

use vstd::prelude::*;

use crate::pattern::{re_match, re_valid, regex_is_match};
use crate::render::{render_value, val_text};
use crate::value::{val_wf, vview, vviews, Array, Val, Value};

verus! {

broadcast use vstd::std_specs::vec::group_vec_axioms, vstd::seq::group_seq_axioms;

/// The elements whose text form the pattern matches (or, negated, does
/// not), in order.
pub open spec fn spec_filter(pat: Seq<char>, negate: bool, elems: Seq<Val>) -> Seq<Val>
    decreases elems,
{
    if elems.len() == 0 {
        Seq::<Val>::empty()
    } else {
        let rest = spec_filter(pat, negate, elems.drop_last());
        if re_match(pat, val_text(elems.last())) != negate {
            rest.push(elems.last())
        } else {
            rest
        }
    }
}

/// `/<pattern>/` keeps the elements the pattern matches; `!/<pattern>/`
/// keeps those it does not.
pub struct Filter {
    pub pattern: String,
    pub negate: bool,
}

impl Filter {
    pub fn new(pattern: String, negate: bool) -> (r: Filter)
        requires
            re_valid(pattern@),
        ensures
            r.pattern == pattern,
            r.negate == negate,
    {
        Filter { pattern, negate }
    }

    /// Keep the matching (or non-matching) elements of an array; anything
    /// else passes through.
    pub fn apply(&self, value: Value) -> (r: Value)
        requires
            val_wf(value@),
            re_valid(self.pattern@),
        ensures
            match value {
                Value::Array(arr) => r@ == (Val::Arr {
                    level: arr.level,
                    elems: spec_filter(self.pattern@, self.negate, vviews(arr.elements@)),
                }),
                _ => r@ == value@,
            },
            val_wf(r@),
    {
        match value {
            Value::Array(arr) => {
                proof {
                    crate::value::lemma_arr_wf_elems(arr@);
                    crate::value::lemma_vviews(arr.elements@);
                    crate::value::lemma_wf_through(arr.level, arr.elements@);
                }
                let ghost orig = arr.elements@;
                let level = arr.level;
                let elems = arr.elements;
                let mut out: Vec<Value> = Vec::new();
                let mut i: usize = 0;
                proof {
                    assert(orig.subrange(0, 0) =~= Seq::<Value>::empty());
                    assert(vviews(out@) =~= spec_filter(
                        self.pattern@,
                        self.negate,
                        vviews(orig.subrange(0, 0)),
                    ));
                }
                while i < elems.len()
                    invariant
                        i <= elems@.len(),
                        elems@ == orig,
                        re_valid(self.pattern@),
                        forall|k: int| 0 <= k < orig.len() ==> val_wf(vview(#[trigger] orig[k])),
                        forall|k: int| 0 <= k < out@.len() ==> val_wf(vview(#[trigger] out@[k])),
                        vviews(out@) == spec_filter(
                            self.pattern@,
                            self.negate,
                            vviews(orig.subrange(0, i as int)),
                        ),
                    decreases elems@.len() - i,
                {
                    proof {
                        crate::value::lemma_vviews(orig);
                        let pre = orig.subrange(0, i as int);
                        let cur = orig.subrange(0, i + 1);
                        crate::value::lemma_vviews(pre);
                        crate::value::lemma_vviews(cur);
                        assert(cur.drop_last() =~= pre);
                        assert(vviews(cur).drop_last() =~= vviews(pre));
                        assert(vviews(cur).last() == vview(orig[i as int]));
                    }
                    let text = render_value(&elems[i]);
                    let matched = regex_is_match(self.pattern.as_str(), text.as_str());
                    let keep = if self.negate {
                        !matched
                    } else {
                        matched
                    };
                    if keep {
                        let ghost before = out@;
                        let e = elems[i].deep_copy();
                        out.push(e);
                        proof {
                            crate::value::lemma_vviews(before);
                            crate::value::lemma_vviews(out@);
                            assert(vviews(out@) =~= vviews(before).push(vview(orig[i as int])));
                        }
                    }
                    i = i + 1;
                }
                proof {
                    assert(orig.subrange(0, orig.len() as int) =~= orig);
                    crate::value::lemma_wf_build(level, out@);
                }
                Value::Array(Array { level, elements: out })
            },
            other => other,
        }
    }
}

} // verus!
