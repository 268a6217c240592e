//! The flatten operator.

use vstd::prelude::*;

use crate::value::{val_wf, vview, vviews, Array, Val, Value};

verus! {

broadcast use vstd::std_specs::vec::group_vec_axioms, vstd::seq::group_seq_axioms;

/// One level of flattening: inner arrays contribute their elements, other
/// values stay as they are.
pub open spec fn spec_flatten(elems: Seq<Val>) -> Seq<Val>
    decreases elems,
{
    if elems.len() == 0 {
        Seq::<Val>::empty()
    } else {
        let rest = spec_flatten(elems.drop_last());
        match elems.last() {
            Val::Arr { elems: inner, .. } => rest + inner,
            other => rest.push(other),
        }
    }
}

/// `f`: flatten nested arrays by exactly one level, without stringifying.
pub struct Flatten;

impl Flatten {
    /// Flatten one level of nesting; anything but an array passes through.
    pub fn apply(&self, value: Value) -> (r: Value)
        requires
            val_wf(value@),
        ensures
            match value {
                Value::Array(arr) => r@ == (Val::Arr {
                    level: arr.level,
                    elems: spec_flatten(vviews(arr.elements@)),
                }),
                _ => r@ == value@,
            },
            val_wf(r@),
    {
        match value {
            Value::Array(arr) => {
                proof {
                    crate::value::lemma_arr_wf_elems(arr@);
                    crate::value::lemma_vviews(arr.elements@);
                    crate::value::lemma_wf_through(arr.level, arr.elements@);
                }
                let ghost orig = arr.elements@;
                let level = arr.level;
                let mut elems = arr.elements;
                let mut out: Vec<Value> = Vec::new();
                let mut i: usize = 0;
                proof {
                    assert(orig.subrange(0, 0) =~= Seq::<Value>::empty());
                    assert(vviews(out@) =~= spec_flatten(vviews(orig.subrange(0, 0))));
                }
                while i < elems.len()
                    invariant
                        i <= elems@.len(),
                        elems@ == orig,
                        forall|k: int| 0 <= k < orig.len() ==> val_wf(vview(#[trigger] orig[k])),
                        forall|k: int| 0 <= k < out@.len() ==> val_wf(vview(#[trigger] out@[k])),
                        vviews(out@) == spec_flatten(vviews(orig.subrange(0, i as int))),
                    decreases elems@.len() - i,
                {
                    proof {
                        crate::value::lemma_vviews(orig);
                        let pre = orig.subrange(0, i as int);
                        let cur = orig.subrange(0, i + 1);
                        crate::value::lemma_vviews(pre);
                        crate::value::lemma_vviews(cur);
                        assert(cur.drop_last() =~= pre);
                        assert(vviews(cur).drop_last() =~= vviews(pre));
                        assert(vviews(cur).last() == vview(orig[i as int]));
                    }
                    let e = elems[i].deep_copy();
                    let ghost before = out@;
                    match e {
                        Value::Array(inner) => {
                            let mut inner_elems = inner.elements;
                            let ghost inner_orig = inner_elems@;
                            proof {
                                crate::value::lemma_vviews(inner_orig);
                                assert(vview(orig[i as int]) == Val::Arr {
                                    level: inner.level,
                                    elems: vviews(inner_orig),
                                });
                                crate::value::lemma_wf_through(inner.level, inner_orig);
                            }
                            let mut j: usize = 0;
                            while j < inner_elems.len()
                                invariant
                                    j <= inner_elems@.len(),
                                    inner_elems@ == inner_orig,
                                    forall|k: int|
                                        0 <= k < inner_orig.len() ==> val_wf(
                                            vview(#[trigger] inner_orig[k]),
                                        ),
                                    forall|k: int|
                                        0 <= k < out@.len() ==> val_wf(
                                            vview(#[trigger] out@[k]),
                                        ),
                                    out@.len() == before.len() + j,
                                    forall|k: int|
                                        0 <= k < before.len() ==> #[trigger] out@[k] == before[k],
                                    forall|k: int|
                                        before.len() <= k < out@.len() ==> vview(
                                            #[trigger] out@[k],
                                        ) == vview(inner_orig[k - before.len()]),
                                decreases inner_elems@.len() - j,
                            {
                                let x = inner_elems[j].deep_copy();
                                out.push(x);
                                j = j + 1;
                            }
                            proof {
                                crate::value::lemma_vviews(before);
                                crate::value::lemma_vviews(out@);
                                crate::value::lemma_vviews(inner_orig);
                                assert(vview(orig[i as int]) == Val::Arr {
                                    level: inner.level,
                                    elems: vviews(inner_orig),
                                });
                                assert(vviews(out@) =~= vviews(before) + vviews(inner_orig));
                            }
                        },
                        other => {
                            out.push(other);
                            proof {
                                crate::value::lemma_vviews(before);
                                crate::value::lemma_vviews(out@);
                                assert(vviews(out@) =~= vviews(before).push(vview(orig[i as int])));
                            }
                        },
                    }
                    i = i + 1;
                }
                proof {
                    assert(orig.subrange(0, orig.len() as int) =~= orig);
                    crate::value::lemma_wf_build(level, out@);
                }
                Value::Array(Array { level, elements: out })
            },
            other => other,
        }
    }
}

} // verus!
