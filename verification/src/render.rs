//! The text form of a value, and the structural keys used by dedupe and
//! group-by.

use vstd::prelude::*;

use crate::num::num_str;
use crate::textutil::string_from_chars;
use crate::value::{val_wf, vview, vviews, Val, Value};

verus! {

broadcast use vstd::std_specs::vec::group_vec_axioms, vstd::seq::group_seq_axioms;

/// The text form of a value: text itself, a number's decimal form, an array
/// rendered element by element with its level's join delimiter in between.
pub open spec fn val_text(v: Val) -> Seq<char>
    decreases v,
{
    match v {
        Val::Txt(s) => s,
        Val::Num { m, s } => num_str(m, s),
        Val::Arr { level, elems } => texts_joined(elems, level.spec_join_delimiter()),
    }
}

/// The texts of the elements, joined by a delimiter.
pub open spec fn texts_joined(elems: Seq<Val>, delim: Seq<char>) -> Seq<char>
    decreases elems,
{
    if elems.len() == 0 {
        Seq::<char>::empty()
    } else if elems.len() == 1 {
        val_text(elems[0])
    } else {
        texts_joined(elems.drop_last(), delim) + delim + val_text(elems.last())
    }
}

/// The string key standing for a value's structure: type-tagged text for
/// scalars, recursively bracketed for arrays.
pub open spec fn val_key(v: Val) -> Seq<char>
    decreases v,
{
    match v {
        Val::Txt(s) => seq!['T', ':'] + s,
        Val::Num { m, s } => seq!['N', ':'] + num_str(m, s),
        Val::Arr { elems, .. } => seq!['A', ':', '['] + keys_joined(elems) + seq![']'],
    }
}

/// The keys of the elements, joined by commas.
pub open spec fn keys_joined(elems: Seq<Val>) -> Seq<char>
    decreases elems,
{
    if elems.len() == 0 {
        Seq::<char>::empty()
    } else if elems.len() == 1 {
        val_key(elems[0])
    } else {
        keys_joined(elems.drop_last()) + seq![','] + val_key(elems.last())
    }
}

/// Render a value as text.
pub fn render_value(v: &Value) -> (r: String)
    requires
        val_wf(v@),
    ensures
        r@ == val_text(v@),
    decreases *v,
{
    match v {
        Value::Text(s) => s.clone(),
        Value::Number(n) => string_from_chars(&n.to_chars()),
        Value::Array(a) => {
            proof {
                crate::value::lemma_arr_wf_elems(v@);
                crate::value::lemma_vviews(a.elements@);
            }
            let delim = a.level.join_delimiter();
            let mut out = String::new();
            let mut i: usize = 0;
            while i < a.elements.len()
                invariant
                    i <= a.elements@.len(),
                    val_wf(v@),
                    v == Value::Array(*a),
                    delim@ == a.level.spec_join_delimiter(),
                    out@ == texts_joined(
                        vviews(a.elements@.subrange(0, i as int)),
                        a.level.spec_join_delimiter(),
                    ),
                decreases a.elements@.len() - i,
            {
                proof {
                    crate::value::lemma_arr_wf_elems(v@);
                    crate::value::lemma_vviews(a.elements@);
                    assert(v@ == Val::Arr { level: a.level, elems: vviews(a.elements@) });
                    assert(val_wf(v@->Arr_elems[i as int]));
                    assert(val_wf_at(a.elements@, i as int));
                }
                if i > 0 {
                    out.append(delim);
                }
                let piece = render_value(&a.elements[i]);
                out.append(piece.as_str());
                proof {
                    let pre = vviews(a.elements@.subrange(0, i as int));
                    let cur = vviews(a.elements@.subrange(0, i + 1));
                    crate::value::lemma_vviews(a.elements@.subrange(0, i as int));
                    crate::value::lemma_vviews(a.elements@.subrange(0, i + 1));
                    assert(a.elements@.subrange(0, i + 1).drop_last() =~= a.elements@.subrange(
                        0,
                        i as int,
                    ));
                    assert(cur.drop_last() =~= pre);
                    assert(cur.last() == vview(a.elements@[i as int]));
                    if i == 0 {
                        assert(cur.len() == 1);
                        assert(cur[0] == vview(a.elements@[0]));
                    }
                }
                i = i + 1;
            }
            proof {
                assert(a.elements@.subrange(0, a.elements@.len() as int) =~= a.elements@);
            }
            out
        },
    }
}

/// Whether the element at `i` is well-formed; a helper for loop proofs.
pub open spec fn val_wf_at(s: Seq<Value>, i: int) -> bool {
    val_wf(vview(s[i]))
}

/// The string key for one value, as dedupe and group-by use it.
pub fn value_to_key(v: &Value) -> (r: String)
    requires
        val_wf(v@),
    ensures
        r@ == val_key(v@),
    decreases *v,
{
    proof {
        reveal_strlit("T:");
        reveal_strlit("N:");
        reveal_strlit("A:[");
        reveal_strlit("]");
        reveal_strlit(",");
    }
    match v {
        Value::Text(s) => {
            let mut out = String::new();
            out.append("T:");
            out.append(s.as_str());
            proof {
                assert(out@ =~= seq!['T', ':'] + s@);
            }
            out
        },
        Value::Number(n) => {
            let mut out = String::new();
            out.append("N:");
            let d = string_from_chars(&n.to_chars());
            out.append(d.as_str());
            proof {
                assert(out@ =~= seq!['N', ':'] + num_str(n@.m, n@.s));
            }
            out
        },
        Value::Array(a) => {
            proof {
                crate::value::lemma_arr_wf_elems(v@);
                crate::value::lemma_vviews(a.elements@);
            }
            let mut out = String::new();
            out.append("A:[");
            let mut i: usize = 0;
            while i < a.elements.len()
                invariant
                    i <= a.elements@.len(),
                    val_wf(v@),
                    v == Value::Array(*a),
                    out@ == seq!['A', ':', '['] + keys_joined(
                        vviews(a.elements@.subrange(0, i as int)),
                    ),
                decreases a.elements@.len() - i,
            {
                proof {
                    reveal_strlit(",");
                    crate::value::lemma_arr_wf_elems(v@);
                    crate::value::lemma_vviews(a.elements@);
                    assert(v@ == Val::Arr { level: a.level, elems: vviews(a.elements@) });
                    assert(val_wf(v@->Arr_elems[i as int]));
                    assert(val_wf_at(a.elements@, i as int));
                }
                if i > 0 {
                    out.append(",");
                }
                let piece = value_to_key(&a.elements[i]);
                out.append(piece.as_str());
                proof {
                    let pre = vviews(a.elements@.subrange(0, i as int));
                    let cur = vviews(a.elements@.subrange(0, i + 1));
                    crate::value::lemma_vviews(a.elements@.subrange(0, i as int));
                    crate::value::lemma_vviews(a.elements@.subrange(0, i + 1));
                    assert(a.elements@.subrange(0, i + 1).drop_last() =~= a.elements@.subrange(
                        0,
                        i as int,
                    ));
                    assert(cur.drop_last() =~= pre);
                    assert(cur.last() == vview(a.elements@[i as int]));
                    if i == 0 {
                        assert(cur.len() == 1);
                        assert(cur[0] == vview(a.elements@[0]));
                    }
                }
                i = i + 1;
            }
            out.append("]");
            proof {
                reveal_strlit("]");
                assert(a.elements@.subrange(0, a.elements@.len() as int) =~= a.elements@);
                assert(out@ =~= seq!['A', ':', '['] + keys_joined(vviews(a.elements@)) + seq![']']);
            }
            out
        },
    }
}

} // verus!
