//! The select operator, and the machinery shared by every operator that
//! transforms text leaves or selected elements.

use vstd::prelude::*;

use crate::ast::{SelectItem, Selection};
use crate::error::{Error, TResult};
use crate::num::parse_num;
use crate::pattern::{re_replace_of, re_valid, regex_replace_all};
use crate::select::{idxs_of, selection_indices_for, spec_selection_indices, norm_index};
use crate::textutil::{
    lower_of, lowercase, str_chars, string_from_chars, trim_chars, trim_spec, upper_of, uppercase,
};
use crate::value::{val_wf, vview, vviews, Array, Level, Val, Value};

verus! {

broadcast use vstd::std_specs::vec::group_vec_axioms, vstd::seq::group_seq_axioms;

/// A transformation of one text leaf: what the case, trim, to-number and
/// replace operators do to a single piece of text.
pub enum LeafOp {
    Lower,
    Upper,
    Trim,
    ToNumber,
    Replace { pattern: String, replacement: String },
}

/// A replace leaf carries a pattern the regex crate accepts.
pub open spec fn leaf_op_wf(op: LeafOp) -> bool {
    match op {
        LeafOp::Replace { pattern, .. } => re_valid(pattern@),
        _ => true,
    }
}

/// What a leaf transformation does to one piece of text.
pub open spec fn spec_leaf(op: LeafOp, s: Seq<char>) -> Val {
    match op {
        LeafOp::Lower => Val::Txt(lower_of(s)),
        LeafOp::Upper => Val::Txt(upper_of(s)),
        LeafOp::Trim => Val::Txt(trim_spec(s)),
        LeafOp::ToNumber => match parse_num(s) {
            Some(nm) => Val::Num { m: nm.m, s: nm.s },
            None => Val::Num { m: 0, s: 0 },
        },
        LeafOp::Replace { pattern, replacement } => Val::Txt(
            re_replace_of(pattern@, s, replacement@),
        ),
    }
}

/// A leaf transformation mapped through a value: text leaves transformed,
/// numbers kept, arrays mapped element by element.
pub open spec fn spec_map_leaves(op: LeafOp, v: Val) -> Val
    decreases v,
{
    match v {
        Val::Txt(s) => spec_leaf(op, s),
        Val::Num { .. } => v,
        Val::Arr { level, elems } => Val::Arr { level, elems: spec_map_leaves_seq(op, elems) },
    }
}

/// A leaf transformation mapped over a sequence of values.
pub open spec fn spec_map_leaves_seq(op: LeafOp, s: Seq<Val>) -> Seq<Val>
    decreases s,
{
    if s.len() == 0 {
        Seq::<Val>::empty()
    } else {
        spec_map_leaves_seq(op, s.drop_last()).push(spec_map_leaves(op, s.last()))
    }
}

/// `spec_map_leaves_seq` maps `spec_map_leaves` over the sequence.
pub proof fn lemma_map_leaves_seq(op: LeafOp, s: Seq<Val>)
    ensures
        spec_map_leaves_seq(op, s).len() == s.len(),
        forall|i: int|
            0 <= i < s.len() ==> spec_map_leaves_seq(op, s)[i] == spec_map_leaves(op, s[i]),
    decreases s,
{
    if s.len() > 0 {
        lemma_map_leaves_seq(op, s.drop_last());
    }
}

/// Apply a leaf transformation to one piece of text.
pub fn apply_leaf(op: &LeafOp, s: &String) -> (r: Value)
    requires
        leaf_op_wf(*op),
    ensures
        r@ == spec_leaf(*op, s@),
        val_wf(r@),
{
    match op {
        LeafOp::Lower => Value::Text(lowercase(s.as_str())),
        LeafOp::Upper => Value::Text(uppercase(s.as_str())),
        LeafOp::Trim => {
            let cs = str_chars(s.as_str());
            Value::Text(string_from_chars(&trim_chars(&cs)))
        },
        LeafOp::ToNumber => {
            let cs = str_chars(s.as_str());
            match crate::num::parse_decimal(&cs) {
                Some(n) => Value::Number(n),
                None => Value::Number(crate::num::Number::zero()),
            }
        },
        LeafOp::Replace { pattern, replacement } => Value::Text(
            regex_replace_all(pattern.as_str(), s.as_str(), replacement.as_str()),
        ),
    }
}

/// Apply a leaf transformation through a whole value.
pub fn map_leaves(op: &LeafOp, v: &Value) -> (r: Value)
    requires
        leaf_op_wf(*op),
        val_wf(v@),
    ensures
        r@ == spec_map_leaves(*op, v@),
        val_wf(r@),
    decreases *v,
{
    match v {
        Value::Text(s) => apply_leaf(op, s),
        Value::Number(n) => Value::Number(*n),
        Value::Array(a) => {
            proof {
                crate::value::lemma_wf_through(a.level, a.elements@);
            }
            let out = map_leaves_elems(op, &a.elements);
            proof {
                crate::value::lemma_vviews(out@);
                crate::value::lemma_vviews(a.elements@);
                lemma_map_leaves_seq(*op, vviews(a.elements@));
                assert(vviews(out@) =~= spec_map_leaves_seq(*op, vviews(a.elements@)));
                crate::value::lemma_wf_build(a.level, out@);
            }
            Value::Array(Array { level: a.level, elements: out })
        },
    }
}

/// Apply a leaf transformation through each element.
fn map_leaves_elems(op: &LeafOp, elems: &Vec<Value>) -> (r: Vec<Value>)
    requires
        leaf_op_wf(*op),
        forall|k: int| 0 <= k < elems@.len() ==> val_wf(vview(#[trigger] elems@[k])),
    ensures
        r@.len() == elems@.len(),
        forall|k: int|
            0 <= k < r@.len() ==> vview(#[trigger] r@[k]) == spec_map_leaves(
                *op,
                vview(elems@[k]),
            ),
        forall|k: int| 0 <= k < r@.len() ==> val_wf(vview(#[trigger] r@[k])),
    decreases *elems,
{
    let mut out: Vec<Value> = Vec::new();
    let mut i: usize = 0;
    while i < elems.len()
        invariant
            leaf_op_wf(*op),
            i <= elems@.len(),
            forall|k: int| 0 <= k < elems@.len() ==> val_wf(vview(#[trigger] elems@[k])),
            out@.len() == i,
            forall|k: int|
                0 <= k < i ==> vview(#[trigger] out@[k]) == spec_map_leaves(
                    *op,
                    vview(elems@[k]),
                ),
            forall|k: int| 0 <= k < i ==> val_wf(vview(#[trigger] out@[k])),
        decreases elems@.len() - i,
    {
        let t = map_leaves(op, &elems[i]);
        out.push(t);
        i = i + 1;
    }
    out
}

/// A leaf transformation applied only to the selected elements of an array.
pub open spec fn spec_apply_selected(op: LeafOp, level: Level, elems: Seq<Val>, items: Seq<SelectItem>) -> Val {
    Val::Arr {
        level,
        elems: Seq::new(
            elems.len(),
            |i: int|
                if spec_selection_indices(items, elems.len() as int).contains(i) {
                    spec_map_leaves(op, elems[i])
                } else {
                    elems[i]
                },
        ),
    }
}

/// Whether a vector of indices holds one.
fn contains_index(v: &Vec<usize>, x: usize) -> (r: bool)
    ensures
        r == idxs_of(v@).contains(x as int),
{
    let mut j: usize = 0;
    while j < v.len()
        invariant
            j <= v@.len(),
            forall|k: int| 0 <= k < j ==> idxs_of(v@)[k] != x as int,
        decreases v@.len() - j,
    {
        if v[j] == x {
            proof {
                assert(idxs_of(v@)[j as int] == x as int);
            }
            return true;
        }
        j = j + 1;
    }
    proof {
        assert forall|k: int| 0 <= k < idxs_of(v@).len() implies idxs_of(v@)[k] != x as int by {}
    }
    false
}

/// Apply a leaf transformation to the selected elements of an array,
/// leaving the rest untouched.
pub fn apply_to_selected(arr: Array, selection: &Selection, op: &LeafOp) -> (r: Value)
    requires
        leaf_op_wf(*op),
        val_wf(arr@),
    ensures
        r@ == spec_apply_selected(*op, arr.level, vviews(arr.elements@), selection.items@),
        val_wf(r@),
{
    proof {
        crate::value::lemma_arr_wf_elems(arr@);
        crate::value::lemma_vviews(arr.elements@);
        crate::value::lemma_wf_through(arr.level, arr.elements@);
    }
    let ghost orig = arr.elements@;
    let level = arr.level;
    let n = arr.elements.len();
    let selected = selection_indices_for(selection, n);
    let mut elems = arr.elements;
    let mut out: Vec<Value> = Vec::new();
    let mut i: usize = 0;
    let ghost items = selection.items@;
    while i < n
        invariant
            leaf_op_wf(*op),
            i <= n,
            n == elems@.len(),
            elems@ == orig,
            idxs_of(selected@) == spec_selection_indices(items, n as int),
            forall|k: int| 0 <= k < orig.len() ==> val_wf(vview(#[trigger] orig[k])),
            out@.len() == i,
            forall|k: int|
                0 <= k < i ==> vview(#[trigger] out@[k]) == (if spec_selection_indices(
                    items,
                    n as int,
                ).contains(k) {
                    spec_map_leaves(*op, vview(orig[k]))
                } else {
                    vview(orig[k])
                }),
            forall|k: int| 0 <= k < i ==> val_wf(vview(#[trigger] out@[k])),
        decreases n - i,
    {
        if contains_index(&selected, i) {
            let t = map_leaves(op, &elems[i]);
            out.push(t);
        } else {
            let e = elems[i].deep_copy();
            out.push(e);
        }
        i = i + 1;
    }
    proof {
        crate::value::lemma_vviews(out@);
        let want = spec_apply_selected(*op, level, vviews(orig), items);
        assert(vviews(orig).len() == orig.len());
        assert(vviews(out@) =~= want->Arr_elems);
    }
    Value::Array(Array { level, elements: out })
}

/// The select operator: reduce an array or a string to the chosen indices.
pub struct Select {
    pub selection: Selection,
}

/// What selecting does to an array: a lone index item gives the element
/// itself (out of range is an error); anything else gives the selected
/// elements in selection order, duplicates copied.
pub open spec fn spec_select_arr(items: Seq<SelectItem>, level: Level, elems: Seq<Val>) -> Result<
    Val,
    Seq<char>,
> {
    if items.len() == 1 && items[0] is Index {
        let a = norm_index(items[0]->Index_0 as int, elems.len() as int);
        if 0 <= a < elems.len() {
            Ok(elems[a])
        } else {
            Err("index out of bounds"@)
        }
    } else {
        let picked = spec_selection_indices(items, elems.len() as int);
        Ok(Val::Arr { level, elems: Seq::new(picked.len(), |k: int| elems[picked[k]]) })
    }
}

/// What selecting does to text: as for an array, over its characters.
pub open spec fn spec_select_txt(items: Seq<SelectItem>, s: Seq<char>) -> Result<Val, Seq<char>> {
    if items.len() == 1 && items[0] is Index {
        let a = norm_index(items[0]->Index_0 as int, s.len() as int);
        if 0 <= a < s.len() {
            Ok(Val::Txt(seq![s[a]]))
        } else {
            Err("index out of bounds"@)
        }
    } else {
        let picked = spec_selection_indices(items, s.len() as int);
        Ok(Val::Txt(Seq::new(picked.len(), |k: int| s[picked[k]])))
    }
}

/// What the select operator does to a value.
pub open spec fn spec_select(items: Seq<SelectItem>, v: Val) -> Result<Val, Seq<char>> {
    match v {
        Val::Arr { level, elems } => spec_select_arr(items, level, elems),
        Val::Txt(s) => spec_select_txt(items, s),
        Val::Num { .. } => Err("cannot select from number"@),
    }
}

impl Select {
    pub fn new(selection: Selection) -> (r: Select)
        ensures
            r.selection == selection,
    {
        Select { selection }
    }

    /// Apply the selection: a lone index unwraps the element, anything else
    /// collects the picked elements in order; selecting from a number is an
    /// error.
    pub fn apply(&self, value: Value) -> (r: TResult<Value>)
        requires
            val_wf(value@),
        ensures
            match r {
                Ok(v) => spec_select(self.selection.items@, value@) == Ok::<Val, Seq<char>>(v@)
                    && val_wf(v@),
                Err(e) => spec_select(self.selection.items@, value@) == Err::<Val, Seq<char>>(
                    e.message@,
                ),
            },
    {
        match value {
            Value::Array(arr) => select_from_array(arr, &self.selection),
            Value::Text(s) => select_from_string(&s, &self.selection),
            Value::Number(_) => {
                proof {
                    reveal_strlit("cannot select from number");
                }
                Err(Error::runtime("cannot select from number".to_owned()))
            },
        }
    }
}

/// Select from an array.
fn select_from_array(arr: Array, selection: &Selection) -> (r: TResult<Value>)
    requires
        val_wf(arr@),
    ensures
        match r {
            Ok(v) => spec_select_arr(selection.items@, arr.level, vviews(arr.elements@)) == Ok::<
                Val,
                Seq<char>,
            >(v@) && val_wf(v@),
            Err(e) => spec_select_arr(selection.items@, arr.level, vviews(arr.elements@)) == Err::<
                Val,
                Seq<char>,
            >(e.message@),
        },
{
    proof {
        crate::value::lemma_arr_wf_elems(arr@);
        crate::value::lemma_vviews(arr.elements@);
        crate::value::lemma_wf_through(arr.level, arr.elements@);
    }
    let n = arr.elements.len();
    let sole = if selection.items.len() == 1 {
        match &selection.items[0] {
            SelectItem::Index(idx) => Some(*idx),
            _ => None,
        }
    } else {
        None
    };
    match sole {
        Some(idx) => {
            let a = idx as i128 + (if idx < 0 {
                n as i128
            } else {
                0
            });
            if 0 <= a && a < n as i128 {
                let e = arr.elements[a as usize].deep_copy();
                proof {
                    assert(val_wf(arr@->Arr_elems[a as int]));
                    assert(vviews(arr.elements@)[a as int] == vview(arr.elements@[a as int]));
                }
                Ok(e)
            } else {
                proof {
                    reveal_strlit("index out of bounds");
                }
                Err(Error::runtime("index out of bounds".to_owned()))
            }
        },
        None => {
            let picked = selection_indices_for(selection, n);
            let ghost pick = spec_selection_indices(selection.items@, n as int);
            let mut out: Vec<Value> = Vec::new();
            let mut k: usize = 0;
            while k < picked.len()
                invariant
                    n == arr.elements@.len(),
                    idxs_of(picked@) == pick,
                    forall|j: int| 0 <= j < picked@.len() ==> (#[trigger] picked@[j]) < n,
                    forall|j: int|
                        0 <= j < arr.elements@.len() ==> val_wf(
                            vview(#[trigger] arr.elements@[j]),
                        ),
                    k <= picked@.len(),
                    out@.len() == k,
                    forall|j: int|
                        0 <= j < k ==> vview(#[trigger] out@[j]) == vviews(arr.elements@)[pick[j]],
                    forall|j: int| 0 <= j < k ==> val_wf(vview(#[trigger] out@[j])),
                decreases picked@.len() - k,
            {
                let idx = picked[k];
                proof {
                    assert(pick[k as int] == picked@[k as int] as int);
                    crate::select::lemma_selection_indices_in_range(selection.items@, n as int);
                    crate::value::lemma_vviews(arr.elements@);
                    assert(vviews(arr.elements@)[pick[k as int]] == vview(
                        arr.elements@[pick[k as int]],
                    ));
                }
                let e = arr.elements[idx].deep_copy();
                out.push(e);
                k = k + 1;
            }
            proof {
                crate::value::lemma_vviews(out@);
                let want = spec_select_arr(selection.items@, arr.level, vviews(arr.elements@));
                assert(vviews(out@) =~= want->Ok_0->Arr_elems);
            }
            Ok(Value::Array(Array { level: arr.level, elements: out }))
        },
    }
}

/// Select characters from a string.
fn select_from_string(s: &String, selection: &Selection) -> (r: TResult<Value>)
    ensures
        match r {
            Ok(v) => spec_select_txt(selection.items@, s@) == Ok::<Val, Seq<char>>(v@) && val_wf(
                v@,
            ),
            Err(e) => spec_select_txt(selection.items@, s@) == Err::<Val, Seq<char>>(e.message@),
        },
{
    let cs = str_chars(s.as_str());
    let n = cs.len();
    let sole = if selection.items.len() == 1 {
        match &selection.items[0] {
            SelectItem::Index(idx) => Some(*idx),
            _ => None,
        }
    } else {
        None
    };
    match sole {
        Some(idx) => {
            let a = idx as i128 + (if idx < 0 {
                n as i128
            } else {
                0
            });
            if 0 <= a && a < n as i128 {
                let mut one: Vec<char> = Vec::new();
                one.push(cs[a as usize]);
                proof {
                    assert(one@ =~= seq![s@[norm_index(idx as int, s@.len() as int)]]);
                }
                Ok(Value::Text(string_from_chars(&one)))
            } else {
                proof {
                    reveal_strlit("index out of bounds");
                }
                Err(Error::runtime("index out of bounds".to_owned()))
            }
        },
        None => {
            let picked = selection_indices_for(selection, n);
            let ghost pick = spec_selection_indices(selection.items@, n as int);
            let mut out: Vec<char> = Vec::new();
            let mut k: usize = 0;
            while k < picked.len()
                invariant
                    n == cs@.len(),
                    cs@ == s@,
                    idxs_of(picked@) == pick,
                    forall|j: int| 0 <= j < picked@.len() ==> (#[trigger] picked@[j]) < n,
                    k <= picked@.len(),
                    out@.len() == k,
                    forall|j: int| 0 <= j < k ==> out@[j] == s@[pick[j]],
                decreases picked@.len() - k,
            {
                let idx = picked[k];
                proof {
                    assert(pick[k as int] == picked@[k as int] as int);
                }
                out.push(cs[idx]);
                k = k + 1;
            }
            proof {
                let want = spec_select_txt(selection.items@, s@);
                assert(out@ =~= want->Ok_0->Txt_0);
            }
            Ok(Value::Text(string_from_chars(&out)))
        },
    }
}

} // verus!
