//! The join operators.

use vstd::prelude::*;

use crate::csvrec::{csv_join_record, csv_record_of};
use crate::num::num_str;
use crate::render::{render_value, texts_joined, val_text};
use crate::textutil::string_from_chars;
use crate::value::{val_wf, vview, vviews, Array, Level, Val, Value};

verus! {

broadcast use vstd::std_specs::vec::group_vec_axioms, vstd::seq::group_seq_axioms;

/// How `j` turns an array of scalars into text: with the level's own
/// delimiter, with a custom one, or as one CSV record.
#[derive(Debug, Clone, PartialEq)]
pub enum JoinMode {
    Semantic,
    Delimiter(String),
    Csv,
}

/// Texts joined with a delimiter between them.
pub open spec fn seq_join(parts: Seq<Seq<char>>, sep: Seq<char>) -> Seq<char>
    decreases parts.len(),
{
    if parts.len() == 0 {
        Seq::<char>::empty()
    } else if parts.len() == 1 {
        parts[0]
    } else {
        seq_join(parts.drop_last(), sep) + sep + parts.last()
    }
}

/// The level a one-level flatten adopts: the level of the last inner array,
/// or the outer level where there is none.
pub open spec fn flat_level(elems: Seq<Val>, level: Level) -> Level
    decreases elems,
{
    if elems.len() == 0 {
        level
    } else {
        match elems.last() {
            Val::Arr { level: l2, .. } => l2,
            _ => flat_level(elems.drop_last(), level),
        }
    }
}

/// One level of flattening as join does it: inner arrays contribute their
/// elements, other values are dropped.
pub open spec fn flat_elems(elems: Seq<Val>) -> Seq<Val>
    decreases elems,
{
    if elems.len() == 0 {
        Seq::<Val>::empty()
    } else {
        let rest = flat_elems(elems.drop_last());
        match elems.last() {
            Val::Arr { elems: inner, .. } => rest + inner,
            _ => rest,
        }
    }
}

/// What joining does to an array: where the first element is itself an
/// array, flatten one level and adopt the inner level; otherwise stringify
/// the elements and join them with the mode's delimiter.
pub open spec fn spec_join_arr(mode: JoinMode, level: Level, elems: Seq<Val>) -> Val
    decreases elems, 2int,
{
    if elems.len() > 0 && elems[0] is Arr {
        Val::Arr { level: flat_level(elems, level), elems: flat_elems(elems) }
    } else {
        let parts = spec_join_parts(mode, elems);
        Val::Txt(
            match mode {
                JoinMode::Semantic => seq_join(parts, level.spec_join_delimiter()),
                JoinMode::Delimiter(d) => seq_join(parts, d@),
                JoinMode::Csv => if elems.len() == 0 {
                    Seq::<char>::empty()
                } else {
                    csv_record_of(parts)
                },
            },
        )
    }
}

/// The stringified elements a join concatenates.
pub open spec fn spec_join_parts(mode: JoinMode, elems: Seq<Val>) -> Seq<Seq<char>>
    decreases elems, 1int,
{
    if elems.len() == 0 {
        Seq::<Seq<char>>::empty()
    } else {
        spec_join_parts(mode, elems.drop_last()).push(spec_join_part(mode, elems.last()))
    }
}

/// One element's text in a join: text and numbers directly, a nested array
/// through its own join.
pub open spec fn spec_join_part(mode: JoinMode, v: Val) -> Seq<char>
    decreases v, 3int,
{
    match v {
        Val::Txt(s) => s,
        Val::Num { m, s } => num_str(m, s),
        Val::Arr { level, elems } => match spec_join_arr(mode, level, elems) {
            Val::Txt(s) => s,
            Val::Num { m, s } => num_str(m, s),
            Val::Arr { .. } => Seq::<char>::empty(),
        },
    }
}

/// What the join operator does to a value: arrays join, everything else
/// passes through.
pub open spec fn spec_join(mode: JoinMode, v: Val) -> Val {
    match v {
        Val::Arr { level, elems } => spec_join_arr(mode, level, elems),
        other => other,
    }
}

/// `j`: join an array back into text by its level, or flatten one level of
/// nesting.
pub struct Join {
    pub mode: JoinMode,
}

impl Join {
    pub fn new(mode: JoinMode) -> (r: Join)
        ensures
            r.mode == mode,
    {
        Join { mode }
    }

    /// Join the value.
    pub fn apply(&self, value: Value) -> (r: Value)
        requires
            val_wf(value@),
        ensures
            r@ == spec_join(self.mode, value@),
            val_wf(r@),
    {
        match value {
            Value::Array(arr) => join_array(&self.mode, &arr),
            other => other,
        }
    }
}

/// Join one array.
fn join_array(mode: &JoinMode, arr: &Array) -> (r: Value)
    requires
        val_wf(arr@),
    ensures
        r@ == spec_join_arr(*mode, arr.level, vviews(arr.elements@)),
        val_wf(r@),
    decreases *arr, 2int,
{
    proof {
        crate::value::lemma_arr_wf_elems(arr@);
        crate::value::lemma_vviews(arr.elements@);
        crate::value::lemma_wf_through(arr.level, arr.elements@);
    }
    let ghost orig = arr.elements@;
    let level = arr.level;
    let first_is_array = arr.elements.len() > 0 && matches!(&arr.elements[0], Value::Array(_));
    if first_is_array {
        // flatten one level, adopting the level of the last inner array
        let mut out: Vec<Value> = Vec::new();
        let mut new_level = level;
        let mut i: usize = 0;
        proof {
            assert(orig.subrange(0, 0) =~= Seq::<Value>::empty());
            assert(vviews(out@) =~= flat_elems(vviews(orig.subrange(0, 0))));
        }
        while i < arr.elements.len()
            invariant
                i <= arr.elements@.len(),
                arr.elements@ == orig,
                level == arr.level,
                forall|k: int| 0 <= k < orig.len() ==> val_wf(vview(#[trigger] orig[k])),
                forall|k: int| 0 <= k < out@.len() ==> val_wf(vview(#[trigger] out@[k])),
                vviews(out@) == flat_elems(vviews(orig.subrange(0, i as int))),
                new_level == flat_level(vviews(orig.subrange(0, i as int)), level),
            decreases arr.elements@.len() - i,
        {
            proof {
                crate::value::lemma_vviews(orig);
                let pre = orig.subrange(0, i as int);
                let cur = orig.subrange(0, i + 1);
                crate::value::lemma_vviews(pre);
                crate::value::lemma_vviews(cur);
                assert(cur.drop_last() =~= pre);
                assert(vviews(cur).drop_last() =~= vviews(pre));
                assert(vviews(cur).last() == vview(orig[i as int]));
            }
            let e = arr.elements[i].deep_copy();
            let ghost before = out@;
            match e {
                Value::Array(inner) => {
                    proof {
                        crate::value::lemma_arr_wf_elems(vview(orig[i as int]));
                        crate::value::lemma_vviews(inner.elements@);
                    }
                    new_level = inner.level;
                    let inner_elems = inner.elements;
                    let ghost inner_orig = inner_elems@;
                    proof {
                        assert(vview(orig[i as int]) == Val::Arr {
                            level: inner.level,
                            elems: vviews(inner_orig),
                        });
                        assert forall|k: int| 0 <= k < inner_orig.len() implies val_wf(
                            vview(#[trigger] inner_orig[k]),
                        ) by {
                            assert(val_wf(vview(orig[i as int])->Arr_elems[k]));
                            assert(vviews(inner_orig)[k] == vview(inner_orig[k]));
                        }
                    }
                    let mut j: usize = 0;
                    let mut rest = inner_elems;
                    while j < rest.len()
                        invariant
                            j <= rest@.len(),
                            rest@ == inner_orig,
                            forall|k: int|
                                0 <= k < inner_orig.len() ==> val_wf(
                                    vview(#[trigger] inner_orig[k]),
                                ),
                            forall|k: int|
                                0 <= k < out@.len() ==> val_wf(vview(#[trigger] out@[k])),
                            out@.len() == before.len() + j,
                            forall|k: int|
                                0 <= k < before.len() ==> #[trigger] out@[k] == before[k],
                            forall|k: int|
                                before.len() <= k < out@.len() ==> vview(#[trigger] out@[k])
                                    == vview(inner_orig[k - before.len()]),
                        decreases rest@.len() - j,
                    {
                        let x = rest[j].deep_copy();
                        out.push(x);
                        j = j + 1;
                    }
                    proof {
                        crate::value::lemma_vviews(before);
                        crate::value::lemma_vviews(out@);
                        crate::value::lemma_vviews(inner_orig);
                        assert(vviews(out@) =~= vviews(before) + vviews(inner_orig));
                    }
                },
                _ => {
                    proof {
                        assert(!(vview(orig[i as int]) is Arr));
                    }
                },
            }
            i = i + 1;
        }
        proof {
            assert(orig.subrange(0, orig.len() as int) =~= orig);
            crate::value::lemma_vviews(orig);
            assert(vviews(orig)[0] == vview(orig[0]));
            assert(vviews(orig)[0] is Arr);
            crate::value::lemma_wf_build(new_level, out@);
        }
        Value::Array(Array { level: new_level, elements: out })
    } else {
        // stringify and join
        proof {
            if orig.len() > 0 {
                crate::value::lemma_vviews(orig);
                assert(vviews(orig)[0] == vview(orig[0]));
            }
        }
        let mut parts: Vec<String> = Vec::new();
        let mut i: usize = 0;
        while i < arr.elements.len()
            invariant
                i <= arr.elements@.len(),
                arr.elements@ == orig,
                level == arr.level,
                forall|k: int| 0 <= k < orig.len() ==> val_wf(vview(#[trigger] orig[k])),
                parts@.len() == i,
                forall|k: int|
                    0 <= k < i ==> (#[trigger] parts@[k])@ == spec_join_part(
                        *mode,
                        vview(orig[k]),
                    ),
            decreases arr.elements@.len() - i,
        {
            let p = join_part(mode, &arr.elements[i]);
            parts.push(p);
            i = i + 1;
        }
        let joined: String = match mode {
            JoinMode::Semantic => join_with(&parts, level.join_delimiter()),
            JoinMode::Delimiter(d) => join_with(&parts, d.as_str()),
            JoinMode::Csv => {
                if parts.len() == 0 {
                    String::new()
                } else {
                    csv_join_record(&parts)
                }
            },
        };
        proof {
            crate::value::lemma_vviews(orig);
            lemma_join_parts(*mode, vviews(orig));
            let want_parts = spec_join_parts(*mode, vviews(orig));
            assert(parts@.map_values(|p: String| p@) =~= want_parts);
            match *mode {
                JoinMode::Csv => {},
                _ => {
                    lemma_seq_join_map(parts@, want_parts, (if *mode is Semantic {
                        level.spec_join_delimiter()
                    } else {
                        mode->Delimiter_0@
                    }));
                },
            }
        }
        Value::Text(joined)
    }
}

/// `seq_join` over the views of string parts matches `join_with`'s spec.
proof fn lemma_seq_join_map(parts: Seq<String>, views: Seq<Seq<char>>, sep: Seq<char>)
    requires
        parts.map_values(|p: String| p@) == views,
    ensures
        spec_joined(parts, sep) == seq_join(views, sep),
    decreases parts.len(),
{
    if parts.len() > 0 {
        assert(parts.drop_last().map_values(|p: String| p@) =~= views.drop_last());
        lemma_seq_join_map(parts.drop_last(), views.drop_last(), sep);
        assert(parts.map_values(|p: String| p@)[parts.len() - 1] == parts.last()@);
    }
}

/// The text of string parts joined with a separator.
pub open spec fn spec_joined(parts: Seq<String>, sep: Seq<char>) -> Seq<char>
    decreases parts.len(),
{
    if parts.len() == 0 {
        Seq::<char>::empty()
    } else if parts.len() == 1 {
        parts[0]@
    } else {
        spec_joined(parts.drop_last(), sep) + sep + parts.last()@
    }
}

/// Join string parts with a separator.
fn join_with(parts: &Vec<String>, sep: &str) -> (r: String)
    ensures
        r@ == spec_joined(parts@, sep@),
{
    let mut out = String::new();
    let mut i: usize = 0;
    proof {
        assert(parts@.subrange(0, 0) =~= Seq::<String>::empty());
    }
    while i < parts.len()
        invariant
            i <= parts@.len(),
            out@ == spec_joined(parts@.subrange(0, i as int), sep@),
        decreases parts@.len() - i,
    {
        if i > 0 {
            out.append(sep);
        }
        out.append(parts[i].as_str());
        proof {
            let pre = parts@.subrange(0, i as int);
            let cur = parts@.subrange(0, i + 1);
            assert(cur.drop_last() =~= pre);
            assert(cur.last() == parts@[i as int]);
            if i == 0 {
                assert(cur.len() == 1);
                assert(cur[0] == parts@[0]);
            }
        }
        i = i + 1;
    }
    proof {
        assert(parts@.subrange(0, parts@.len() as int) =~= parts@);
    }
    out
}

/// The spec parts map `spec_join_part` over the sequence.
proof fn lemma_join_parts(mode: JoinMode, s: Seq<Val>)
    ensures
        spec_join_parts(mode, s).len() == s.len(),
        forall|i: int|
            0 <= i < s.len() ==> spec_join_parts(mode, s)[i] == spec_join_part(mode, s[i]),
    decreases s,
{
    if s.len() > 0 {
        lemma_join_parts(mode, s.drop_last());
    }
}

/// One element's text in a join.
fn join_part(mode: &JoinMode, v: &Value) -> (r: String)
    requires
        val_wf(v@),
    ensures
        r@ == spec_join_part(*mode, v@),
    decreases *v, 3int,
{
    match v {
        Value::Text(s) => s.clone(),
        Value::Number(n) => string_from_chars(&n.to_chars()),
        Value::Array(inner) => {
            let joined = join_array(mode, inner);
            match joined {
                Value::Text(s) => s,
                Value::Number(n) => string_from_chars(&n.to_chars()),
                Value::Array(_) => String::new(),
            }
        },
    }
}

/// `J<delim>`: join an array's elements with a custom delimiter, nested
/// arrays rendered as text.
pub struct JoinDelim {
    pub delimiter: String,
}

impl JoinDelim {
    pub fn new(delimiter: String) -> (r: JoinDelim)
        ensures
            r.delimiter == delimiter,
    {
        JoinDelim { delimiter }
    }

    /// Join the array's elements, rendered as text, with the delimiter.
    pub fn apply(&self, value: Value) -> (r: Value)
        requires
            val_wf(value@),
        ensures
            match value {
                Value::Array(arr) => r@ == Val::Txt(
                    texts_joined(vviews(arr.elements@), self.delimiter@),
                ),
                _ => r@ == value@,
            },
            val_wf(r@),
    {
        match value {
            Value::Array(arr) => {
                proof {
                    crate::value::lemma_arr_wf_elems(arr@);
                    crate::value::lemma_vviews(arr.elements@);
                    crate::value::lemma_wf_through(arr.level, arr.elements@);
                }
                let ghost orig = arr.elements@;
                let elems = arr.elements;
                let mut out = String::new();
                let mut i: usize = 0;
                proof {
                    assert(orig.subrange(0, 0) =~= Seq::<Value>::empty());
                    assert(vviews(orig.subrange(0, 0)) =~= Seq::<Val>::empty());
                }
                while i < elems.len()
                    invariant
                        i <= elems@.len(),
                        elems@ == orig,
                        forall|k: int| 0 <= k < orig.len() ==> val_wf(vview(#[trigger] orig[k])),
                        out@ == texts_joined(vviews(orig.subrange(0, i as int)), self.delimiter@),
                    decreases elems@.len() - i,
                {
                    proof {
                        crate::value::lemma_vviews(orig);
                    }
                    if i > 0 {
                        out.append(self.delimiter.as_str());
                    }
                    let piece = render_value(&elems[i]);
                    out.append(piece.as_str());
                    proof {
                        let pre = vviews(orig.subrange(0, i as int));
                        let cur = vviews(orig.subrange(0, i + 1));
                        crate::value::lemma_vviews(orig.subrange(0, i as int));
                        crate::value::lemma_vviews(orig.subrange(0, i + 1));
                        assert(orig.subrange(0, i + 1).drop_last() =~= orig.subrange(0, i as int));
                        assert(cur.drop_last() =~= pre);
                        assert(cur.last() == vview(orig[i as int]));
                        if i == 0 {
                            assert(cur.len() == 1);
                            assert(cur[0] == vview(orig[0]));
                        }
                    }
                    i = i + 1;
                }
                proof {
                    assert(orig.subrange(0, orig.len() as int) =~= orig);
                }
                Value::Text(out)
            },
            other => other,
        }
    }
}

} // verus!
