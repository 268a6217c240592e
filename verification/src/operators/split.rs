//! The split operators.

use vstd::prelude::*;

use crate::csvrec::{csv_fields_of, csv_split_record};
use crate::textutil::{
    delim_fields, split_delim_chars, split_ws_chars, str_chars, string_from_chars, views_of,
    ws_words,
};
use crate::value::{val_wf, vview, vviews, Array, Level, Val, Value};

verus! {

broadcast use vstd::std_specs::vec::group_vec_axioms, vstd::seq::group_seq_axioms;

/// How `s` splits text at the line level: on whitespace, on a delimiter, or
/// as one CSV record.
#[derive(Debug, Clone, PartialEq)]
pub enum SplitMode {
    Whitespace,
    Delimiter(String),
    Csv,
}

/// The pieces one line splits into under a mode.  An empty custom delimiter
/// leaves the line whole.
pub open spec fn spec_split_line(mode: SplitMode, s: Seq<char>) -> Seq<Seq<char>> {
    match mode {
        SplitMode::Whitespace => ws_words(s),
        SplitMode::Delimiter(d) => if d@.len() == 0 {
            seq![s]
        } else {
            delim_fields(s, d@)
        },
        SplitMode::Csv => csv_fields_of(s),
    }
}

/// What splitting does to a value: text becomes a Word-level array of its
/// pieces, numbers pass through, arrays are split element by element.
pub open spec fn spec_split(mode: SplitMode, v: Val) -> Val
    decreases v,
{
    match v {
        Val::Txt(s) => Val::Arr {
            level: Level::Word,
            elems: spec_split_line(mode, s).map_values(|p: Seq<char>| Val::Txt(p)),
        },
        Val::Num { .. } => v,
        Val::Arr { level, elems } => Val::Arr { level, elems: spec_split_seq(mode, elems) },
    }
}

/// Splitting mapped over a sequence of values.
pub open spec fn spec_split_seq(mode: SplitMode, s: Seq<Val>) -> Seq<Val>
    decreases s,
{
    if s.len() == 0 {
        Seq::<Val>::empty()
    } else {
        spec_split_seq(mode, s.drop_last()).push(spec_split(mode, s.last()))
    }
}

/// `spec_split_seq` maps `spec_split` over the sequence.
pub proof fn lemma_split_seq(mode: SplitMode, s: Seq<Val>)
    ensures
        spec_split_seq(mode, s).len() == s.len(),
        forall|i: int| 0 <= i < s.len() ==> spec_split_seq(mode, s)[i] == spec_split(mode, s[i]),
    decreases s,
{
    if s.len() > 0 {
        lemma_split_seq(mode, s.drop_last());
    }
}

/// Split one line into text values under a mode.
fn split_line(mode: &SplitMode, s: &String) -> (r: Vec<Value>)
    ensures
        vviews(r@) == spec_split_line(*mode, s@).map_values(|p: Seq<char>| Val::Txt(p)),
        forall|k: int| 0 <= k < r@.len() ==> val_wf(vview(#[trigger] r@[k])),
{
    let parts: Vec<String> = match mode {
        SplitMode::Whitespace => {
            let cs = str_chars(s.as_str());
            let words = split_ws_chars(&cs);
            let mut out: Vec<String> = Vec::new();
            let mut i: usize = 0;
            while i < words.len()
                invariant
                    i <= words@.len(),
                    out@.len() == i,
                    forall|k: int| 0 <= k < i ==> (#[trigger] out@[k])@ == words@[k]@,
                decreases words@.len() - i,
            {
                out.push(string_from_chars(&words[i]));
                i = i + 1;
            }
            proof {
                assert forall|k: int| 0 <= k < out@.len() implies (#[trigger] out@[k])@
                    == spec_split_line(*mode, s@)[k] by {
                    assert(views_of(words@)[k] == words@[k]@);
                }
                assert(out@.len() == spec_split_line(*mode, s@).len()) by {
                    assert(views_of(words@).len() == words@.len());
                }
            }
            out
        },
        SplitMode::Delimiter(d) => {
            if d.unicode_len() == 0 {
                let mut out: Vec<String> = Vec::new();
                out.push(s.clone());
                proof {
                    assert(out@.len() == spec_split_line(*mode, s@).len());
                    assert(out@[0]@ == spec_split_line(*mode, s@)[0]);
                }
                out
            } else {
                let cs = str_chars(s.as_str());
                let ds = str_chars(d.as_str());
                let fields = split_delim_chars(&cs, &ds);
                let mut out: Vec<String> = Vec::new();
                let mut i: usize = 0;
                while i < fields.len()
                    invariant
                        i <= fields@.len(),
                        out@.len() == i,
                        forall|k: int| 0 <= k < i ==> (#[trigger] out@[k])@ == fields@[k]@,
                    decreases fields@.len() - i,
                {
                    out.push(string_from_chars(&fields[i]));
                    i = i + 1;
                }
                proof {
                    assert forall|k: int| 0 <= k < out@.len() implies (#[trigger] out@[k])@
                        == spec_split_line(*mode, s@)[k] by {
                        assert(views_of(fields@)[k] == fields@[k]@);
                    }
                    assert(out@.len() == spec_split_line(*mode, s@).len()) by {
                        assert(views_of(fields@).len() == fields@.len());
                    }
                }
                out
            }
        },
        SplitMode::Csv => {
            let out = csv_split_record(s.as_str());
            proof {
                assert forall|k: int| 0 <= k < out@.len() implies (#[trigger] out@[k])@
                    == spec_split_line(*mode, s@)[k] by {
                    assert(out@.map_values(|f: String| f@)[k] == out@[k]@);
                }
                assert(out@.len() == spec_split_line(*mode, s@).len()) by {
                    assert(out@.map_values(|f: String| f@).len() == out@.len());
                }
            }
            out
        },
    };
    let mut vals: Vec<Value> = Vec::new();
    let mut i: usize = 0;
    while i < parts.len()
        invariant
            i <= parts@.len(),
            forall|k: int|
                0 <= k < parts@.len() ==> (#[trigger] parts@[k])@ == spec_split_line(*mode, s@)[k],
            parts@.len() == spec_split_line(*mode, s@).len(),
            vals@.len() == i,
            forall|k: int|
                0 <= k < i ==> vview(#[trigger] vals@[k]) == Val::Txt(
                    spec_split_line(*mode, s@)[k],
                ),
        decreases parts@.len() - i,
    {
        vals.push(Value::Text(parts[i].clone()));
        i = i + 1;
    }
    proof {
        crate::value::lemma_vviews(vals@);
        assert(vviews(vals@) =~= spec_split_line(*mode, s@).map_values(|p: Seq<char>| Val::Txt(p)));
        assert forall|k: int| 0 <= k < vals@.len() implies val_wf(vview(#[trigger] vals@[k])) by {}
    }
    vals
}

/// `s`: split text by semantic level, recursing into nested arrays down to
/// the text leaves.
pub struct Split {
    pub mode: SplitMode,
}

impl Split {
    pub fn new(mode: SplitMode) -> (r: Split)
        ensures
            r.mode == mode,
    {
        Split { mode }
    }

    /// Split every text leaf into a Word-level array of its pieces.
    pub fn apply(&self, value: Value) -> (r: Value)
        requires
            val_wf(value@),
        ensures
            r@ == spec_split(self.mode, value@),
            val_wf(r@),
    {
        split_value(&self.mode, &value)
    }
}

/// Split every text leaf of a value.
fn split_value(mode: &SplitMode, v: &Value) -> (r: Value)
    requires
        val_wf(v@),
    ensures
        r@ == spec_split(*mode, v@),
        val_wf(r@),
    decreases *v,
{
    match v {
        Value::Text(s) => {
            let vals = split_line(mode, s);
            proof {
                crate::value::lemma_vviews(vals@);
            }
            Value::Array(Array { level: Level::Word, elements: vals })
        },
        Value::Number(n) => Value::Number(*n),
        Value::Array(a) => {
            proof {
                crate::value::lemma_wf_through(a.level, a.elements@);
            }
            let out = split_elems(mode, &a.elements);
            proof {
                crate::value::lemma_vviews(out@);
                crate::value::lemma_vviews(a.elements@);
                lemma_split_seq(*mode, vviews(a.elements@));
                assert(vviews(out@) =~= spec_split_seq(*mode, vviews(a.elements@)));
                crate::value::lemma_wf_build(a.level, out@);
            }
            Value::Array(Array { level: a.level, elements: out })
        },
    }
}

/// Split every text leaf of each element.
fn split_elems(mode: &SplitMode, elems: &Vec<Value>) -> (r: Vec<Value>)
    requires
        forall|k: int| 0 <= k < elems@.len() ==> val_wf(vview(#[trigger] elems@[k])),
    ensures
        r@.len() == elems@.len(),
        forall|k: int|
            0 <= k < r@.len() ==> vview(#[trigger] r@[k]) == spec_split(*mode, vview(elems@[k])),
        forall|k: int| 0 <= k < r@.len() ==> val_wf(vview(#[trigger] r@[k])),
    decreases *elems,
{
    let mut out: Vec<Value> = Vec::new();
    let mut i: usize = 0;
    while i < elems.len()
        invariant
            i <= elems@.len(),
            forall|k: int| 0 <= k < elems@.len() ==> val_wf(vview(#[trigger] elems@[k])),
            out@.len() == i,
            forall|k: int|
                0 <= k < i ==> vview(#[trigger] out@[k]) == spec_split(*mode, vview(elems@[k])),
            forall|k: int| 0 <= k < i ==> val_wf(vview(#[trigger] out@[k])),
        decreases elems@.len() - i,
    {
        let t = split_value(mode, &elems[i]);
        out.push(t);
        i = i + 1;
    }
    out
}

/// `S<delim>`: split every text leaf on a custom delimiter, whatever the
/// `S<delim>`: split every text leaf on a custom delimiter, whatever the
/// level.
pub struct SplitDelim {
    pub delimiter: String,
}

impl SplitDelim {
    pub fn new(delimiter: String) -> (r: SplitDelim)
        ensures
            r.delimiter == delimiter,
    {
        SplitDelim { delimiter }
    }

    /// Split every text leaf on the delimiter.
    pub fn apply(&self, value: Value) -> (r: Value)
        requires
            val_wf(value@),
        ensures
            r@ == spec_split(SplitMode::Delimiter(self.delimiter), value@),
            val_wf(r@),
    {
        split_value(&SplitMode::Delimiter(self.delimiter.clone()), &value)
    }
}

} // verus!
