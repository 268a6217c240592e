//! The regex match-extraction operator.

use vstd::prelude::*;

use crate::pattern::{re_find_all_of, re_valid, regex_find_all};
use crate::render::{render_value, val_text};
use crate::value::{val_wf, vview, vviews, Array, Level, Val, Value};

verus! {

broadcast use vstd::std_specs::vec::group_vec_axioms, vstd::seq::group_seq_axioms;

/// The array of all non-overlapping matches in a text, as a Word-level
/// array of texts.
pub open spec fn spec_matches_val(pat: Seq<char>, text: Seq<char>) -> Val {
    Val::Arr {
        level: Level::Word,
        elems: re_find_all_of(pat, text).map_values(|m: Seq<char>| Val::Txt(m)),
    }
}

/// What match extraction does to a whole value: each array element is
/// replaced by the matches in its text form; a bare text or number becomes
/// the matches in its text form.
pub open spec fn spec_match_all(pat: Seq<char>, v: Val) -> Val {
    match v {
        Val::Arr { level, elems } => Val::Arr {
            level,
            elems: Seq::new(elems.len(), |i: int| spec_matches_val(pat, val_text(elems[i]))),
        },
        other => spec_matches_val(pat, val_text(other)),
    }
}

/// `m/<pattern>/`: replace each element with the array of all pattern
/// matches found in its text form.
pub struct MatchAll {
    pub pattern: String,
}

impl MatchAll {
    pub fn new(pattern: String) -> (r: MatchAll)
        requires
            re_valid(pattern@),
        ensures
            r.pattern == pattern,
    {
        MatchAll { pattern }
    }

    /// Extract all matches from one text.
    fn extract(&self, text: &String) -> (r: Value)
        requires
            re_valid(self.pattern@),
        ensures
            r@ == spec_matches_val(self.pattern@, text@),
            val_wf(r@),
    {
        let found = regex_find_all(self.pattern.as_str(), text.as_str());
        let mut out: Vec<Value> = Vec::new();
        let mut i: usize = 0;
        let ghost want = re_find_all_of(self.pattern@, text@);
        while i < found.len()
            invariant
                i <= found@.len(),
                found@.map_values(|m: String| m@) == want,
                out@.len() == i,
                forall|k: int|
                    0 <= k < i ==> vview(#[trigger] out@[k]) == Val::Txt(want[k]),
            decreases found@.len() - i,
        {
            proof {
                assert(found@.map_values(|m: String| m@)[i as int] == found@[i as int]@);
            }
            out.push(Value::Text(found[i].clone()));
            i = i + 1;
        }
        proof {
            crate::value::lemma_vviews(out@);
            assert(vviews(out@) =~= want.map_values(|m: Seq<char>| Val::Txt(m)));
            crate::value::lemma_wf_build(Level::Word, out@);
        }
        Value::Array(Array { level: Level::Word, elements: out })
    }

    /// Replace each element with the array of its matches.
    pub fn apply(&self, value: Value) -> (r: Value)
        requires
            val_wf(value@),
            re_valid(self.pattern@),
        ensures
            r@ == spec_match_all(self.pattern@, value@),
            val_wf(r@),
    {
        match value {
            Value::Array(arr) => {
                proof {
                    crate::value::lemma_arr_wf_elems(arr@);
                    crate::value::lemma_vviews(arr.elements@);
                    crate::value::lemma_wf_through(arr.level, arr.elements@);
                }
                let ghost orig = arr.elements@;
                let level = arr.level;
                let elems = arr.elements;
                let mut out: Vec<Value> = Vec::new();
                let mut i: usize = 0;
                while i < elems.len()
                    invariant
                        i <= elems@.len(),
                        elems@ == orig,
                        re_valid(self.pattern@),
                        forall|k: int| 0 <= k < orig.len() ==> val_wf(vview(#[trigger] orig[k])),
                        forall|k: int| 0 <= k < out@.len() ==> val_wf(vview(#[trigger] out@[k])),
                        out@.len() == i,
                        forall|k: int|
                            0 <= k < i ==> vview(#[trigger] out@[k]) == spec_matches_val(
                                self.pattern@,
                                val_text(vview(orig[k])),
                            ),
                    decreases elems@.len() - i,
                {
                    let text = render_value(&elems[i]);
                    let m = self.extract(&text);
                    out.push(m);
                    i = i + 1;
                }
                proof {
                    crate::value::lemma_vviews(out@);
                    let want = spec_match_all(self.pattern@, value@);
                    assert(vviews(out@) =~= want->Arr_elems);
                    crate::value::lemma_wf_build(level, out@);
                }
                Value::Array(Array { level, elements: out })
            },
            Value::Text(s) => self.extract(&s),
            Value::Number(n) => {
                let text = render_value(&Value::Number(n));
                self.extract(&text)
            },
        }
    }
}

} // verus!
