//! Data model: values, arrays, and semantic levels.

use vstd::prelude::*;

use crate::num::{num_wf, Number, NumModel};

verus! {

broadcast use vstd::std_specs::vec::group_vec_axioms, vstd::seq::group_seq_axioms;

/// Semantic level of array contents.  It determines what unit `split`
/// decomposes text into and what delimiter `join` uses to reconstruct it.
#[derive(Debug, Clone, Copy, PartialEq, Eq, Structural)]
pub enum Level {
    File,
    Line,
    Word,
    Char,
}

impl Level {
    /// The level of elements produced when splitting at this level.
    pub fn split_into(self) -> (r: Level)
        ensures
            r == self.spec_split_into(),
    {
        match self {
            Level::File => Level::Line,
            Level::Line => Level::Word,
            Level::Word => Level::Char,
            Level::Char => Level::Char,
        }
    }

    /// The parent level: what contains elements of this level.
    pub fn parent(self) -> (r: Level)
        ensures
            r == self.spec_parent(),
    {
        match self {
            Level::File => Level::File,
            Level::Line => Level::File,
            Level::Word => Level::Line,
            Level::Char => Level::Word,
        }
    }

    /// The delimiter used when joining elements of this level: lines are
    /// joined with newlines, words with spaces, characters with nothing.
    pub fn join_delimiter(self) -> (r: &'static str)
        ensures
            r@ == self.spec_join_delimiter(),
    {
        proof {
            reveal_strlit("\n");
            reveal_strlit(" ");
            reveal_strlit("");
        }
        match self {
            Level::File => "\n",
            Level::Line => "\n",
            Level::Word => " ",
            Level::Char => "",
        }
    }

    pub open spec fn spec_split_into(self) -> Level {
        match self {
            Level::File => Level::Line,
            Level::Line => Level::Word,
            Level::Word => Level::Char,
            Level::Char => Level::Char,
        }
    }

    pub open spec fn spec_parent(self) -> Level {
        match self {
            Level::File => Level::File,
            Level::Line => Level::File,
            Level::Word => Level::Line,
            Level::Char => Level::Word,
        }
    }

    pub open spec fn spec_join_delimiter(self) -> Seq<char> {
        match self {
            Level::File => seq!['\n'],
            Level::Line => seq!['\n'],
            Level::Word => seq![' '],
            Level::Char => Seq::<char>::empty(),
        }
    }
}

/// A value in the language: an array of values tagged with a level, a piece
/// of text, or a number.
#[derive(Debug, PartialEq)]
pub enum Value {
    Array(Array),
    Text(String),
    Number(Number),
}

/// An array of values with a semantic level.
#[derive(Debug, PartialEq)]
pub struct Array {
    pub level: Level,
    pub elements: Vec<Value>,
}

/// The mathematical shape of a `Value`.
#[verifier::ext_equal]
pub enum Val {
    Num { m: int, s: nat },
    Txt(Seq<char>),
    Arr { level: Level, elems: Seq<Val> },
}

/// The model of a value.
pub open spec fn vview(v: Value) -> Val
    decreases v,
{
    match v {
        Value::Number(n) => Val::Num { m: n@.m, s: n@.s },
        Value::Text(s) => Val::Txt(s@),
        Value::Array(a) => Val::Arr { level: a.level, elems: vviews(a.elements@) },
    }
}

/// The models of a sequence of values, element by element.
pub open spec fn vviews(s: Seq<Value>) -> Seq<Val>
    decreases s,
{
    if s.len() == 0 {
        Seq::<Val>::empty()
    } else {
        vviews(s.drop_last()).push(vview(s.last()))
    }
}

/// `vviews` maps `vview` over the sequence.
pub proof fn lemma_vviews(s: Seq<Value>)
    ensures
        vviews(s).len() == s.len(),
        forall|i: int| 0 <= i < s.len() ==> vviews(s)[i] == vview(s[i]),
    decreases s,
{
    if s.len() > 0 {
        lemma_vviews(s.drop_last());
    }
}

impl View for Value {
    type V = Val;

    open spec fn view(&self) -> Val {
        vview(*self)
    }
}

impl View for Array {
    type V = Val;

    open spec fn view(&self) -> Val {
        Val::Arr { level: self.level, elems: vviews(self.elements@) }
    }
}

/// Every number inside the value is normalized.
pub open spec fn val_wf(v: Val) -> bool
    decreases v,
{
    match v {
        Val::Num { m, s } => num_wf(NumModel { m, s }),
        Val::Txt(_) => true,
        Val::Arr { level, elems } => forall|i: int| 0 <= i < elems.len() ==> val_wf(#[trigger] elems[i]),
    }
}

/// Each element of a well-formed array is well-formed.
pub proof fn lemma_arr_wf_elems(v: Val)
    requires
        val_wf(v),
        v is Arr,
    ensures
        forall|i: int| 0 <= i < v->Arr_elems.len() ==> val_wf(#[trigger] v->Arr_elems[i]),
{
}

/// Where an array value is well-formed, each of its element values is.
pub proof fn lemma_wf_through(level: Level, s: Seq<Value>)
    requires
        val_wf(Val::Arr { level, elems: vviews(s) }),
    ensures
        forall|k: int| 0 <= k < s.len() ==> val_wf(vview(#[trigger] s[k])),
{
    lemma_arr_wf_elems(Val::Arr { level, elems: vviews(s) });
    lemma_vviews(s);
    assert forall|k: int| 0 <= k < s.len() implies val_wf(vview(#[trigger] s[k])) by {
        assert(val_wf((Val::Arr { level, elems: vviews(s) })->Arr_elems[k]));
    }
}

/// An array of well-formed element values is well-formed.
pub proof fn lemma_wf_build(level: Level, s: Seq<Value>)
    requires
        forall|k: int| 0 <= k < s.len() ==> val_wf(vview(#[trigger] s[k])),
    ensures
        val_wf(Val::Arr { level, elems: vviews(s) }),
{
    lemma_vviews(s);
    assert forall|k: int| 0 <= k < vviews(s).len() implies val_wf(#[trigger] vviews(s)[k]) by {
        assert(vviews(s)[k] == vview(s[k]));
    }
}

/// Whether a value counts as empty: empty text and empty arrays are, numbers
/// never are.
pub open spec fn val_is_empty(v: Val) -> bool {
    match v {
        Val::Num { .. } => false,
        Val::Txt(s) => s.len() == 0,
        Val::Arr { elems, .. } => elems.len() == 0,
    }
}

impl Value {
    /// An explicit deep copy; the type is deliberately not `Clone` so that
    /// true duplication stays visible at its call sites.
    pub fn deep_copy(&self) -> (r: Value)
        ensures
            r@ == self@,
        decreases *self,
    {
        match self {
            Value::Number(n) => Value::Number(*n),
            Value::Text(s) => Value::Text(s.clone()),
            Value::Array(a) => Value::Array(a.deep_copy()),
        }
    }

    /// Replace this value with another.
    pub fn replace(&mut self, new: Value)
        ensures
            *final(self) == new,
    {
        *self = new;
    }

    /// Whether the value is empty: the empty string and the empty array are,
    /// numbers (zero included) are not.
    pub fn is_empty(&self) -> (r: bool)
        ensures
            r == val_is_empty(self@),
    {
        match self {
            Value::Text(s) => s.unicode_len() == 0,
            Value::Array(arr) => arr.is_empty(),
            Value::Number(_) => false,
        }
    }
}

impl Array {
    /// An empty array at the given level.
    pub fn new(level: Level) -> (r: Array)
        ensures
            r@ == (Val::Arr { level, elems: Seq::<Val>::empty() }),
    {
        Array { level, elements: Vec::new() }
    }

    /// An array from its parts.
    pub fn from_parts(elements: Vec<Value>, level: Level) -> (r: Array)
        ensures
            r@ == (Val::Arr { level, elems: vviews(elements@) }),
            r.level == level,
            r.elements@ == elements@,
    {
        Array { level, elements }
    }

    /// An explicit deep copy of every element.
    pub fn deep_copy(&self) -> (r: Array)
        ensures
            r@ == self@,
            r.level == self.level,
            r.elements@.len() == self.elements@.len(),
        decreases *self,
    {
        let mut out: Vec<Value> = Vec::new();
        let mut i: usize = 0;
        while i < self.elements.len()
            invariant
                i <= self.elements@.len(),
                out@.len() == i,
                forall|j: int| 0 <= j < i ==> vview(#[trigger] out@[j]) == vview(
                    self.elements@[j],
                ),
            decreases self.elements@.len() - i,
        {
            out.push(self.elements[i].deep_copy());
            i = i + 1;
        }
        proof {
            lemma_vviews(out@);
            lemma_vviews(self.elements@);
            assert(vviews(out@) =~= vviews(self.elements@));
        }
        Array { level: self.level, elements: out }
    }

    /// Element by index; a negative index counts from the end.
    pub fn get(&self, index: i64) -> (r: Option<&Value>)
        ensures
            match r {
                Some(v) => {
                    let n = self.elements@.len() as int;
                    let actual = if index < 0 {
                        index + n
                    } else {
                        index as int
                    };
                    0 <= actual < n && *v == self.elements@[actual]
                },
                None => {
                    let n = self.elements@.len() as int;
                    let actual = if index < 0 {
                        index + n
                    } else {
                        index as int
                    };
                    !(0 <= actual < n)
                },
            },
    {
        let len = self.elements.len();
        if index < 0 {
            let actual = index as i128 + len as i128;
            if actual >= 0 {
                Some(&self.elements[actual as usize])
            } else {
                None
            }
        } else {
            if (index as u64) < (len as u64) {
                Some(&self.elements[index as usize])
            } else {
                None
            }
        }
    }

    /// The number of elements.
    pub fn len(&self) -> (r: usize)
        ensures
            r == self.elements@.len(),
    {
        self.elements.len()
    }

    /// Whether the array holds no elements.
    pub fn is_empty(&self) -> (r: bool)
        ensures
            r == (self.elements@.len() == 0),
    {
        self.elements.len() == 0
    }
}

impl From<(Vec<Value>, Level)> for Array {
    fn from(parts: (Vec<Value>, Level)) -> (r: Array) {
        Array { level: parts.1, elements: parts.0 }
    }
}

impl vstd::std_specs::convert::FromSpecImpl<(Vec<Value>, Level)> for Array {
    open spec fn obeys_from_spec() -> bool {
        true
    }

    open spec fn from_spec(parts: (Vec<Value>, Level)) -> Array {
        Array { level: parts.1, elements: parts.0 }
    }
}

} // verus!
