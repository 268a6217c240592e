//! The interpreter: compiled operators, the execution context, and the
//! left-to-right fold that runs a programme.

use vstd::prelude::*;

use crate::ast::{Operator, Programme, SelectItem, Selection};
use crate::error::{Error, TResult};
use crate::num::NumModel;
use crate::operators::case::{Lowercase, LowercaseSelected, Uppercase, UppercaseSelected};
use crate::operators::columnate::{spec_columnate, Columnate};
use crate::operators::count::{spec_count, Count};
use crate::operators::dedupe::{spec_dedupe_counts, spec_dedupe_sel, Dedupe, DedupeSelectionWithCounts, DedupeWithCounts};
use crate::operators::delete_empty::{spec_delete_empty, DeleteEmpty};
use crate::operators::filter::{spec_filter, Filter};
use crate::operators::flatten::{spec_flatten, Flatten};
use crate::operators::group::{spec_group_by, GroupBy};
use crate::operators::join::{spec_join, Join, JoinDelim, JoinMode};
use crate::operators::match_all::{spec_match_all, MatchAll};
use crate::operators::navigate::{Ascend, Descend};
use crate::operators::number::{ToNumber, ToNumberSelected};
use crate::operators::partition::{spec_partition, Partition};
use crate::operators::replace::Replace;
use crate::operators::select::{
    spec_apply_selected, spec_map_leaves, spec_select, LeafOp, Select,
};
use crate::operators::sort::{SortAscending, SortDescending};
use crate::operators::split::{spec_split, Split, SplitDelim, SplitMode};
use crate::operators::sum::{spec_sum_into, Sum};
use crate::operators::trim::{Trim, TrimSelected};
use crate::order::spec_sort;
use crate::pattern::{re_error_of, re_valid, regex_compile_error};
use crate::render::texts_joined;
use crate::textutil::push_char;
use crate::value::{val_wf, Val, Value};

verus! {

broadcast use vstd::std_specs::vec::group_vec_axioms, vstd::seq::group_seq_axioms;

/// The configuration the compiler resolves: how `s` splits and how `j`
/// joins.
#[derive(Debug, Clone, PartialEq)]
pub struct CompileConfig {
    pub split_mode: SplitMode,
    pub join_mode: JoinMode,
}

/// A compiled operator: a closed sum over every operator the language has,
/// dispatched by one match in the interpreter loop.
pub enum Op {
    Split(Split),
    SplitDelim(SplitDelim),
    Join(Join),
    JoinDelim(JoinDelim),
    Descend(Descend),
    Ascend(Ascend),
    Lowercase(Lowercase),
    LowercaseSelected(LowercaseSelected),
    Uppercase(Uppercase),
    UppercaseSelected(UppercaseSelected),
    Trim(Trim),
    TrimSelected(TrimSelected),
    ToNumber(ToNumber),
    ToNumberSelected(ToNumberSelected),
    Replace(Replace),
    DeleteEmpty(DeleteEmpty),
    Flatten(Flatten),
    Dedupe(Dedupe),
    DedupeWithCounts(DedupeWithCounts),
    DedupeSelectionWithCounts(DedupeSelectionWithCounts),
    Sum(Sum),
    Count(Count),
    Columnate(Columnate),
    Partition(Partition),
    SortDescending(SortDescending),
    SortAscending(SortAscending),
    Select(Select),
    Filter(Filter),
    MatchAll(MatchAll),
    GroupBy(GroupBy),
    NoOp,
}

/// Every regex an operator carries is one the regex crate accepts, so a
/// compiled programme never stumbles over a pattern at run time.
pub open spec fn op_wf(op: Op) -> bool {
    match op {
        Op::Replace(rp) => re_valid(rp.pattern@),
        Op::Filter(f) => re_valid(f.pattern@),
        Op::MatchAll(m) => re_valid(m.pattern@),
        _ => true,
    }
}

/// Whether the operator moves the depth instead of the value.
pub open spec fn spec_is_navigation(op: Op) -> bool {
    op is Descend || op is Ascend
}

/// What one transform operator does to a value.
pub open spec fn spec_transform(op: Op, v: Val) -> Result<Val, Seq<char>> {
    match op {
        Op::Split(s) => Ok(spec_split(s.mode, v)),
        Op::SplitDelim(s) => Ok(spec_split(SplitMode::Delimiter(s.delimiter), v)),
        Op::Join(j) => Ok(spec_join(j.mode, v)),
        Op::JoinDelim(j) => Ok(
            match v {
                Val::Arr { elems, .. } => Val::Txt(texts_joined(elems, j.delimiter@)),
                other => other,
            },
        ),
        Op::Lowercase(_) => Ok(spec_map_leaves(LeafOp::Lower, v)),
        Op::LowercaseSelected(x) => Ok(spec_selected(LeafOp::Lower, x.selection.items@, v)),
        Op::Uppercase(_) => Ok(spec_map_leaves(LeafOp::Upper, v)),
        Op::UppercaseSelected(x) => Ok(spec_selected(LeafOp::Upper, x.selection.items@, v)),
        Op::Trim(_) => Ok(spec_map_leaves(LeafOp::Trim, v)),
        Op::TrimSelected(x) => Ok(spec_selected(LeafOp::Trim, x.selection.items@, v)),
        Op::ToNumber(_) => Ok(spec_map_leaves(LeafOp::ToNumber, v)),
        Op::ToNumberSelected(x) => Ok(spec_selected(LeafOp::ToNumber, x.selection.items@, v)),
        Op::Replace(rp) => Ok(
            match rp.selection {
                Some(sel) => spec_selected(rp.leaf(), sel.items@, v),
                None => spec_map_leaves(rp.leaf(), v),
            },
        ),
        Op::DeleteEmpty(_) => Ok(
            match v {
                Val::Arr { level, elems } => Val::Arr { level, elems: spec_delete_empty(elems) },
                other => other,
            },
        ),
        Op::Flatten(_) => Ok(
            match v {
                Val::Arr { level, elems } => Val::Arr { level, elems: spec_flatten(elems) },
                other => other,
            },
        ),
        Op::Dedupe(_) => Ok(
            match v {
                Val::Arr { level, elems } => Val::Arr {
                    level,
                    elems: crate::operators::dedupe::uniq_vals(elems),
                },
                other => other,
            },
        ),
        Op::DedupeWithCounts(_) => match v {
            Val::Arr { elems, .. } => if elems.len() > 0x7fff_ffff_ffff_ffff {
                Err("count does not fit a number"@)
            } else {
                Ok(spec_dedupe_counts(elems))
            },
            other => Ok(other),
        },
        Op::DedupeSelectionWithCounts(d) => match v {
            Val::Arr { elems, .. } => if elems.len() > 0x7fff_ffff_ffff_ffff {
                Err("count does not fit a number"@)
            } else {
                spec_dedupe_sel(d.selection.items@, elems)
            },
            other => Ok(other),
        },
        Op::Sum(_) => match spec_sum_into(NumModel { m: 0, s: 0 }, v) {
            Some(nm) => Ok(Val::Num { m: nm.m, s: nm.s }),
            None => Err("sum does not fit a number"@),
        },
        Op::Count(_) => if spec_count(v) > 0x7fff_ffff_ffff_ffff {
            Err("count does not fit a number"@)
        } else {
            Ok(Val::Num { m: spec_count(v), s: 0 })
        },
        Op::Columnate(_) => Ok(
            match v {
                Val::Arr { level, elems } => spec_columnate(level, elems),
                other => other,
            },
        ),
        Op::Partition(p) => Ok(spec_partition(p.selection.items@, v)),
        Op::SortDescending(_) => Ok(
            match v {
                Val::Arr { level, elems } => Val::Arr { level, elems: spec_sort(true, elems) },
                other => other,
            },
        ),
        Op::SortAscending(_) => Ok(
            match v {
                Val::Arr { level, elems } => Val::Arr { level, elems: spec_sort(false, elems) },
                other => other,
            },
        ),
        Op::Select(s) => spec_select(s.selection.items@, v),
        Op::Filter(f) => Ok(
            match v {
                Val::Arr { level, elems } => Val::Arr {
                    level,
                    elems: spec_filter(f.pattern@, f.negate, elems),
                },
                other => other,
            },
        ),
        Op::MatchAll(m) => Ok(spec_match_all(m.pattern@, v)),
        Op::GroupBy(g) => match v {
            Val::Arr { level, elems } => spec_group_by(g.selection.items@, level, elems),
            other => Ok(other),
        },
        Op::NoOp => Ok(v),
        Op::Descend(_) => Ok(v),
        Op::Ascend(_) => Ok(v),
    }
}

/// A leaf transformation on the selected elements of an array; anything
/// else passes through.
pub open spec fn spec_selected(op: LeafOp, items: Seq<crate::ast::SelectItem>, v: Val) -> Val {
    match v {
        Val::Arr { level, elems } => spec_apply_selected(op, level, elems, items),
        other => other,
    }
}

/// A transform applied at a depth: at zero directly; deeper, mapped over
/// the elements of an array (a non-array passes through unchanged), the
/// first error winning.
pub open spec fn spec_at_depth(op: Op, v: Val, depth: nat) -> Result<Val, Seq<char>>
    decreases depth, v, 1int,
{
    if depth == 0 {
        spec_transform(op, v)
    } else {
        match v {
            Val::Arr { level, elems } => match spec_at_depth_seq(op, elems, depth) {
                Ok(es) => Ok(Val::Arr { level, elems: es }),
                Err(e) => Err(e),
            },
            other => Ok(other),
        }
    }
}

/// A transform mapped at depth over a sequence of values.
pub open spec fn spec_at_depth_seq(op: Op, elems: Seq<Val>, depth: nat) -> Result<
    Seq<Val>,
    Seq<char>,
>
    decreases depth, elems, 0int,
{
    if depth == 0 || elems.len() == 0 {
        Ok(Seq::<Val>::empty())
    } else {
        match spec_at_depth(op, elems.first(), (depth - 1) as nat) {
            Ok(e2) => match spec_at_depth_seq(op, elems.drop_first(), depth) {
                Ok(rest) => Ok(seq![e2] + rest),
                Err(e) => Err(e),
            },
            Err(e) => Err(e),
        }
    }
}

/// What a whole programme does: the value, the depth, and the first error
/// if one stops the run early; the value then reflects the operators that
/// succeeded before it.
pub open spec fn spec_run(ops: Seq<Op>, v: Val, depth: nat) -> (Val, nat, Option<Seq<char>>)
    decreases ops.len(),
{
    if ops.len() == 0 {
        (v, depth, None)
    } else {
        let op = ops.first();
        if op is Descend {
            spec_run(
                ops.drop_first(),
                v,
                if depth < usize::MAX {
                    depth + 1
                } else {
                    depth
                },
            )
        } else if op is Ascend {
            spec_run(
                ops.drop_first(),
                v,
                if depth > 0 {
                    (depth - 1) as nat
                } else {
                    0
                },
            )
        } else {
            match spec_at_depth(op, v, depth) {
                Ok(v2) => spec_run(ops.drop_first(), v2, depth),
                Err(e) => (v, depth, Some(e)),
            }
        }
    }
}

/// Execution context: the root value being transformed, and the depth at
/// which transforms apply.
pub struct Context {
    root: Option<Value>,
    depth: usize,
}

impl Context {
    /// The root value's model, where one is held.
    pub closed spec fn root_of(&self) -> Option<Val> {
        match self.root {
            Some(v) => Some(v@),
            None => None,
        }
    }

    /// The current depth.
    pub closed spec fn depth_of(&self) -> nat {
        self.depth as nat
    }

    /// Every number in the root is normalized.
    pub open spec fn wf(&self) -> bool {
        self.root_of() matches Some(v) && val_wf(v)
    }

    /// A fresh context over a root value, at depth zero.
    pub fn new(root: Value) -> (r: Context)
        ensures
            r.root_of() == Some(root@),
            r.depth_of() == 0,
    {
        Context { root: Some(root), depth: 0 }
    }

    /// Consume the context and yield the final value.
    pub fn into_value(self) -> (r: Value)
        requires
            self.root_of() is Some,
        ensures
            Some(r@) == self.root_of(),
    {
        match self.root {
            Some(v) => v,
            None => unreached(),
        }
    }

    /// The current depth.
    pub fn depth(&self) -> (r: usize)
        ensures
            r as nat == self.depth_of(),
    {
        self.depth
    }

    /// Descend one level.
    pub fn descend(&mut self)
        ensures
            final(self).depth_of() == if old(self).depth_of() < usize::MAX {
                old(self).depth_of() + 1
            } else {
                old(self).depth_of()
            },
            final(self).root_of() == old(self).root_of(),
    {
        if self.depth < usize::MAX {
            self.depth = self.depth + 1;
        }
    }

    /// Ascend one level, saturating at the root.
    pub fn ascend(&mut self)
        ensures
            final(self).depth_of() == if old(self).depth_of() > 0 {
                (old(self).depth_of() - 1) as nat
            } else {
                0
            },
            final(self).root_of() == old(self).root_of(),
    {
        if self.depth > 0 {
            self.depth = self.depth - 1;
        }
    }

    /// Apply one transform operator at the current depth.
    pub fn execute(&mut self, op: &Op) -> (r: TResult<()>)
        requires
            old(self).wf(),
            op_wf(*op),
        ensures
            final(self).depth_of() == old(self).depth_of(),
            match r {
                Ok(_) => spec_at_depth(*op, old(self).root_of().unwrap(), old(self).depth_of())
                    == Ok::<Val, Seq<char>>(final(self).root_of().unwrap()) && final(self).wf(),
                Err(e) => spec_at_depth(*op, old(self).root_of().unwrap(), old(self).depth_of())
                    == Err::<Val, Seq<char>>(e.message@) && *final(self) == *old(self),
            },
    {
        let root = match &self.root {
            Some(v) => v,
            None => unreached(),
        };
        match replace_at_depth(op, root, self.depth) {
            Ok(v) => {
                self.root = Some(v);
                Ok(())
            },
            Err(e) => Err(e),
        }
    }
}

/// Apply a transform at a depth: at zero directly, deeper mapped over array
/// elements, non-arrays passing through.
#[verifier::rlimit(100)]
fn replace_at_depth(op: &Op, v: &Value, depth: usize) -> (r: TResult<Value>)
    requires
        val_wf(v@),
        op_wf(*op),
    ensures
        match r {
            Ok(v2) => spec_at_depth(*op, v@, depth as nat) == Ok::<Val, Seq<char>>(v2@) && val_wf(
                v2@,
            ),
            Err(e) => spec_at_depth(*op, v@, depth as nat) == Err::<Val, Seq<char>>(e.message@),
        },
    decreases depth, *v,
{
    if depth == 0 {
        let copy = v.deep_copy();
        apply_transform(op, copy)
    } else {
        match v {
            Value::Array(a) => {
                proof {
                    crate::value::lemma_arr_wf_elems(v@);
                    crate::value::lemma_vviews(a.elements@);
                    crate::value::lemma_wf_through(a.level, a.elements@);
                }
                let ghost elems = crate::value::vviews(a.elements@);
                let mut out: Vec<Value> = Vec::new();
                let mut i: usize = 0;
                proof {
                    assert(elems.skip(0) =~= elems);
                    assert(crate::value::vviews(out@) =~= Seq::<Val>::empty());
                    assert(spec_at_depth_seq(*op, elems, depth as nat) == (
                    match spec_at_depth_seq(*op, elems.skip(0), depth as nat) {
                        Ok(rest) => Ok::<Seq<Val>, Seq<char>>(
                            crate::value::vviews(out@) + rest,
                        ),
                        Err(e) => Err::<Seq<Val>, Seq<char>>(e),
                    })) by {
                        match spec_at_depth_seq(*op, elems, depth as nat) {
                            Ok(es) => {
                                assert(crate::value::vviews(out@) + es =~= es);
                            },
                            Err(_) => {},
                        }
                    }
                }
                while i < a.elements.len()
                    invariant
                        i <= a.elements@.len(),
                        v == Value::Array(*a),
                        val_wf(v@),
                        op_wf(*op),
                        depth >= 1,
                        elems == crate::value::vviews(a.elements@),
                        elems.len() == a.elements@.len(),
                        forall|k: int|
                            0 <= k < a.elements@.len() ==> #[trigger] elems[k]
                                == crate::value::vview(a.elements@[k]),
                        forall|k: int|
                            0 <= k < a.elements@.len() ==> val_wf(
                                crate::value::vview(#[trigger] a.elements@[k]),
                            ),
                        out@.len() == i,
                        forall|k: int|
                            0 <= k < out@.len() ==> val_wf(
                                crate::value::vview(#[trigger] out@[k]),
                            ),
                        spec_at_depth_seq(*op, elems, depth as nat) == (
                        match spec_at_depth_seq(*op, elems.skip(i as int), depth as nat) {
                            Ok(rest) => Ok::<Seq<Val>, Seq<char>>(
                                crate::value::vviews(out@) + rest,
                            ),
                            Err(e) => Err::<Seq<Val>, Seq<char>>(e),
                        }),
                    decreases a.elements@.len() - i,
                {
                    proof {
                        assert(elems.skip(i as int).first() == elems[i as int]);
                        assert(elems.skip(i as int).drop_first() =~= elems.skip(i + 1));
                    }
                    match replace_at_depth(op, &a.elements[i], depth - 1) {
                        Ok(e2) => {
                            let ghost before = out@;
                            out.push(e2);
                            proof {
                                crate::value::lemma_vviews(before);
                                crate::value::lemma_vviews(out@);
                                assert(crate::value::vviews(out@) =~= crate::value::vviews(before)
                                    + seq![crate::value::vview(out@.last())]);
                                match spec_at_depth_seq(*op, elems.skip(i + 1), depth as nat) {
                                    Ok(rest2) => {
                                        assert(crate::value::vviews(before) + (seq![
                                            crate::value::vview(out@.last()),
                                        ] + rest2) =~= crate::value::vviews(out@) + rest2);
                                    },
                                    Err(_) => {},
                                }
                            }
                        },
                        Err(e) => {
                            return Err(e);
                        },
                    }
                    i = i + 1;
                }
                proof {
                    assert(elems.skip(i as int) =~= Seq::<Val>::empty());
                    crate::value::lemma_vviews(out@);
                    assert(crate::value::vviews(out@) + Seq::<Val>::empty() =~= crate::value::vviews(
                        out@,
                    ));
                    crate::value::lemma_wf_build(a.level, out@);
                }
                Ok(Value::Array(crate::value::Array { level: a.level, elements: out }))
            },
            other => {
                let copy = other.deep_copy();
                Ok(copy)
            },
        }
    }
}

/// Dispatch one transform operator.
#[verifier::rlimit(100)]
fn apply_transform(op: &Op, v: Value) -> (r: TResult<Value>)
    requires
        val_wf(v@),
        op_wf(*op),
    ensures
        match r {
            Ok(v2) => spec_transform(*op, v@) == Ok::<Val, Seq<char>>(v2@) && val_wf(v2@),
            Err(e) => spec_transform(*op, v@) == Err::<Val, Seq<char>>(e.message@),
        },
{
    let ghost v0 = v@;
    match op {
        Op::Split(x) => {
            let out = x.apply(v);
            proof {
                assert(spec_transform(*op, v0) == Ok::<Val, Seq<char>>(out@));
            }
            Ok(out)
        },
        Op::SplitDelim(x) => {
            let out = x.apply(v);
            proof {
                assert(spec_transform(*op, v0) == Ok::<Val, Seq<char>>(out@));
            }
            Ok(out)
        },
        Op::Join(x) => {
            let out = x.apply(v);
            proof {
                assert(spec_transform(*op, v0) == Ok::<Val, Seq<char>>(out@));
            }
            Ok(out)
        },
        Op::JoinDelim(x) => {
            let out = x.apply(v);
            proof {
                assert(spec_transform(*op, v0) == Ok::<Val, Seq<char>>(out@));
            }
            Ok(out)
        },
        Op::Lowercase(x) => {
            let out = x.apply(v);
            proof {
                assert(spec_transform(*op, v0) == Ok::<Val, Seq<char>>(out@));
            }
            Ok(out)
        },
        Op::LowercaseSelected(x) => {
            let out = x.apply(v);
            proof {
                assert(spec_transform(*op, v0) == Ok::<Val, Seq<char>>(out@));
            }
            Ok(out)
        },
        Op::Uppercase(x) => {
            let out = x.apply(v);
            proof {
                assert(spec_transform(*op, v0) == Ok::<Val, Seq<char>>(out@));
            }
            Ok(out)
        },
        Op::UppercaseSelected(x) => {
            let out = x.apply(v);
            proof {
                assert(spec_transform(*op, v0) == Ok::<Val, Seq<char>>(out@));
            }
            Ok(out)
        },
        Op::Trim(x) => {
            let out = x.apply(v);
            proof {
                assert(spec_transform(*op, v0) == Ok::<Val, Seq<char>>(out@));
            }
            Ok(out)
        },
        Op::TrimSelected(x) => {
            let out = x.apply(v);
            proof {
                assert(spec_transform(*op, v0) == Ok::<Val, Seq<char>>(out@));
            }
            Ok(out)
        },
        Op::ToNumber(x) => {
            let out = x.apply(v);
            proof {
                assert(spec_transform(*op, v0) == Ok::<Val, Seq<char>>(out@));
            }
            Ok(out)
        },
        Op::ToNumberSelected(x) => {
            let out = x.apply(v);
            proof {
                assert(spec_transform(*op, v0) == Ok::<Val, Seq<char>>(out@));
            }
            Ok(out)
        },
        Op::Replace(x) => {
            let out = x.apply(v);
            proof {
                assert(spec_transform(*op, v0) == Ok::<Val, Seq<char>>(out@));
            }
            Ok(out)
        },
        Op::DeleteEmpty(x) => {
            let out = x.apply(v);
            proof {
                assert(spec_transform(*op, v0) == Ok::<Val, Seq<char>>(out@));
            }
            Ok(out)
        },
        Op::Flatten(x) => {
            let out = x.apply(v);
            proof {
                assert(spec_transform(*op, v0) == Ok::<Val, Seq<char>>(out@));
            }
            Ok(out)
        },
        Op::Dedupe(x) => {
            let out = x.apply(v);
            proof {
                assert(spec_transform(*op, v0) == Ok::<Val, Seq<char>>(out@));
            }
            Ok(out)
        },
        Op::DedupeSelectionWithCounts(x) => {
            let out = x.apply(v);
            proof {
                if out is Ok {
                    assert(spec_transform(*op, v0) == Ok::<Val, Seq<char>>(out->Ok_0@));
                } else {
                    assert(spec_transform(*op, v0) == Err::<Val, Seq<char>>(
                        out->Err_0.message@,
                    ));
                }
            }
            out
        },
        Op::DedupeWithCounts(x) => {
            let out = x.apply(v);
            proof {
                if out is Ok {
                    assert(spec_transform(*op, v0) == Ok::<Val, Seq<char>>(out->Ok_0@));
                } else {
                    assert(spec_transform(*op, v0) == Err::<Val, Seq<char>>(
                        out->Err_0.message@,
                    ));
                }
            }
            out
        },
        Op::Sum(x) => {
            let out = x.apply(v);
            proof {
                if out is Ok {
                    assert(spec_transform(*op, v0) == Ok::<Val, Seq<char>>(out->Ok_0@));
                } else {
                    assert(spec_transform(*op, v0) == Err::<Val, Seq<char>>(
                        out->Err_0.message@,
                    ));
                }
            }
            out
        },
        Op::Count(x) => {
            let out = x.apply(v);
            proof {
                if out is Ok {
                    assert(spec_transform(*op, v0) == Ok::<Val, Seq<char>>(out->Ok_0@));
                } else {
                    assert(spec_transform(*op, v0) == Err::<Val, Seq<char>>(
                        out->Err_0.message@,
                    ));
                }
            }
            out
        },
        Op::Columnate(x) => {
            let out = x.apply(v);
            proof {
                assert(spec_transform(*op, v0) == Ok::<Val, Seq<char>>(out@));
            }
            Ok(out)
        },
        Op::Partition(x) => {
            let out = x.apply(v);
            proof {
                assert(spec_transform(*op, v0) == Ok::<Val, Seq<char>>(out@));
            }
            Ok(out)
        },
        Op::SortDescending(x) => {
            let out = x.apply(v);
            proof {
                assert(spec_transform(*op, v0) == Ok::<Val, Seq<char>>(out@));
            }
            Ok(out)
        },
        Op::SortAscending(x) => {
            let out = x.apply(v);
            proof {
                assert(spec_transform(*op, v0) == Ok::<Val, Seq<char>>(out@));
            }
            Ok(out)
        },
        Op::Select(x) => {
            let out = x.apply(v);
            proof {
                if out is Ok {
                    assert(spec_transform(*op, v0) == Ok::<Val, Seq<char>>(out->Ok_0@));
                } else {
                    assert(spec_transform(*op, v0) == Err::<Val, Seq<char>>(
                        out->Err_0.message@,
                    ));
                }
            }
            out
        },
        Op::Filter(x) => {
            let out = x.apply(v);
            proof {
                assert(spec_transform(*op, v0) == Ok::<Val, Seq<char>>(out@));
            }
            Ok(out)
        },
        Op::MatchAll(x) => {
            let out = x.apply(v);
            proof {
                assert(spec_transform(*op, v0) == Ok::<Val, Seq<char>>(out@));
            }
            Ok(out)
        },
        Op::GroupBy(x) => {
            let out = x.apply(v);
            proof {
                if out is Ok {
                    assert(spec_transform(*op, v0) == Ok::<Val, Seq<char>>(out->Ok_0@));
                } else {
                    assert(spec_transform(*op, v0) == Err::<Val, Seq<char>>(
                        out->Err_0.message@,
                    ));
                }
            }
            out
        },
        Op::NoOp => Ok(v),
        Op::Descend(_) => Ok(v),
        Op::Ascend(_) => Ok(v),
    }
}

/// Whether the operator moves the depth instead of the value.
pub fn is_navigation(op: &Op) -> (r: bool)
    ensures
        r == spec_is_navigation(*op),
{
    match op {
        Op::Descend(_) => true,
        Op::Ascend(_) => true,
        _ => false,
    }
}

/// Whether an operator's correctness needs the whole input: true for the
/// operators that look at every element, such as sort, dedupe, count, sum,
/// group-by and columnate.
pub fn requires_full_input(op: &Op) -> (r: bool)
    ensures
        r == (op is Dedupe || op is DedupeWithCounts || op is DedupeSelectionWithCounts
            || op is Sum || op is Count || op is Columnate || op is SortDescending
            || op is SortAscending || op is GroupBy),
{
    match op {
        Op::Dedupe(_) => true,
        Op::DedupeWithCounts(_) => true,
        Op::DedupeSelectionWithCounts(_) => true,
        Op::Sum(_) => true,
        Op::Count(_) => true,
        Op::Columnate(_) => true,
        Op::SortDescending(_) => true,
        Op::SortAscending(_) => true,
        Op::GroupBy(_) => true,
        _ => false,
    }
}

/// Run a compiled programme over a context: a strict left-to-right fold;
/// the first failing operator stops the run, the context keeping whatever
/// the operators before it produced.
pub fn run(ops: &Vec<Op>, ctx: &mut Context) -> (r: TResult<()>)
    requires
        old(ctx).wf(),
        forall|k: int| 0 <= k < ops@.len() ==> op_wf(#[trigger] ops@[k]),
    ensures
        ({
            let (fv, fd, err) = spec_run(
                ops@,
                old(ctx).root_of().unwrap(),
                old(ctx).depth_of(),
            );
            final(ctx).root_of() == Some(fv) && final(ctx).depth_of() == fd && final(ctx).wf()
                && (match r {
                Ok(_) => err is None,
                Err(e) => err == Some(e.message@),
            })
        }),
{
    let mut i: usize = 0;
    proof {
        assert(ops@.skip(0) =~= ops@);
    }
    while i < ops.len()
        invariant
            i <= ops@.len(),
            ctx.wf(),
            forall|k: int| 0 <= k < ops@.len() ==> op_wf(#[trigger] ops@[k]),
            spec_run(ops@.skip(i as int), ctx.root_of().unwrap(), ctx.depth_of()) == spec_run(
                ops@,
                old(ctx).root_of().unwrap(),
                old(ctx).depth_of(),
            ),
        decreases ops@.len() - i,
    {
        proof {
            assert(ops@.skip(i as int).first() == ops@[i as int]);
            assert(ops@.skip(i as int).drop_first() =~= ops@.skip(i + 1));
        }
        let op = &ops[i];
        if is_navigation(op) {
            match op {
                Op::Descend(d) => d.apply(ctx),
                Op::Ascend(a) => a.apply(ctx),
                _ => {},
            }
        } else {
            match ctx.execute(op) {
                Ok(_) => {},
                Err(e) => {
                    return Err(e);
                },
            }
        }
        i = i + 1;
    }
    proof {
        assert(ops@.skip(i as int) =~= Seq::<Op>::empty());
    }
    Ok(())
}

/// The text of the compile error for a pattern the regex crate rejects.
pub open spec fn invalid_regex_text(pat: Seq<char>) -> Seq<char> {
    "invalid regex '"@ + pat + "': "@ + re_error_of(pat)
}

/// Two split modes that behave alike: the same kind, delimiters with the
/// same text.
pub open spec fn split_mode_matches(a: SplitMode, b: SplitMode) -> bool {
    match (a, b) {
        (SplitMode::Whitespace, SplitMode::Whitespace) => true,
        (SplitMode::Csv, SplitMode::Csv) => true,
        (SplitMode::Delimiter(x), SplitMode::Delimiter(y)) => x@ == y@,
        _ => false,
    }
}

/// Two join modes that behave alike.
pub open spec fn join_mode_matches(a: JoinMode, b: JoinMode) -> bool {
    match (a, b) {
        (JoinMode::Semantic, JoinMode::Semantic) => true,
        (JoinMode::Csv, JoinMode::Csv) => true,
        (JoinMode::Delimiter(x), JoinMode::Delimiter(y)) => x@ == y@,
        _ => false,
    }
}

/// Whether any regex the operator carries compiles; compilation fails on
/// exactly the operators where this is false.
pub open spec fn op_regex_ok(src: Operator) -> bool {
    match src {
        Operator::Replace { pattern, .. } => re_valid(pattern@),
        Operator::Filter { pattern, .. } => re_valid(pattern@),
        Operator::Match { pattern } => re_valid(pattern@),
        _ => true,
    }
}

/// The pattern an operator carries, where it carries one.
pub open spec fn op_regex_pattern(src: Operator) -> Seq<char> {
    match src {
        Operator::Replace { pattern, .. } => pattern@,
        Operator::Filter { pattern, .. } => pattern@,
        Operator::Match { pattern } => pattern@,
        _ => Seq::<char>::empty(),
    }
}

/// What the compiled form of one syntactic operator looks like: the same
/// operator, its delimiters, selections and patterns carried over by text,
/// split and join bound to the configuration.
pub open spec fn compiles_to(src: Operator, cfg: CompileConfig, op: Op) -> bool {
    match src {
        Operator::Split => op matches Op::Split(s) && split_mode_matches(s.mode, cfg.split_mode),
        Operator::SplitDelim(d) => op matches Op::SplitDelim(x) && x.delimiter@ == d@,
        Operator::Join => op matches Op::Join(j) && join_mode_matches(j.mode, cfg.join_mode),
        Operator::JoinDelim(d) => op matches Op::JoinDelim(x) && x.delimiter@ == d@,
        Operator::Descend => op is Descend,
        Operator::Ascend => op is Ascend,
        Operator::Uppercase => op is Uppercase,
        Operator::UppercaseSelected(sel) => op matches Op::UppercaseSelected(x) && x.selection.items@ == sel.items@,
        Operator::Lowercase => op is Lowercase,
        Operator::LowercaseSelected(sel) => op matches Op::LowercaseSelected(x) && x.selection.items@ == sel.items@,
        Operator::Replace { selection, pattern, replacement } => op matches Op::Replace(rp)
            && rp.pattern@ == pattern@ && rp.replacement@ == replacement@ && re_valid(pattern@)
            && (match (rp.selection, selection) {
            (None, None) => true,
            (Some(a), Some(b)) => a.items@ == b.items@,
            _ => false,
        }),
        Operator::ToNumber => op is ToNumber,
        Operator::ToNumberSelected(sel) => op matches Op::ToNumberSelected(x) && x.selection.items@ == sel.items@,
        Operator::Trim => op is Trim,
        Operator::TrimSelected(sel) => op matches Op::TrimSelected(x) && x.selection.items@ == sel.items@,
        Operator::DeleteEmpty => op is DeleteEmpty,
        Operator::Flatten => op is Flatten,
        Operator::DedupeWithCounts => op is DedupeWithCounts,
        Operator::DedupeSelectionWithCounts(sel) => op matches Op::DedupeSelectionWithCounts(d)
            && d.selection.items@ == sel.items@,
        Operator::Sum => op is Sum,
        Operator::Count => op is Count,
        Operator::Columnate => op is Columnate,
        Operator::Partition(sel) => op matches Op::Partition(x) && x.selection.items@ == sel.items@,
        Operator::SortDescending => op is SortDescending,
        Operator::SortAscending => op is SortAscending,
        Operator::Selection(sel) => op matches Op::Select(x) && x.selection.items@ == sel.items@,
        Operator::Filter { pattern, negate } => op matches Op::Filter(f) && f.pattern@ == pattern@
            && f.negate == negate && re_valid(pattern@),
        Operator::Match { pattern } => op matches Op::MatchAll(m) && m.pattern@ == pattern@
            && re_valid(pattern@),
        Operator::GroupBy(sel) => op matches Op::GroupBy(x) && x.selection.items@ == sel.items@,
        Operator::NoOp => op is NoOp,
    }
}

/// A selection with the same items.
fn dup_selection(sel: &Selection) -> (r: Selection)
    ensures
        r.items@ == sel.items@,
{
    let mut items: Vec<SelectItem> = Vec::new();
    let mut i: usize = 0;
    while i < sel.items.len()
        invariant
            i <= sel.items@.len(),
            items@ == sel.items@.subrange(0, i as int),
        decreases sel.items@.len() - i,
    {
        items.push(sel.items[i]);
        proof {
            assert(sel.items@.subrange(0, i + 1) =~= sel.items@.subrange(0, i as int).push(
                sel.items@[i as int],
            ));
        }
        i = i + 1;
    }
    proof {
        assert(sel.items@.subrange(0, sel.items@.len() as int) =~= sel.items@);
    }
    Selection { items }
}

/// A split mode that behaves alike.
fn dup_split_mode(m: &SplitMode) -> (r: SplitMode)
    ensures
        split_mode_matches(r, *m),
{
    match m {
        SplitMode::Whitespace => SplitMode::Whitespace,
        SplitMode::Delimiter(d) => SplitMode::Delimiter(d.clone()),
        SplitMode::Csv => SplitMode::Csv,
    }
}

/// A join mode that behaves alike.
fn dup_join_mode(m: &JoinMode) -> (r: JoinMode)
    ensures
        join_mode_matches(r, *m),
{
    match m {
        JoinMode::Semantic => JoinMode::Semantic,
        JoinMode::Delimiter(d) => JoinMode::Delimiter(d.clone()),
        JoinMode::Csv => JoinMode::Csv,
    }
}

/// Compile one syntactic operator, validating any regex it carries.
fn compile_op(op: &Operator, config: &CompileConfig) -> (r: TResult<Op>)
    ensures
        match r {
            Ok(cop) => compiles_to(*op, *config, cop) && op_wf(cop) && op_regex_ok(*op),
            Err(e) => !op_regex_ok(*op) && e.message@ == invalid_regex_text(op_regex_pattern(*op)),
        },
{
    match op {
        Operator::Split => Ok(Op::Split(Split { mode: dup_split_mode(&config.split_mode) })),
        Operator::SplitDelim(d) => Ok(Op::SplitDelim(SplitDelim { delimiter: d.clone() })),
        Operator::Join => Ok(Op::Join(Join { mode: dup_join_mode(&config.join_mode) })),
        Operator::JoinDelim(d) => Ok(Op::JoinDelim(JoinDelim { delimiter: d.clone() })),
        Operator::Descend => Ok(Op::Descend(Descend)),
        Operator::Ascend => Ok(Op::Ascend(Ascend)),
        Operator::Uppercase => Ok(Op::Uppercase(Uppercase)),
        Operator::UppercaseSelected(sel) => Ok(
            Op::UppercaseSelected(UppercaseSelected { selection: dup_selection(sel) }),
        ),
        Operator::Lowercase => Ok(Op::Lowercase(Lowercase)),
        Operator::LowercaseSelected(sel) => Ok(
            Op::LowercaseSelected(LowercaseSelected { selection: dup_selection(sel) }),
        ),
        Operator::Replace { selection, pattern, replacement } => {
            match validate_pattern(pattern) {
                Ok(_) => {
                    let sel2: Option<Selection> = match selection {
                        Some(s) => Some(dup_selection(s)),
                        None => None,
                    };
                    Ok(
                        Op::Replace(
                            Replace {
                                pattern: pattern.clone(),
                                replacement: replacement.clone(),
                                selection: sel2,
                            },
                        ),
                    )
                },
                Err(e) => Err(e),
            }
        },
        Operator::ToNumber => Ok(Op::ToNumber(ToNumber)),
        Operator::ToNumberSelected(sel) => Ok(
            Op::ToNumberSelected(ToNumberSelected { selection: dup_selection(sel) }),
        ),
        Operator::Trim => Ok(Op::Trim(Trim)),
        Operator::TrimSelected(sel) => Ok(
            Op::TrimSelected(TrimSelected { selection: dup_selection(sel) }),
        ),
        Operator::DeleteEmpty => Ok(Op::DeleteEmpty(DeleteEmpty)),
        Operator::Flatten => Ok(Op::Flatten(Flatten)),
        Operator::DedupeWithCounts => Ok(Op::DedupeWithCounts(DedupeWithCounts)),
        Operator::DedupeSelectionWithCounts(sel) => Ok(
            Op::DedupeSelectionWithCounts(
                DedupeSelectionWithCounts { selection: dup_selection(sel) },
            ),
        ),
        Operator::Sum => Ok(Op::Sum(Sum)),
        Operator::Count => Ok(Op::Count(Count)),
        Operator::Columnate => Ok(Op::Columnate(Columnate)),
        Operator::Partition(sel) => Ok(Op::Partition(Partition { selection: dup_selection(sel) })),
        Operator::SortDescending => Ok(Op::SortDescending(SortDescending)),
        Operator::SortAscending => Ok(Op::SortAscending(SortAscending)),
        Operator::Selection(sel) => Ok(Op::Select(Select { selection: dup_selection(sel) })),
        Operator::Filter { pattern, negate } => {
            match validate_pattern(pattern) {
                Ok(_) => Ok(Op::Filter(Filter { pattern: pattern.clone(), negate: *negate })),
                Err(e) => Err(e),
            }
        },
        Operator::Match { pattern } => {
            match validate_pattern(pattern) {
                Ok(_) => Ok(Op::MatchAll(MatchAll { pattern: pattern.clone() })),
                Err(e) => Err(e),
            }
        },
        Operator::GroupBy(sel) => Ok(Op::GroupBy(GroupBy { selection: dup_selection(sel) })),
        Operator::NoOp => Ok(Op::NoOp),
    }
}

/// Check one pattern with the regex crate; the error carries the pattern
/// and the crate's own message.
fn validate_pattern(pattern: &String) -> (r: TResult<()>)
    ensures
        match r {
            Ok(_) => re_valid(pattern@),
            Err(e) => !re_valid(pattern@) && e.message@ == invalid_regex_text(pattern@),
        },
{
    match regex_compile_error(pattern.as_str()) {
        None => Ok(()),
        Some(msg) => {
            proof {
                reveal_strlit("invalid regex '");
                reveal_strlit("': ");
            }
            let mut text = String::new();
            text.append("invalid regex '");
            text.append(pattern.as_str());
            text.append("': ");
            text.append(msg.as_str());
            proof {
                assert(text@ =~= invalid_regex_text(pattern@));
            }
            Err(Error::runtime(text))
        },
    }
}

/// Compile a syntactically valid programme: total but for an invalid regex,
/// which is reported once here rather than at each use.
pub fn compile_with_config(programme: &Programme, config: &CompileConfig) -> (r: TResult<Vec<Op>>)
    ensures
        match r {
            Ok(ops) => ops@.len() == programme.operators@.len() && (forall|k: int|
                0 <= k < ops@.len() ==> compiles_to(
                    programme.operators@[k],
                    *config,
                    #[trigger] ops@[k],
                )) && (forall|k: int| 0 <= k < ops@.len() ==> op_wf(#[trigger] ops@[k])) && (
            forall|k: int|
                0 <= k < programme.operators@.len() ==> op_regex_ok(
                    #[trigger] programme.operators@[k],
                )),
            Err(e) => exists|i: int|
                0 <= i < programme.operators@.len() && !op_regex_ok(
                    #[trigger] programme.operators@[i],
                ) && (forall|j: int| 0 <= j < i ==> op_regex_ok(#[trigger] programme.operators@[j]))
                    && e.message@ == invalid_regex_text(op_regex_pattern(programme.operators@[i])),
        },
{
    let mut out: Vec<Op> = Vec::new();
    let mut i: usize = 0;
    while i < programme.operators.len()
        invariant
            i <= programme.operators@.len(),
            out@.len() == i,
            forall|k: int|
                0 <= k < i ==> compiles_to(programme.operators@[k], *config, #[trigger] out@[k]),
            forall|k: int| 0 <= k < i ==> op_wf(#[trigger] out@[k]),
            forall|k: int| 0 <= k < i ==> op_regex_ok(#[trigger] programme.operators@[k]),
        decreases programme.operators@.len() - i,
    {
        match compile_op(&programme.operators[i], config) {
            Ok(op) => {
                out.push(op);
            },
            Err(e) => {
                return Err(e);
            },
        }
        i = i + 1;
    }
    Ok(out)
}

/// Compile with the default configuration: whitespace splitting and
/// semantic joining.
pub fn compile(programme: &Programme) -> (r: TResult<Vec<Op>>)
    ensures
        ({
            let cfg = CompileConfig {
                split_mode: SplitMode::Whitespace,
                join_mode: JoinMode::Semantic,
            };
            match r {
                Ok(ops) => ops@.len() == programme.operators@.len() && (forall|k: int|
                    0 <= k < ops@.len() ==> compiles_to(
                        programme.operators@[k],
                        cfg,
                        #[trigger] ops@[k],
                    )) && (forall|k: int| 0 <= k < ops@.len() ==> op_wf(#[trigger] ops@[k])),
                Err(e) => exists|i: int|
                    0 <= i < programme.operators@.len() && !op_regex_ok(
                        #[trigger] programme.operators@[i],
                    ) && e.message@ == invalid_regex_text(
                        op_regex_pattern(programme.operators@[i]),
                    ),
            }
        }),
{
    let config = CompileConfig { split_mode: SplitMode::Whitespace, join_mode: JoinMode::Semantic };
    compile_with_config(programme, &config)
}

} // verus!
