//! The sum operator.

use vstd::prelude::*;

use crate::error::{Error, TResult};
use crate::num::{normalize, num_sum, parse_num, Number, NumModel};
use crate::value::{val_wf, vview, vviews, Val, Value};

verus! {

broadcast use vstd::std_specs::vec::group_vec_axioms, vstd::seq::group_seq_axioms;

/// The exact running sum folded through a value, `None` where a running
/// total leaves the 64-bit mantissa; numbers count themselves, text counts
/// what it parses to (zero where it does not parse), arrays their elements.
pub open spec fn spec_sum_into(acc: NumModel, v: Val) -> Option<NumModel>
    decreases v,
{
    match v {
        Val::Num { m, s } => checked_acc(acc, NumModel { m, s }),
        Val::Txt(t) => match parse_num(t) {
            Some(nm) => checked_acc(acc, nm),
            None => checked_acc(acc, NumModel { m: 0, s: 0 }),
        },
        Val::Arr { elems, .. } => spec_sum_elems(acc, elems),
    }
}

/// Fold the running sum through a sequence of values, from the left.
pub open spec fn spec_sum_elems(acc: NumModel, elems: Seq<Val>) -> Option<NumModel>
    decreases elems,
{
    if elems.len() == 0 {
        Some(acc)
    } else {
        match spec_sum_into(acc, elems[0]) {
            Some(a2) => spec_sum_elems(a2, elems.drop_first()),
            None => None,
        }
    }
}

/// One exact, normalized addition; `None` where the result does not fit.
pub open spec fn checked_acc(acc: NumModel, x: NumModel) -> Option<NumModel> {
    let nm = normalize(num_sum(acc, x).m, num_sum(acc, x).s);
    if -0x8000_0000_0000_0000 <= nm.m <= 0x7fff_ffff_ffff_ffff {
        Some(nm)
    } else {
        None
    }
}

/// `+`: sum every numeric value, recursing through arrays.
pub struct Sum;

impl Sum {
    /// The exact sum of everything numeric in the value; an error where a
    /// running total cannot be represented.
    pub fn apply(&self, value: Value) -> (r: TResult<Value>)
        requires
            val_wf(value@),
        ensures
            match r {
                Ok(v) => spec_sum_into(NumModel { m: 0, s: 0 }, value@) matches Some(nm) && v@
                    == (Val::Num { m: nm.m, s: nm.s }) && val_wf(v@),
                Err(e) => spec_sum_into(NumModel { m: 0, s: 0 }, value@) is None && e.message@
                    == "sum does not fit a number"@,
            },
    {
        let acc = Number::zero();
        match sum_into(acc, &value) {
            Some(n) => Ok(Value::Number(n)),
            None => {
                proof {
                    reveal_strlit("sum does not fit a number");
                }
                Err(Error::runtime("sum does not fit a number".to_owned()))
            },
        }
    }
}

/// Fold the running sum through one value.
fn sum_into(acc: Number, v: &Value) -> (r: Option<Number>)
    requires
        acc.wf(),
        val_wf(v@),
    ensures
        match r {
            Some(n) => spec_sum_into(acc@, v@) == Some(n@) && n.wf(),
            None => spec_sum_into(acc@, v@) is None,
        },
    decreases *v,
{
    match v {
        Value::Number(n) => {
            proof {
                assert(NumModel { m: n@.m, s: n@.s } =~= n@);
            }
            acc.checked_add(n)
        },
        Value::Text(t) => {
            let cs = crate::textutil::str_chars(t.as_str());
            match crate::num::parse_decimal(&cs) {
                Some(n) => acc.checked_add(&n),
                None => {
                    let z = Number::zero();
                    proof {
                        assert(z@ =~= NumModel { m: 0, s: 0 });
                    }
                    acc.checked_add(&z)
                },
            }
        },
        Value::Array(a) => {
            proof {
                crate::value::lemma_wf_through(a.level, a.elements@);
                crate::value::lemma_vviews(a.elements@);
                assert(vviews(a.elements@).skip(0) =~= vviews(a.elements@));
            }
            sum_elems(acc, &a.elements, Ghost(vviews(a.elements@)))
        },
    }
}

/// Fold the running sum through a sequence of elements, from the left.
fn sum_elems(acc: Number, elems: &Vec<Value>, views: Ghost<Seq<Val>>) -> (r: Option<Number>)
    requires
        acc.wf(),
        views@ == vviews(elems@),
        forall|k: int| 0 <= k < elems@.len() ==> val_wf(vview(#[trigger] elems@[k])),
    ensures
        match r {
            Some(n) => spec_sum_elems(acc@, views@) == Some(n@) && n.wf(),
            None => spec_sum_elems(acc@, views@) is None,
        },
    decreases *elems,
{
    proof {
        crate::value::lemma_vviews(elems@);
        assert(views@.skip(0) =~= views@);
    }
    let mut cur = acc;
    let mut i: usize = 0;
    while i < elems.len()
        invariant
            i <= elems@.len(),
            views@ == vviews(elems@),
            views@.len() == elems@.len(),
            forall|k: int|
                0 <= k < elems@.len() ==> #[trigger] views@[k] == vview(elems@[k]),
            forall|k: int| 0 <= k < elems@.len() ==> val_wf(vview(#[trigger] elems@[k])),
            cur.wf(),
            spec_sum_elems(cur@, views@.skip(i as int)) == spec_sum_elems(acc@, views@),
        decreases elems@.len() - i,
    {
        proof {
            assert(views@.skip(i as int).first() == views@[i as int]);
            assert(views@.skip(i as int).drop_first() =~= views@.skip(i + 1));
        }
        let step = sum_into(cur, &elems[i]);
        match step {
            Some(n) => {
                cur = n;
            },
            None => {
                return None;
            },
        }
        i = i + 1;
    }
    proof {
        assert(views@.skip(i as int) =~= Seq::<Val>::empty());
    }
    Some(cur)
}

} // verus!
