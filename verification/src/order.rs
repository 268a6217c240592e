//! The total order on values, and sorting.
//!
//! Values order by type first (`Number < Text < Array`), then by value; text
//! by code point, arrays lexicographically element by element (a proper
//! prefix sorts first).  Array levels play no part in the comparison, so the
//! sort is stable to keep values that compare equal in their given order.

use vstd::prelude::*;

use crate::num::{num_cmp, pow10, NumModel};
use crate::value::{val_wf, vview, vviews, Array, Val, Value};

verus! {

broadcast use vstd::std_specs::vec::group_vec_axioms, vstd::seq::group_seq_axioms;

/// Type rank: numbers sort before text, text before arrays.
pub open spec fn val_rank(v: Val) -> int {
    match v {
        Val::Num { .. } => 0,
        Val::Txt(_) => 1,
        Val::Arr { .. } => 2,
    }
}

/// Three-way lexicographic comparison of two character sequences by code
/// point.
pub open spec fn lex_cmp(x: Seq<char>, y: Seq<char>) -> int
    decreases x.len(),
{
    if x.len() == 0 && y.len() == 0 {
        0
    } else if x.len() == 0 {
        -1
    } else if y.len() == 0 {
        1
    } else if (x[0] as u32) < (y[0] as u32) {
        -1
    } else if (y[0] as u32) < (x[0] as u32) {
        1
    } else {
        lex_cmp(x.drop_first(), y.drop_first())
    }
}

/// Three-way comparison of two values.
pub open spec fn val_cmp(a: Val, b: Val) -> int
    decreases a,
{
    if val_rank(a) != val_rank(b) {
        if val_rank(a) < val_rank(b) {
            -1
        } else {
            1
        }
    } else {
        match (a, b) {
            (Val::Num { m: m1, s: s1 }, Val::Num { m: m2, s: s2 }) => num_cmp(
                NumModel { m: m1, s: s1 },
                NumModel { m: m2, s: s2 },
            ),
            (Val::Txt(x), Val::Txt(y)) => lex_cmp(x, y),
            (Val::Arr { elems: x, .. }, Val::Arr { elems: y, .. }) => arr_cmp(x, y),
            _ => 0,
        }
    }
}

/// Three-way lexicographic comparison of two value sequences.
pub open spec fn arr_cmp(x: Seq<Val>, y: Seq<Val>) -> int
    decreases x,
{
    if x.len() == 0 && y.len() == 0 {
        0
    } else if x.len() == 0 {
        -1
    } else if y.len() == 0 {
        1
    } else {
        let c = val_cmp(x[0], y[0]);
        if c != 0 {
            c
        } else {
            arr_cmp(x.drop_first(), y.drop_first())
        }
    }
}

/// The comparison used by the sort operators: the value order, reversed when
/// sorting descending.
pub open spec fn val_cmp_dir(descending: bool, a: Val, b: Val) -> int {
    if descending {
        val_cmp(b, a)
    } else {
        val_cmp(a, b)
    }
}

proof fn lemma_lex_cmp_antisym(x: Seq<char>, y: Seq<char>)
    ensures
        lex_cmp(x, y) == -lex_cmp(y, x),
    decreases x.len(),
{
    if x.len() > 0 && y.len() > 0 && !((x[0] as u32) < (y[0] as u32)) && !((y[0] as u32) < (
        x[0] as u32
    )) {
        lemma_lex_cmp_antisym(x.drop_first(), y.drop_first());
    }
}

/// Swapping the arguments flips the sign of the comparison.
pub proof fn lemma_val_cmp_antisym(a: Val, b: Val)
    ensures
        val_cmp(a, b) == -val_cmp(b, a),
    decreases a,
{
    if val_rank(a) == val_rank(b) {
        match (a, b) {
            (Val::Txt(x), Val::Txt(y)) => lemma_lex_cmp_antisym(x, y),
            (Val::Arr { elems: x, .. }, Val::Arr { elems: y, .. }) => lemma_arr_cmp_antisym(x, y),
            _ => {},
        }
    }
}

proof fn lemma_arr_cmp_antisym(x: Seq<Val>, y: Seq<Val>)
    ensures
        arr_cmp(x, y) == -arr_cmp(y, x),
    decreases x,
{
    if x.len() > 0 && y.len() > 0 {
        lemma_val_cmp_antisym(x[0], y[0]);
        if val_cmp(x[0], y[0]) == 0 {
            lemma_arr_cmp_antisym(x.drop_first(), y.drop_first());
        }
    }
}

/// The comparison only takes the values -1, 0 and 1.
pub proof fn lemma_val_cmp_range(a: Val, b: Val)
    ensures
        -1 <= val_cmp(a, b) <= 1,
    decreases a,
{
    if val_rank(a) == val_rank(b) {
        match (a, b) {
            (Val::Txt(x), Val::Txt(y)) => lemma_lex_cmp_range(x, y),
            (Val::Arr { elems: x, .. }, Val::Arr { elems: y, .. }) => lemma_arr_cmp_range(x, y),
            _ => {},
        }
    }
}

proof fn lemma_lex_cmp_range(x: Seq<char>, y: Seq<char>)
    ensures
        -1 <= lex_cmp(x, y) <= 1,
    decreases x.len(),
{
    if x.len() > 0 && y.len() > 0 && !((x[0] as u32) < (y[0] as u32)) && !((y[0] as u32) < (
        x[0] as u32
    )) {
        lemma_lex_cmp_range(x.drop_first(), y.drop_first());
    }
}

proof fn lemma_arr_cmp_range(x: Seq<Val>, y: Seq<Val>)
    ensures
        -1 <= arr_cmp(x, y) <= 1,
    decreases x,
{
    if x.len() > 0 && y.len() > 0 {
        lemma_val_cmp_range(x[0], y[0]);
        if val_cmp(x[0], y[0]) == 0 {
            lemma_arr_cmp_range(x.drop_first(), y.drop_first());
        }
    }
}

proof fn lemma_num_cmp_trans(a: NumModel, b: NumModel, c: NumModel)
    requires
        num_cmp(a, b) <= 0,
        num_cmp(b, c) <= 0,
    ensures
        num_cmp(a, c) <= 0,
        num_cmp(a, c) == 0 ==> num_cmp(a, b) == 0 && num_cmp(b, c) == 0,
{
    crate::num::lemma_pow10_positive(a.s);
    crate::num::lemma_pow10_positive(b.s);
    crate::num::lemma_pow10_positive(c.s);
    let pa = pow10(a.s);
    let pb = pow10(b.s);
    let pc = pow10(c.s);
    assert(a.m * pb <= b.m * pa);
    assert(b.m * pc <= c.m * pb);
    assert((a.m * pb) * pc <= (b.m * pa) * pc) by (nonlinear_arith)
        requires
            a.m * pb <= b.m * pa,
            pc >= 1,
    ;
    assert((b.m * pc) * pa <= (c.m * pb) * pa) by (nonlinear_arith)
        requires
            b.m * pc <= c.m * pa * pc / pa || b.m * pc <= c.m * pb,
            b.m * pc <= c.m * pb,
            pa >= 1,
    ;
    assert((b.m * pa) * pc == (b.m * pc) * pa) by (nonlinear_arith);
    assert((a.m * pb) * pc == (a.m * pc) * pb) by (nonlinear_arith);
    assert((c.m * pb) * pa == (c.m * pa) * pb) by (nonlinear_arith);
    assert((a.m * pc) * pb <= (c.m * pa) * pb);
    assert(a.m * pc <= c.m * pa) by (nonlinear_arith)
        requires
            (a.m * pc) * pb <= (c.m * pa) * pb,
            pb >= 1,
    ;
    if num_cmp(a, c) == 0 {
        assert(a.m * pc == c.m * pa);
        if num_cmp(a, b) < 0 {
            assert((a.m * pb) * pc < (b.m * pa) * pc) by (nonlinear_arith)
                requires
                    a.m * pb < b.m * pa,
                    pc >= 1,
            ;
            assert((a.m * pc) * pb < (c.m * pa) * pb);
            assert(a.m * pc < c.m * pa) by (nonlinear_arith)
                requires
                    (a.m * pc) * pb < (c.m * pa) * pb,
                    pb >= 1,
            ;
        }
        if num_cmp(b, c) < 0 {
            assert((b.m * pc) * pa < (c.m * pb) * pa) by (nonlinear_arith)
                requires
                    b.m * pc < c.m * pb,
                    pa >= 1,
            ;
            assert((a.m * pb) * pc <= (b.m * pc) * pa);
            assert((a.m * pc) * pb < (c.m * pa) * pb);
            assert(a.m * pc < c.m * pa) by (nonlinear_arith)
                requires
                    (a.m * pc) * pb < (c.m * pa) * pb,
                    pb >= 1,
            ;
        }
    }
}

proof fn lemma_lex_cmp_trans(x: Seq<char>, y: Seq<char>, z: Seq<char>)
    requires
        lex_cmp(x, y) <= 0,
        lex_cmp(y, z) <= 0,
    ensures
        lex_cmp(x, z) <= 0,
        lex_cmp(x, z) == 0 ==> lex_cmp(x, y) == 0 && lex_cmp(y, z) == 0,
    decreases x.len(),
{
    lemma_lex_cmp_range(x, y);
    lemma_lex_cmp_range(y, z);
    lemma_lex_cmp_range(x, z);
    if x.len() > 0 && y.len() > 0 && z.len() > 0 && !((x[0] as u32) < (y[0] as u32)) && !((
    y[0] as u32) < (x[0] as u32)) && !((y[0] as u32) < (z[0] as u32)) && !((z[0] as u32) < (
    y[0] as u32)) {
        lemma_lex_cmp_trans(x.drop_first(), y.drop_first(), z.drop_first());
    }
}

/// The order is transitive, and a middle value between two equal values is
/// equal to both.
pub proof fn lemma_val_cmp_trans(a: Val, b: Val, c: Val)
    requires
        val_cmp(a, b) <= 0,
        val_cmp(b, c) <= 0,
    ensures
        val_cmp(a, c) <= 0,
        val_cmp(a, c) == 0 ==> val_cmp(a, b) == 0 && val_cmp(b, c) == 0,
    decreases a,
{
    lemma_val_cmp_range(a, b);
    lemma_val_cmp_range(b, c);
    lemma_val_cmp_range(a, c);
    if val_rank(a) == val_rank(b) && val_rank(b) == val_rank(c) {
        match (a, b, c) {
            (
                Val::Num { m: m1, s: s1 },
                Val::Num { m: m2, s: s2 },
                Val::Num { m: m3, s: s3 },
            ) => {
                lemma_num_cmp_trans(
                    NumModel { m: m1, s: s1 },
                    NumModel { m: m2, s: s2 },
                    NumModel { m: m3, s: s3 },
                );
            },
            (Val::Txt(x), Val::Txt(y), Val::Txt(z)) => lemma_lex_cmp_trans(x, y, z),
            (
                Val::Arr { elems: x, .. },
                Val::Arr { elems: y, .. },
                Val::Arr { elems: z, .. },
            ) => {
                lemma_arr_cmp_trans(x, y, z);
            },
            _ => {},
        }
    }
}

proof fn lemma_arr_cmp_trans(x: Seq<Val>, y: Seq<Val>, z: Seq<Val>)
    requires
        arr_cmp(x, y) <= 0,
        arr_cmp(y, z) <= 0,
    ensures
        arr_cmp(x, z) <= 0,
        arr_cmp(x, z) == 0 ==> arr_cmp(x, y) == 0 && arr_cmp(y, z) == 0,
    decreases x,
{
    lemma_arr_cmp_range(x, y);
    lemma_arr_cmp_range(y, z);
    lemma_arr_cmp_range(x, z);
    if x.len() > 0 && y.len() > 0 && z.len() > 0 {
        let cxy = val_cmp(x[0], y[0]);
        let cyz = val_cmp(y[0], z[0]);
        lemma_val_cmp_range(x[0], y[0]);
        lemma_val_cmp_range(y[0], z[0]);
        if cxy <= 0 && cyz <= 0 {
            lemma_val_cmp_trans(x[0], y[0], z[0]);
            if val_cmp(x[0], z[0]) == 0 {
                lemma_arr_cmp_trans(x.drop_first(), y.drop_first(), z.drop_first());
            }
        } else if cxy > 0 {
            // then arr_cmp(x, y) <= 0 forces nothing: contradiction with requires
            assert(arr_cmp(x, y) == cxy);
            assert(false);
        } else {
            // cxy <= 0, cyz > 0: arr_cmp(y, z) == cyz > 0, contradiction
            assert(arr_cmp(y, z) == cyz);
            assert(false);
        }
    }
}

/// Total: one of the two directions always holds.
pub proof fn lemma_val_cmp_total(a: Val, b: Val)
    ensures
        val_cmp(a, b) <= 0 || val_cmp(b, a) <= 0,
{
    lemma_val_cmp_antisym(a, b);
    lemma_val_cmp_range(a, b);
}

/// Insertion of `v` into `s` after every element that does not compare
/// greater: the step of a stable insertion sort.
pub open spec fn insert_sorted(descending: bool, s: Seq<Val>, v: Val) -> Seq<Val>
    decreases s.len(),
{
    if s.len() == 0 {
        seq![v]
    } else if val_cmp_dir(descending, s.last(), v) <= 0 {
        s.push(v)
    } else {
        insert_sorted(descending, s.drop_last(), v).push(s.last())
    }
}

/// Stable sort of a value sequence: values that compare equal keep their
/// relative order.
pub open spec fn spec_sort(descending: bool, s: Seq<Val>) -> Seq<Val>
    decreases s.len(),
{
    if s.len() == 0 {
        Seq::<Val>::empty()
    } else {
        insert_sorted(descending, spec_sort(descending, s.drop_last()), s.last())
    }
}

/// Sorted under the direction's order.
pub open spec fn sorted_dir(descending: bool, s: Seq<Val>) -> bool {
    forall|i: int, j: int| 0 <= i < j < s.len() ==> val_cmp_dir(descending, s[i], s[j]) <= 0
}

proof fn lemma_cmp_dir_trans(descending: bool, a: Val, b: Val, c: Val)
    requires
        val_cmp_dir(descending, a, b) <= 0,
        val_cmp_dir(descending, b, c) <= 0,
    ensures
        val_cmp_dir(descending, a, c) <= 0,
{
    if descending {
        lemma_val_cmp_trans(c, b, a);
    } else {
        lemma_val_cmp_trans(a, b, c);
    }
}

/// Inserting into a sorted sequence keeps it sorted and adds one occurrence
/// of the value; every element of the result comes from `s` or is `v`.
pub proof fn lemma_insert_sorted_ensures(descending: bool, s: Seq<Val>, v: Val)
    requires
        sorted_dir(descending, s),
    ensures
        insert_sorted(descending, s, v).len() == s.len() + 1,
        sorted_dir(descending, insert_sorted(descending, s, v)),
        insert_sorted(descending, s, v).to_multiset() =~= s.to_multiset().insert(v),
        forall|k: int|
            0 <= k < insert_sorted(descending, s, v).len() ==> (insert_sorted(descending, s, v)[k]
                == v || exists|i: int| 0 <= i < s.len() && insert_sorted(descending, s, v)[k] == s[i]),
    decreases s.len(),
{
    let t = insert_sorted(descending, s, v);
    broadcast use vstd::seq_lib::group_to_multiset_ensures;

    if s.len() == 0 {
        assert(seq![v].drop_last() =~= Seq::<Val>::empty());
        assert(t =~= Seq::<Val>::empty().push(v));
        assert(t.to_multiset() =~= s.to_multiset().insert(v));
        assert(t[0] == v);
    } else if val_cmp_dir(descending, s.last(), v) <= 0 {
        assert(t == s.push(v));
        assert forall|i: int, j: int| 0 <= i < j < t.len() implies val_cmp_dir(
            descending,
            t[i],
            t[j],
        ) <= 0 by {
            if j < t.len() - 1 {
                assert(val_cmp_dir(descending, s[i], s[j]) <= 0);
            } else {
                if i < s.len() - 1 {
                    assert(val_cmp_dir(descending, s[i], s.last()) <= 0);
                    lemma_cmp_dir_trans(descending, s[i], s.last(), v);
                }
            }
        }
        assert forall|k: int| 0 <= k < t.len() implies (t[k] == v || exists|i: int|
            0 <= i < s.len() && t[k] == s[i]) by {
            if k < s.len() {
                assert(t[k] == s[k]);
            }
        }
    } else {
        let s0 = s.drop_last();
        let l = s.last();
        assert(sorted_dir(descending, s0)) by {
            assert forall|i: int, j: int| 0 <= i < j < s0.len() implies val_cmp_dir(
                descending,
                s0[i],
                s0[j],
            ) <= 0 by {
                assert(val_cmp_dir(descending, s[i], s[j]) <= 0);
            }
        }
        lemma_insert_sorted_ensures(descending, s0, v);
        let t0 = insert_sorted(descending, s0, v);
        assert(t == t0.push(l));
        // order between v and the moved last element
        lemma_val_cmp_antisym(l, v);
        if descending {
            lemma_val_cmp_antisym(v, l);
        }
        assert(val_cmp_dir(descending, v, l) <= 0);
        assert forall|i: int, j: int| 0 <= i < j < t.len() implies val_cmp_dir(
            descending,
            t[i],
            t[j],
        ) <= 0 by {
            if j < t.len() - 1 {
                assert(val_cmp_dir(descending, t0[i], t0[j]) <= 0);
            } else {
                assert(t[j] == l);
                assert(t[i] == t0[i]);
                if t0[i] == v {
                    assert(val_cmp_dir(descending, v, l) <= 0);
                } else {
                    let w = choose|w: int| 0 <= w < s0.len() && t0[i] == s0[w];
                    assert(s0[w] == s[w]);
                    assert(val_cmp_dir(descending, s[w], s.last()) <= 0);
                }
            }
        }
        assert(s0.push(l) =~= s);
        assert(s.to_multiset() =~= s0.to_multiset().insert(l));
        assert(t.to_multiset() =~= t0.to_multiset().insert(l));
        assert(t.to_multiset() =~= s.to_multiset().insert(v)) by {
            assert(t0.to_multiset() =~= s0.to_multiset().insert(v));
            assert(t.to_multiset() =~= s0.to_multiset().insert(v).insert(l));
            assert(s0.to_multiset().insert(v).insert(l) =~= s0.to_multiset().insert(l).insert(v));
        }
        assert forall|k: int| 0 <= k < t.len() implies (t[k] == v || exists|i: int|
            0 <= i < s.len() && t[k] == s[i]) by {
            if k < t.len() - 1 {
                if t0[k] != v {
                    let w = choose|w: int| 0 <= w < s0.len() && t0[k] == s0[w];
                    assert(t[k] == s[w]);
                }
            } else {
                assert(t[k] == s[s.len() - 1]);
            }
        }
    }
}

/// The sort is a permutation and its result is sorted.
pub proof fn lemma_spec_sort_ensures(descending: bool, s: Seq<Val>)
    ensures
        spec_sort(descending, s).len() == s.len(),
        sorted_dir(descending, spec_sort(descending, s)),
        spec_sort(descending, s).to_multiset() =~= s.to_multiset(),
    decreases s.len(),
{
    broadcast use vstd::seq_lib::group_to_multiset_ensures;

    if s.len() > 0 {
        let s0 = s.drop_last();
        lemma_spec_sort_ensures(descending, s0);
        lemma_insert_sorted_ensures(descending, spec_sort(descending, s0), s.last());
        assert(s0.push(s.last()) =~= s);
        assert(s.to_multiset() =~= s0.to_multiset().insert(s.last()));
    }
}

/// Sorting a sequence that is already sorted gives it back unchanged; with
/// the permutation and sortedness above, sorting is idempotent.
pub proof fn lemma_spec_sort_of_sorted(descending: bool, s: Seq<Val>)
    requires
        sorted_dir(descending, s),
    ensures
        spec_sort(descending, s) == s,
    decreases s.len(),
{
    if s.len() == 0 {
        assert(spec_sort(descending, s) =~= s);
    } else {
        let s0 = s.drop_last();
        assert(sorted_dir(descending, s0)) by {
            assert forall|i: int, j: int| 0 <= i < j < s0.len() implies val_cmp_dir(
                descending,
                s0[i],
                s0[j],
            ) <= 0 by {
                assert(val_cmp_dir(descending, s[i], s[j]) <= 0);
            }
        }
        lemma_spec_sort_of_sorted(descending, s0);
        if s0.len() == 0 {
            assert(spec_sort(descending, s) =~= s);
        } else {
            assert(s0.last() == s[s.len() - 2] && s.last() == s[s.len() - 1]);
            assert(val_cmp_dir(descending, s0.last(), s.last()) <= 0);
            assert(spec_sort(descending, s) == s0.push(s.last()));
            assert(s0.push(s.last()) =~= s);
        }
    }
}

/// Sorting twice gives the same sequence as sorting once.
pub proof fn lemma_spec_sort_idempotent(descending: bool, s: Seq<Val>)
    ensures
        spec_sort(descending, spec_sort(descending, s)) == spec_sort(descending, s),
{
    lemma_spec_sort_ensures(descending, s);
    lemma_spec_sort_of_sorted(descending, spec_sort(descending, s));
}

/// Where the right-to-left scan of a stable insertion stops, the insertion
/// happens.
proof fn lemma_insert_at(descending: bool, s: Seq<Val>, v: Val, p: int)
    requires
        0 <= p <= s.len(),
        forall|k: int| p <= k < s.len() ==> val_cmp_dir(descending, #[trigger] s[k], v) > 0,
        p > 0 ==> val_cmp_dir(descending, s[p - 1], v) <= 0,
    ensures
        insert_sorted(descending, s, v) == s.insert(p, v),
    decreases s.len(),
{
    if s.len() == 0 {
        assert(insert_sorted(descending, s, v) =~= s.insert(0, v));
    } else if p == s.len() {
        assert(val_cmp_dir(descending, s[p - 1], v) <= 0);
        assert(insert_sorted(descending, s, v) == s.push(v));
        assert(s.push(v) =~= s.insert(p, v));
    } else {
        assert(val_cmp_dir(descending, s.last(), v) > 0);
        lemma_insert_at(descending, s.drop_last(), v, p);
        assert(insert_sorted(descending, s, v) == s.drop_last().insert(p, v).push(s.last()));
        assert(s.drop_last().insert(p, v).push(s.last()) =~= s.insert(p, v));
    }
}

/// Direction-aware three-way comparison.
pub fn value_cmp_dir(descending: bool, a: &Value, b: &Value) -> (r: i8)
    requires
        val_wf(a@),
        val_wf(b@),
    ensures
        r as int == val_cmp_dir(descending, a@, b@),
{
    if descending {
        value_cmp(b, a)
    } else {
        value_cmp(a, b)
    }
}

impl Array {
    /// Sort the elements in place: ascending by default, descending when
    /// asked; stable, under the total value order.
    pub fn sort(&mut self, descending: bool)
        requires
            val_wf(old(self)@),
        ensures
            final(self).level == old(self).level,
            vviews(final(self).elements@) == spec_sort(descending, vviews(old(self).elements@)),
    {
        proof {
            crate::value::lemma_arr_wf_elems(self@);
            crate::value::lemma_vviews(self.elements@);
        }
        let ghost orig = self.elements@;
        let mut out: Vec<Value> = Vec::new();
        proof {
            assert(vviews(out@) =~= Seq::<Val>::empty());
            assert(vviews(orig.subrange(0, 0)) =~= Seq::<Val>::empty());
            assert forall|k: int| 0 <= k < orig.len() implies val_wf(
                vview(#[trigger] orig[k]),
            ) by {
                assert(val_wf(self@->Arr_elems[k]));
                assert(vviews(orig)[k] == vview(orig[k]));
            }
        }
        let mut i: usize = 0;
        while i < self.elements.len()
            invariant
                i <= self.elements@.len(),
                self.elements@ == orig,
                self.level == old(self).level,
                forall|k: int| 0 <= k < orig.len() ==> val_wf(vview(#[trigger] orig[k])),
                forall|k: int| 0 <= k < out@.len() ==> val_wf(vview(#[trigger] out@[k])),
                vviews(out@) == spec_sort(descending, vviews(orig.subrange(0, i as int))),
            decreases orig.len() - i,
        {
            let x = self.elements[i].deep_copy();
            let p = scan_insert_pos(descending, &out, &x);
            proof {
                crate::value::lemma_vviews(out@);
                lemma_insert_at(descending, vviews(out@), x@, p as int);
            }
            let ghost before = out@;
            out.insert(p, x);
            proof {
                crate::value::lemma_vviews(out@);
                crate::value::lemma_vviews(before);
                assert(out@ == before.insert(p as int, x));
                assert(vviews(out@) =~= vviews(before).insert(p as int, x@)) by {
                    assert forall|k: int| 0 <= k < out@.len() implies vviews(out@)[k] == vviews(
                        before,
                    ).insert(p as int, x@)[k] by {
                        if k < p {
                            assert(out@[k] == before[k]);
                        } else if k == p {
                            assert(out@[k] == x);
                        } else {
                            assert(out@[k] == before[k - 1]);
                        }
                    }
                }
                assert(vview(x) == vview(orig[i as int]));
                let pre = orig.subrange(0, i as int);
                let cur = orig.subrange(0, i + 1);
                assert(cur.drop_last() =~= pre);
                assert(cur.last() == orig[i as int]);
                crate::value::lemma_vviews(cur);
                crate::value::lemma_vviews(pre);
                assert(vviews(cur).last() == vview(orig[i as int]));
                assert(vviews(cur).drop_last() =~= vviews(pre));
                assert(spec_sort(descending, vviews(cur)) == insert_sorted(
                    descending,
                    spec_sort(descending, vviews(pre)),
                    vview(orig[i as int]),
                ));
                assert forall|k: int| 0 <= k < out@.len() implies val_wf(
                    vview(#[trigger] out@[k]),
                ) by {
                    if k < p {
                        assert(out@[k] == before[k]);
                    } else if k == p {
                        assert(out@[k] == x);
                    } else {
                        assert(out@[k] == before[k - 1]);
                    }
                }
            }
            i = i + 1;
        }
        proof {
            assert(orig.subrange(0, orig.len() as int) =~= orig);
        }
        self.elements = out;
    }
}

/// The position where a stable insertion puts `x`: scanning from the right,
/// past every element that compares greater.
fn scan_insert_pos(descending: bool, out: &Vec<Value>, x: &Value) -> (p: usize)
    requires
        val_wf(x@),
        forall|k: int| 0 <= k < out@.len() ==> val_wf(vview(#[trigger] out@[k])),
    ensures
        p <= out@.len(),
        forall|k: int|
            p <= k < out@.len() ==> val_cmp_dir(descending, vview(#[trigger] out@[k]), x@) > 0,
        p > 0 ==> val_cmp_dir(descending, vview(out@[p - 1]), x@) <= 0,
{
    let mut p = out.len();
    while p > 0
        invariant
            p <= out@.len(),
            val_wf(x@),
            forall|k: int| 0 <= k < out@.len() ==> val_wf(vview(#[trigger] out@[k])),
            forall|k: int|
                p <= k < out@.len() ==> val_cmp_dir(descending, vview(#[trigger] out@[k]), x@) > 0,
        decreases p,
    {
        let c = value_cmp_dir(descending, &out[p - 1], x);
        if c <= 0 {
            return p;
        }
        p = p - 1;
    }
    p
}

/// Three-way comparison of two values, as the sort operators use it.
pub fn value_cmp(a: &Value, b: &Value) -> (r: i8)
    requires
        val_wf(a@),
        val_wf(b@),
    ensures
        r as int == val_cmp(a@, b@),
    decreases *a, 0int,
{
    match (a, b) {
        (Value::Number(x), Value::Number(y)) => x.cmp_with(y),
        (Value::Number(_), _) => -1,
        (_, Value::Number(_)) => 1,
        (Value::Text(x), Value::Text(y)) => text_cmp(x, y),
        (Value::Text(_), _) => -1,
        (_, Value::Text(_)) => 1,
        (Value::Array(x), Value::Array(y)) => {
            proof {
                crate::value::lemma_vviews(x.elements@);
                crate::value::lemma_vviews(y.elements@);
                assert(vviews(x.elements@).skip(0) =~= vviews(x.elements@));
                assert(vviews(y.elements@).skip(0) =~= vviews(y.elements@));
                assert(a@ == Val::Arr { level: x.level, elems: vviews(x.elements@) });
                assert(b@ == Val::Arr { level: y.level, elems: vviews(y.elements@) });
                crate::value::lemma_arr_wf_elems(a@);
                crate::value::lemma_arr_wf_elems(b@);
                assert(a@->Arr_elems == vviews(x.elements@));
                assert(b@->Arr_elems == vviews(y.elements@));
                assert forall|j: int| 0 <= j < x.elements@.len() implies val_wf(
                    vview(#[trigger] x.elements@[j]),
                ) by {
                    assert(val_wf(a@->Arr_elems[j]));
                }
                assert forall|j: int| 0 <= j < y.elements@.len() implies val_wf(
                    vview(#[trigger] y.elements@[j]),
                ) by {
                    assert(val_wf(b@->Arr_elems[j]));
                }
            }
            elems_cmp_from(&x.elements, &y.elements, 0)
        },
    }
}

/// Lexicographic comparison of two element vectors from position `i` on.
fn elems_cmp_from(x: &Vec<Value>, y: &Vec<Value>, i: usize) -> (r: i8)
    requires
        i <= x@.len(),
        i <= y@.len(),
        forall|j: int| 0 <= j < x@.len() ==> val_wf(vview(#[trigger] x@[j])),
        forall|j: int| 0 <= j < y@.len() ==> val_wf(vview(#[trigger] y@[j])),
    ensures
        r as int == arr_cmp(vviews(x@).skip(i as int), vviews(y@).skip(i as int)),
    decreases *x, x@.len() - i,
{
    proof {
        crate::value::lemma_vviews(x@);
        crate::value::lemma_vviews(y@);
    }
    let ghost sx = vviews(x@).skip(i as int);
    let ghost sy = vviews(y@).skip(i as int);
    if i >= x.len() || i >= y.len() {
        proof {
            assert(sx.len() == x@.len() - i && sy.len() == y@.len() - i);
        }
        if i < y.len() {
            -1
        } else if i < x.len() {
            1
        } else {
            0
        }
    } else {
        proof {
            assert(sx[0] == vviews(x@)[i as int]);
            assert(sy[0] == vviews(y@)[i as int]);
        }
        let c = value_cmp(&x[i], &y[i]);
        if c != 0 {
            c
        } else {
            proof {
                assert(sx.drop_first() =~= vviews(x@).skip(i + 1));
                assert(sy.drop_first() =~= vviews(y@).skip(i + 1));
            }
            elems_cmp_from(x, y, i + 1)
        }
    }
}

/// Three-way comparison of two strings by code point.
fn text_cmp(x: &String, y: &String) -> (r: i8)
    ensures
        r as int == lex_cmp(x@, y@),
{
    let xs = crate::textutil::str_chars(x.as_str());
    let ys = crate::textutil::str_chars(y.as_str());
    proof {
        assert(xs@.skip(0) =~= xs@);
        assert(ys@.skip(0) =~= ys@);
    }
    chars_cmp_from(&xs, &ys, 0)
}

/// Lexicographic comparison of two character vectors from position `i` on.
fn chars_cmp_from(x: &Vec<char>, y: &Vec<char>, i: usize) -> (r: i8)
    requires
        i <= x@.len(),
        i <= y@.len(),
    ensures
        r as int == lex_cmp(x@.skip(i as int), y@.skip(i as int)),
    decreases x@.len() - i,
{
    let ghost sx = x@.skip(i as int);
    let ghost sy = y@.skip(i as int);
    if i >= x.len() || i >= y.len() {
        proof {
            assert(sx.len() == x@.len() - i && sy.len() == y@.len() - i);
        }
        if i < y.len() {
            -1
        } else if i < x.len() {
            1
        } else {
            0
        }
    } else {
        proof {
            assert(sx[0] == x@[i as int]);
            assert(sy[0] == y@[i as int]);
        }
        let cx = x[i];
        let cy = y[i];
        if (cx as u32) < (cy as u32) {
            -1
        } else if (cy as u32) < (cx as u32) {
            1
        } else {
            proof {
                assert(sx.drop_first() =~= x@.skip(i + 1));
                assert(sy.drop_first() =~= y@.skip(i + 1));
            }
            chars_cmp_from(x, y, i + 1)
        }
    }
}

} // verus!
