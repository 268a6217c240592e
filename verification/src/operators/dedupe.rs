//! The dedupe operators.

use vstd::prelude::*;

use crate::error::{Error, TResult};
use crate::num::Number;
use crate::render::{val_key, value_to_key};
use crate::ast::{SelectItem, Selection};
use crate::operators::group::{collect_groups, groups_model, spec_groups};
use crate::value::{val_wf, vview, vviews, Array, Level, Val, Value};

verus! {

broadcast use vstd::std_specs::vec::group_vec_axioms, vstd::seq::group_seq_axioms;

/// Whether some element of the sequence has the key.
pub open spec fn has_key(s: Seq<Val>, k: Seq<char>) -> bool {
    exists|i: int| 0 <= i < s.len() && val_key(#[trigger] s[i]) == k
}

/// The first occurrences, in order: later elements with an already-seen key
/// are dropped.
pub open spec fn uniq_vals(s: Seq<Val>) -> Seq<Val>
    decreases s,
{
    if s.len() == 0 {
        Seq::<Val>::empty()
    } else {
        let u = uniq_vals(s.drop_last());
        if has_key(u, val_key(s.last())) {
            u
        } else {
            u.push(s.last())
        }
    }
}

/// How many elements carry the key.
pub open spec fn key_count(s: Seq<Val>, k: Seq<char>) -> nat
    decreases s,
{
    if s.len() == 0 {
        0
    } else {
        key_count(s.drop_last(), k) + if val_key(s.last()) == k {
            1nat
        } else {
            0nat
        }
    }
}

/// The count/value pairs of the unique elements, in first-occurrence order.
pub open spec fn spec_pairs(s: Seq<Val>) -> Seq<(nat, Val)> {
    Seq::new(uniq_vals(s).len(), |i: int| (key_count(s, val_key(uniq_vals(s)[i])), uniq_vals(s)[i]))
}

/// Stable insertion of a pair under count-descending order: the new pair
/// goes after every pair whose count is at least as large.
pub open spec fn insert_pair(s: Seq<(nat, Val)>, p: (nat, Val)) -> Seq<(nat, Val)>
    decreases s.len(),
{
    if s.len() == 0 {
        seq![p]
    } else if s.last().0 >= p.0 {
        s.push(p)
    } else {
        insert_pair(s.drop_last(), p).push(s.last())
    }
}

/// Stable sort of the pairs by count descending: pairs with equal counts
/// keep their first-occurrence order.
pub open spec fn sort_pairs(s: Seq<(nat, Val)>) -> Seq<(nat, Val)>
    decreases s.len(),
{
    if s.len() == 0 {
        Seq::<(nat, Val)>::empty()
    } else {
        insert_pair(sort_pairs(s.drop_last()), s.last())
    }
}

/// The `[count, value]` rows of a pair list.
pub open spec fn rows_of(sorted: Seq<(nat, Val)>) -> Seq<Val> {
    Seq::new(
        sorted.len(),
        |i: int|
            Val::Arr {
                level: Level::Word,
                elems: seq![Val::Num { m: sorted[i].0 as int, s: 0 }, sorted[i].1],
            },
    )
}

/// What dedupe-with-counts yields: `[count, value]` rows sorted by count
/// descending, ties in first-occurrence order.
pub open spec fn spec_dedupe_counts(s: Seq<Val>) -> Val {
    Val::Arr { level: Level::Line, elems: rows_of(sort_pairs(spec_pairs(s))) }
}

/// `d`: collapse duplicates into `[count, value]` rows, most frequent
/// first, ties in first-occurrence order.
pub struct DedupeWithCounts;

impl DedupeWithCounts {
    /// Count duplicates of an array's elements; anything else passes
    /// through.  Fails only where a count cannot be represented as a
    /// number, which no array that fits in memory reaches.
    pub fn apply(&self, value: Value) -> (r: TResult<Value>)
        requires
            val_wf(value@),
        ensures
            match r {
                Ok(v) => (match value {
                    Value::Array(arr) => v@ == spec_dedupe_counts(vviews(arr.elements@))
                        && vviews(arr.elements@).len() <= 0x7fff_ffff_ffff_ffff,
                    _ => v@ == value@,
                }) && val_wf(v@),
                Err(e) => value@ is Arr && value@->Arr_elems.len() > 0x7fff_ffff_ffff_ffff
                    && e.message@ == "count does not fit a number"@,
            },
    {
        match value {
            Value::Array(arr) => dedupe_counts(arr),
            other => Ok(other),
        }
    }
}

/// The index of the key in the key list, if present.
fn find_key(keys: &Vec<String>, k: &String) -> (r: Option<usize>)
    ensures
        match r {
            Some(i) => i < keys@.len() && keys@[i as int]@ == k@ && forall|j: int|
                0 <= j < i ==> (#[trigger] keys@[j])@ != k@,
            None => forall|i: int| 0 <= i < keys@.len() ==> (#[trigger] keys@[i])@ != k@,
        },
{
    let mut i: usize = 0;
    while i < keys.len()
        invariant
            i <= keys@.len(),
            forall|j: int| 0 <= j < i ==> (#[trigger] keys@[j])@ != k@,
        decreases keys@.len() - i,
    {
        if keys[i].eq(k) {
            return Some(i);
        }
        i = i + 1;
    }
    None
}

/// Dedupe one array into `[count, value]` rows.
fn dedupe_counts(arr: Array) -> (r: TResult<Value>)
    requires
        val_wf(arr@),
    ensures
        match r {
            Ok(v) => v@ == spec_dedupe_counts(vviews(arr.elements@)) && val_wf(v@) && vviews(
                arr.elements@,
            ).len() <= 0x7fff_ffff_ffff_ffff,
            Err(e) => vviews(arr.elements@).len() > 0x7fff_ffff_ffff_ffff && e.message@
                == "count does not fit a number"@,
        },
{
    proof {
        crate::value::lemma_arr_wf_elems(arr@);
        crate::value::lemma_vviews(arr.elements@);
        crate::value::lemma_wf_through(arr.level, arr.elements@);
    }
    let ghost orig = vviews(arr.elements@);
    let n = arr.elements.len();
    if (n as u64) > 0x7fff_ffff_ffff_ffffu64 {
        proof {
            reveal_strlit("count does not fit a number");
        }
        return Err(Error::runtime("count does not fit a number".to_owned()));
    }
    // first pass: unique representatives, their keys, their counts
    let mut reps: Vec<Value> = Vec::new();
    let mut keys: Vec<String> = Vec::new();
    let mut counts: Vec<u64> = Vec::new();
    let mut i: usize = 0;
    proof {
        assert(arr.elements@.subrange(0, 0) =~= Seq::<Value>::empty());
        assert(vviews(reps@) =~= uniq_vals(vviews(arr.elements@.subrange(0, 0))));
    }
    while i < arr.elements.len()
        invariant
            i <= arr.elements@.len(),
            n == arr.elements@.len(),
            orig == vviews(arr.elements@),
            forall|k: int|
                0 <= k < arr.elements@.len() ==> val_wf(vview(#[trigger] arr.elements@[k])),
            reps@.len() == keys@.len(),
            reps@.len() == counts@.len(),
            vviews(reps@) == uniq_vals(vviews(arr.elements@.subrange(0, i as int))),
            forall|k: int| 0 <= k < reps@.len() ==> val_wf(vview(#[trigger] reps@[k])),
            forall|k: int|
                0 <= k < keys@.len() ==> (#[trigger] keys@[k])@ == val_key(vviews(reps@)[k]),
            forall|k: int|
                0 <= k < counts@.len() ==> (#[trigger] counts@[k]) as nat == key_count(
                    vviews(arr.elements@.subrange(0, i as int)),
                    val_key(vviews(reps@)[k]),
                ),
            forall|k: int| 0 <= k < counts@.len() ==> (#[trigger] counts@[k]) <= i,
            forall|k: int, l: int|
                0 <= k < l < keys@.len() ==> (#[trigger] keys@[k])@ != (#[trigger] keys@[l])@,
        decreases arr.elements@.len() - i,
    {
        proof {
            crate::value::lemma_vviews(arr.elements@);
            let pre = arr.elements@.subrange(0, i as int);
            let cur = arr.elements@.subrange(0, i + 1);
            crate::value::lemma_vviews(pre);
            crate::value::lemma_vviews(cur);
            assert(cur.drop_last() =~= pre);
            assert(vviews(cur).drop_last() =~= vviews(pre));
            assert(vviews(cur).last() == vview(arr.elements@[i as int]));
        }
        let key = value_to_key(&arr.elements[i]);
        let ghost prev = vviews(arr.elements@.subrange(0, i as int));
        let ghost curv = vviews(arr.elements@.subrange(0, i + 1));
        let found = find_key(&keys, &key);
        proof {
            crate::value::lemma_vviews(reps@);
        }
        match found {
            Some(idx) => {
                proof {
                    assert(val_key(vviews(reps@)[idx as int]) == key@);
                    assert(has_key(vviews(reps@), val_key(vview(arr.elements@[i as int]))));
                    assert(uniq_vals(curv) == vviews(reps@));
                    // counts update: only the found key's count rises by one
                    lemma_key_count_step(prev, vview(arr.elements@[i as int]), vviews(reps@));
                }
                let c = counts[idx];
                counts.set(idx, c + 1);
                proof {
                    assert forall|k: int| 0 <= k < counts@.len() implies (#[trigger] counts@[k])
                        as nat == key_count(curv, val_key(vviews(reps@)[k])) by {
                        if k == idx {
                            assert(val_key(curv.last()) == val_key(vviews(reps@)[k]));
                        } else {
                            assert(keys@[k]@ != key@);
                            assert(val_key(vviews(reps@)[k]) != val_key(curv.last()));
                        }
                    }
                }
            },
            None => {
                proof {
                    assert forall|j: int| 0 <= j < vviews(reps@).len() implies val_key(
                        #[trigger] vviews(reps@)[j],
                    ) != val_key(vview(arr.elements@[i as int])) by {
                        assert(keys@[j]@ == val_key(vviews(reps@)[j]));
                    }
                    assert(!has_key(vviews(reps@), val_key(vview(arr.elements@[i as int]))));
                    lemma_key_count_step(prev, vview(arr.elements@[i as int]), vviews(reps@));
                }
                let ghost before_reps = reps@;
                let e = arr.elements[i].deep_copy();
                reps.push(e);
                keys.push(key);
                counts.push(1);
                proof {
                    crate::value::lemma_vviews(before_reps);
                    crate::value::lemma_vviews(reps@);
                    assert(vviews(reps@) =~= vviews(before_reps).push(
                        vview(arr.elements@[i as int]),
                    ));
                    assert(uniq_vals(curv) == vviews(reps@));
                    lemma_new_key_count(prev, vview(arr.elements@[i as int]));
                    assert forall|k: int| 0 <= k < counts@.len() implies (#[trigger] counts@[k])
                        as nat == key_count(curv, val_key(vviews(reps@)[k])) by {
                        if k < counts@.len() - 1 {
                            assert(vviews(reps@)[k] == vviews(before_reps)[k]);
                        } else {
                            assert(vviews(reps@)[k] == curv.last());
                        }
                    }
                }
            },
        }
        i = i + 1;
    }
    proof {
        assert(arr.elements@.subrange(0, arr.elements@.len() as int) =~= arr.elements@);
    }
    proof {
        crate::value::lemma_vviews(reps@);
        assert(Seq::new(reps@.len(), |k: int| (counts@[k] as nat, vview(reps@[k])))
            =~= spec_pairs(orig));
        assert(forall|k: int|
            0 <= k < counts@.len() ==> (#[trigger] counts@[k]) <= 0x7fff_ffff_ffff_ffff);
    }
    count_rows(counts, reps)
}

/// The `[count, value]` rows of the count/representative pairs, stable-sorted
/// by count descending.
fn count_rows(counts: Vec<u64>, reps: Vec<Value>) -> (r: TResult<Value>)
    requires
        counts@.len() == reps@.len(),
        forall|k: int| 0 <= k < reps@.len() ==> val_wf(vview(#[trigger] reps@[k])),
        forall|k: int| 0 <= k < counts@.len() ==> (#[trigger] counts@[k]) <= 0x7fff_ffff_ffff_ffff,
    ensures
        match r {
            Ok(v) => v@ == (Val::Arr {
                level: Level::Line,
                elems: rows_of(
                    sort_pairs(
                        Seq::new(reps@.len(), |k: int| (counts@[k] as nat, vview(reps@[k]))),
                    ),
                ),
            }) && val_wf(v@),
            Err(_) => false,
        },
{
    let ghost pairs0 = Seq::new(reps@.len(), |k: int| (counts@[k] as nat, vview(reps@[k])));
    proof {
        crate::value::lemma_vviews(reps@);
    }
    let mut sc: Vec<u64> = Vec::new();
    let mut sv: Vec<Value> = Vec::new();
    let mut k: usize = 0;
    proof {
        assert(pairs0.subrange(0, 0) =~= Seq::<(nat, Val)>::empty());
        assert(Seq::new(sv@.len(), |j: int| (sc@[j] as nat, vviews(sv@)[j])) =~= sort_pairs(
            pairs0.subrange(0, 0),
        ));
    }
    while k < reps.len()
        invariant
            k <= reps@.len(),
            reps@.len() == counts@.len(),
            sc@.len() == sv@.len(),
            pairs0 == Seq::new(reps@.len(), |j: int| (counts@[j] as nat, vview(reps@[j]))),
            pairs0.len() == reps@.len(),
            forall|j: int| 0 <= j < reps@.len() ==> val_wf(vview(#[trigger] reps@[j])),
            forall|j: int| 0 <= j < sv@.len() ==> val_wf(vview(#[trigger] sv@[j])),
            forall|j: int| 0 <= j < counts@.len() ==> (#[trigger] counts@[j])
                <= 0x7fff_ffff_ffff_ffff,
            forall|j: int| 0 <= j < sc@.len() ==> (#[trigger] sc@[j]) <= 0x7fff_ffff_ffff_ffff,
            Seq::new(sv@.len(), |j: int| (sc@[j] as nat, vviews(sv@)[j])) == sort_pairs(
                pairs0.subrange(0, k as int),
            ),
        decreases reps@.len() - k,
    {
        proof {
            crate::value::lemma_vviews(reps@);
        }
        let c = counts[k];
        let v = reps[k].deep_copy();
        // scan from the right for the insertion position
        let ghost cur_sorted = Seq::new(sv@.len(), |j: int| (sc@[j] as nat, vviews(sv@)[j]));
        let p = scan_pair_pos(&sc, c);
        let ghost before_sc = sc@;
        let ghost before_sv = sv@;
        sc.insert(p, c);
        sv.insert(p, v);
        proof {
            crate::value::lemma_vviews(before_sv);
            crate::value::lemma_vviews(sv@);
            let pr = (c as nat, vview(reps@[k as int]));
            lemma_insert_pair_at(cur_sorted, pr, p as int);
            let nxt = Seq::new(sv@.len(), |j: int| (sc@[j] as nat, vviews(sv@)[j]));
            assert(nxt =~= cur_sorted.insert(p as int, pr)) by {
                assert forall|j: int| 0 <= j < nxt.len() implies nxt[j] == cur_sorted.insert(
                    p as int,
                    pr,
                )[j] by {
                    if j < p {
                        assert(sv@[j] == before_sv[j] && sc@[j] == before_sc[j]);
                    } else if j == p {
                        assert(vviews(sv@)[j] == vview(reps@[k as int]));
                    } else {
                        assert(sv@[j] == before_sv[j - 1] && sc@[j] == before_sc[j - 1]);
                    }
                }
            }
            let pre = pairs0.subrange(0, k as int);
            let cur = pairs0.subrange(0, k + 1);
            assert(cur.drop_last() =~= pre);
            assert(cur.last() == pairs0[k as int]);
            assert(pairs0[k as int] == pr);
        }
        k = k + 1;
    }
    proof {
        assert(pairs0.subrange(0, pairs0.len() as int) =~= pairs0);
    }
    // third pass: build the [count, value] rows
    let ghost sorted = sort_pairs(pairs0);
    let mut out: Vec<Value> = Vec::new();
    let mut j: usize = 0;
    proof {
        assert(sorted == Seq::new(sv@.len(), |l: int| (sc@[l] as nat, vviews(sv@)[l])));
    }
    while j < sv.len()
        invariant
            j <= sv@.len(),
            sc@.len() == sv@.len(),
            sorted == Seq::new(sv@.len(), |l: int| (sc@[l] as nat, vviews(sv@)[l])),
            sorted.len() == sv@.len(),
            forall|l: int| 0 <= l < sv@.len() ==> val_wf(vview(#[trigger] sv@[l])),
            forall|l: int| 0 <= l < sc@.len() ==> (#[trigger] sc@[l]) <= 0x7fff_ffff_ffff_ffff,
            out@.len() == j,
            forall|l: int|
                0 <= l < j ==> vview(#[trigger] out@[l]) == (Val::Arr {
                    level: Level::Word,
                    elems: seq![Val::Num { m: sorted[l].0 as int, s: 0 }, sorted[l].1],
                }),
            forall|l: int| 0 <= l < out@.len() ==> val_wf(vview(#[trigger] out@[l])),
        decreases sv@.len() - j,
    {
        proof {
            crate::value::lemma_vviews(sv@);
        }
        let mut pair: Vec<Value> = Vec::new();
        pair.push(Value::Number(Number::from_int(sc[j] as i64)));
        let v = sv[j].deep_copy();
        pair.push(v);
        let ghost before = out@;
        out.push(Value::Array(Array { level: Level::Word, elements: pair }));
        proof {
            crate::value::lemma_vviews(before);
            crate::value::lemma_vviews(out@);
            crate::value::lemma_vviews(pair@);
            crate::value::lemma_vviews(sv@);
            assert(vviews(out@)[j as int] == vview(out@[j as int]));
            assert(vview(out@[j as int])->Arr_elems =~= seq![
                Val::Num { m: sorted[j as int].0 as int, s: 0 },
                sorted[j as int].1,
            ]);
            assert(val_wf(sorted[j as int].1)) by {
                assert(vviews(sv@)[j as int] == vview(sv@[j as int]));
            }
            assert(val_wf(vview(out@[j as int]))) by {
                let pe = vview(out@[j as int])->Arr_elems;
                assert forall|l: int| 0 <= l < pe.len() implies val_wf(#[trigger] pe[l]) by {
                    if l == 0 {
                        assert(pe[0] == Val::Num { m: sorted[j as int].0 as int, s: 0 });
                    } else {
                        assert(pe[1] == sorted[j as int].1);
                    }
                }
            }
        }
        j = j + 1;
    }
    proof {
        crate::value::lemma_vviews(out@);
        assert(vviews(out@) =~= rows_of(sorted));
        crate::value::lemma_wf_build(Level::Line, out@);
    }
    Ok(Value::Array(Array { level: Level::Line, elements: out }))
}

/// The position where a stable count-descending insertion puts a pair:
/// scanning from the right, past every count smaller than the new one.
fn scan_pair_pos(sc: &Vec<u64>, c: u64) -> (p: usize)
    ensures
        p <= sc@.len(),
        forall|j: int| p <= j < sc@.len() ==> !((#[trigger] sc@[j]) >= c),
        p > 0 ==> sc@[p - 1] >= c,
{
    let mut p = sc.len();
    while p > 0
        invariant
            p <= sc@.len(),
            forall|j: int| p <= j < sc@.len() ==> !((#[trigger] sc@[j]) >= c),
        decreases p,
    {
        if sc[p - 1] >= c {
            return p;
        }
        p = p - 1;
    }
    p
}

/// Appending one element raises exactly its key's count by one.
proof fn lemma_key_count_step(prev: Seq<Val>, e: Val, reps: Seq<Val>)
    ensures
        forall|k: Seq<char>|
            #[trigger] key_count(prev.push(e), k) == key_count(prev, k) + (if val_key(e) == k {
                1nat
            } else {
                0nat
            }),
{
    assert forall|k: Seq<char>| #[trigger] key_count(prev.push(e), k) == key_count(prev, k) + (
    if val_key(e) == k {
        1nat
    } else {
        0nat
    }) by {
        assert(prev.push(e).drop_last() =~= prev);
        assert(prev.push(e).last() == e);
    }
}

/// A key no previous element carries counts zero so far.
pub proof fn lemma_new_key_count_public(prev: Seq<Val>, e: Val)
    requires
        !has_key(uniq_vals(prev), val_key(e)),
    ensures
        key_count(prev, val_key(e)) == 0,
{
    lemma_new_key_count(prev, e);
}

/// The dedupe rows and the representatives are equally many.
pub proof fn lemma_uniq_len(s: Seq<Val>)
    ensures
        spec_pairs(s).len() == uniq_vals(s).len(),
{
}

/// Every row of a stable pair insertion is the new pair or one of the old
/// rows.
pub proof fn lemma_insert_pair_members(ps: Seq<(nat, Val)>, p: (nat, Val))
    ensures
        forall|k: int|
            0 <= k < insert_pair(ps, p).len() ==> (#[trigger] insert_pair(ps, p)[k]) == p
                || exists|w: int| 0 <= w < ps.len() && insert_pair(ps, p)[k] == ps[w],
    decreases ps.len(),
{
    let t = insert_pair(ps, p);
    if ps.len() == 0 {
        assert(t[0] == p);
    } else if ps.last().0 >= p.0 {
        assert(t == ps.push(p));
        assert forall|k: int| 0 <= k < t.len() implies (#[trigger] t[k]) == p || exists|w: int|
            0 <= w < ps.len() && t[k] == ps[w] by {
            if k < ps.len() {
                assert(t[k] == ps[k]);
            }
        }
    } else {
        lemma_insert_pair_members(ps.drop_last(), p);
        let t0 = insert_pair(ps.drop_last(), p);
        assert(t == t0.push(ps.last()));
        assert forall|k: int| 0 <= k < t.len() implies (#[trigger] t[k]) == p || exists|w: int|
            0 <= w < ps.len() && t[k] == ps[w] by {
            if k < t.len() - 1 {
                assert(t[k] == t0[k]);
                if t0[k] != p {
                    let w = choose|w: int| 0 <= w < ps.drop_last().len() && t0[k] == ps.drop_last()[w];
                    assert(ps.drop_last()[w] == ps[w]);
                }
            } else {
                assert(t[k] == ps[ps.len() - 1]);
            }
        }
    }
}

/// A key no previous element carries counts zero so far.
proof fn lemma_new_key_count(prev: Seq<Val>, e: Val)
    requires
        !has_key(uniq_vals(prev), val_key(e)),
    ensures
        key_count(prev, val_key(e)) == 0,
    decreases prev,
{
    if prev.len() > 0 {
        let u = uniq_vals(prev.drop_last());
        assert(uniq_vals(prev) == if has_key(u, val_key(prev.last())) {
            u
        } else {
            u.push(prev.last())
        });
        assert forall|i: int| 0 <= i < u.len() implies val_key(#[trigger] u[i]) != val_key(e) by {
            if has_key(u, val_key(prev.last())) {
                assert(uniq_vals(prev)[i] == u[i]);
            } else {
                assert(u.push(prev.last())[i] == u[i]);
            }
        }
        if val_key(prev.last()) == val_key(e) {
            if has_key(u, val_key(prev.last())) {
                lemma_uniq_has_all_keys(prev.drop_last(), val_key(e));
                assert(false);
            } else {
                assert(u.push(prev.last()).last() == prev.last());
                assert(has_key(uniq_vals(prev), val_key(e)));
                assert(false);
            }
        }
        lemma_new_key_count(prev.drop_last(), e);
    }
}

/// The unique list carries every key the sequence carries.
proof fn lemma_uniq_has_all_keys(s: Seq<Val>, k: Seq<char>)
    ensures
        has_key(s, k) ==> has_key(uniq_vals(s), k),
        has_key(uniq_vals(s), k) ==> has_key(s, k),
    decreases s,
{
    if s.len() > 0 {
        lemma_uniq_has_all_keys(s.drop_last(), k);
        let u = uniq_vals(s.drop_last());
        if has_key(u, val_key(s.last())) {
            assert(uniq_vals(s) == u);
            if has_key(s, k) {
                let i = choose|i: int| 0 <= i < s.len() && val_key(s[i]) == k;
                if i < s.len() - 1 {
                    assert(s.drop_last()[i] == s[i]);
                    assert(has_key(s.drop_last(), k));
                } else {
                    assert(s[i] == s.last());
                }
            }
            if has_key(uniq_vals(s), k) {
                let i = choose|i: int| 0 <= i < u.len() && val_key(u[i]) == k;
                assert(has_key(s.drop_last(), k));
                let j = choose|j: int| 0 <= j < s.drop_last().len() && val_key(s.drop_last()[j]) == k;
                assert(s[j] == s.drop_last()[j]);
            }
        } else {
            assert(uniq_vals(s) == u.push(s.last()));
            if has_key(s, k) {
                let i = choose|i: int| 0 <= i < s.len() && val_key(s[i]) == k;
                if i < s.len() - 1 {
                    assert(s.drop_last()[i] == s[i]);
                    assert(has_key(s.drop_last(), k));
                    let j = choose|j: int| 0 <= j < u.len() && val_key(u[j]) == k;
                    assert(u.push(s.last())[j] == u[j]);
                } else {
                    assert(s[i] == s.last());
                    assert(u.push(s.last()).last() == s.last());
                }
            }
            if has_key(uniq_vals(s), k) {
                let i = choose|i: int|
                    0 <= i < u.push(s.last()).len() && val_key(u.push(s.last())[i]) == k;
                if i < u.len() {
                    assert(u.push(s.last())[i] == u[i]);
                    assert(has_key(u, k));
                    let j = choose|j: int|
                        0 <= j < s.drop_last().len() && val_key(s.drop_last()[j]) == k;
                    assert(s[j] == s.drop_last()[j]);
                } else {
                    assert(u.push(s.last())[i] == s.last());
                }
            }
        }
    }
}

/// Where the right-to-left scan of the stable pair insertion stops, the
/// insertion happens.
proof fn lemma_insert_pair_at(s: Seq<(nat, Val)>, p: (nat, Val), at: int)
    requires
        0 <= at <= s.len(),
        forall|j: int| at <= j < s.len() ==> !((#[trigger] s[j]).0 >= p.0),
        at > 0 ==> s[at - 1].0 >= p.0,
    ensures
        insert_pair(s, p) == s.insert(at, p),
    decreases s.len(),
{
    if s.len() == 0 {
        assert(insert_pair(s, p) =~= s.insert(0, p));
    } else if at == s.len() {
        assert(s.last().0 >= p.0);
        assert(insert_pair(s, p) == s.push(p));
        assert(s.push(p) =~= s.insert(at, p));
    } else {
        assert(!(s.last().0 >= p.0));
        lemma_insert_pair_at(s.drop_last(), p, at);
        assert(insert_pair(s, p) == s.drop_last().insert(at, p).push(s.last()));
        assert(s.drop_last().insert(at, p).push(s.last()) =~= s.insert(at, p));
    }
}

/// What dedupe-by-selection yields: one `[count, value]` row per distinct
/// selected key, the value being the first element carrying it, rows sorted
/// by count descending, ties in first-occurrence order.
pub open spec fn spec_dedupe_sel(items: Seq<SelectItem>, s: Seq<Val>) -> Result<Val, Seq<char>> {
    match spec_groups(items, s) {
        Ok(gs) => Ok(
            Val::Arr {
                level: Level::Line,
                elems: rows_of(
                    sort_pairs(Seq::new(gs.len(), |k: int| (gs[k].1.len(), gs[k].1[0]))),
                ),
            },
        ),
        Err(e) => Err(e),
    }
}

/// Every group a grouping yields holds at least one member.
pub proof fn lemma_groups_nonempty(items: Seq<SelectItem>, s: Seq<Val>)
    ensures
        spec_groups(items, s) matches Ok(gs) ==> forall|k: int|
            0 <= k < gs.len() ==> (#[trigger] gs[k]).1.len() >= 1,
    decreases s,
{
    if s.len() > 0 {
        lemma_groups_nonempty(items, s.drop_last());
        if spec_groups(items, s) is Ok {
            let gs0 = spec_groups(items, s.drop_last())->Ok_0;
            let key = crate::operators::group::spec_extract_key(items, s.last())->Ok_0;
            let i = crate::operators::group::find_group(gs0, val_key(key));
            crate::operators::group::lemma_find_group_nonneg(gs0, val_key(key));
            let gs = spec_groups(items, s)->Ok_0;
            assert forall|k: int| 0 <= k < gs.len() implies (#[trigger] gs[k]).1.len() >= 1 by {
                if i < gs0.len() {
                    if k != i {
                        assert(gs[k] == gs0[k]);
                    }
                } else {
                    if k < gs0.len() {
                        assert(gs[k] == gs0[k]);
                    }
                }
            }
        }
    }
}

/// `D<selection>`: dedupe by the value(s) at the selection, with counts.
pub struct DedupeSelectionWithCounts {
    pub selection: Selection,
}

impl DedupeSelectionWithCounts {
    pub fn new(selection: Selection) -> (r: DedupeSelectionWithCounts)
        ensures
            r.selection == selection,
    {
        DedupeSelectionWithCounts { selection }
    }

    /// Dedupe an array by the selected key, counting each key's elements and
    /// keeping the first element carrying it; anything else passes through.
    /// Fails on a lone out-of-range index, or where a count cannot be
    /// represented, which no array that fits in memory reaches.
    pub fn apply(&self, value: Value) -> (r: TResult<Value>)
        requires
            val_wf(value@),
        ensures
            match r {
                Ok(v) => (match value {
                    Value::Array(arr) => spec_dedupe_sel(
                        self.selection.items@,
                        vviews(arr.elements@),
                    ) == Ok::<Val, Seq<char>>(v@) && vviews(arr.elements@).len()
                        <= 0x7fff_ffff_ffff_ffff,
                    _ => v@ == value@,
                }) && val_wf(v@),
                Err(e) => value@ is Arr && (if value@->Arr_elems.len()
                    > 0x7fff_ffff_ffff_ffff {
                    e.message@ == "count does not fit a number"@
                } else {
                    spec_dedupe_sel(self.selection.items@, value@->Arr_elems) == Err::<
                        Val,
                        Seq<char>,
                    >(e.message@)
                }),
            },
    {
        match value {
            Value::Array(arr) => {
                proof {
                    crate::value::lemma_vviews(arr.elements@);
                }
                let ghost items = self.selection.items@;
                let ghost orig = vviews(arr.elements@);
                let n = arr.elements.len();
                if (n as u64) > 0x7fff_ffff_ffff_ffffu64 {
                    proof {
                        reveal_strlit("count does not fit a number");
                    }
                    return Err(Error::runtime("count does not fit a number".to_owned()));
                }
                let (gkeys, gmembers) = match collect_groups(&self.selection, &arr) {
                    Ok(pair) => pair,
                    Err(e) => {
                        return Err(e);
                    },
                };
                proof {
                    lemma_groups_nonempty(items, orig);
                    crate::operators::group::lemma_group_sizes_bounded(items, orig);
                }
                let ghost gs = groups_model(gkeys@, gmembers@);
                let mut counts: Vec<u64> = Vec::new();
                let mut reps: Vec<Value> = Vec::new();
                let mut k: usize = 0;
                while k < gmembers.len()
                    invariant
                        k <= gmembers@.len(),
                        gkeys@.len() == gmembers@.len(),
                        gs == groups_model(gkeys@, gmembers@),
                        gs.len() == gmembers@.len(),
                        forall|j: int|
                            0 <= j < gs.len() ==> (#[trigger] gs[j]).1.len() >= 1,
                        forall|j: int|
                            0 <= j < gs.len() ==> (#[trigger] gs[j]).1.len()
                                <= 0x7fff_ffff_ffff_ffff,
                        forall|j: int, l: int|
                            0 <= j < gmembers@.len() && 0 <= l < (#[trigger] gmembers@[j])@.len()
                                ==> val_wf(vview(#[trigger] gmembers@[j]@[l])),
                        counts@.len() == k,
                        reps@.len() == k,
                        forall|j: int|
                            0 <= j < k ==> (#[trigger] counts@[j]) as nat == gs[j].1.len(),
                        forall|j: int| 0 <= j < k ==> vview(#[trigger] reps@[j]) == gs[j].1[0],
                        forall|j: int| 0 <= j < k ==> val_wf(vview(#[trigger] reps@[j])),
                        forall|j: int|
                            0 <= j < k ==> (#[trigger] counts@[j]) <= 0x7fff_ffff_ffff_ffff,
                    decreases gmembers@.len() - k,
                {
                    proof {
                        assert(gs[k as int].1 == vviews(gmembers@[k as int]@));
                        crate::value::lemma_vviews(gmembers@[k as int]@);
                    }
                    let row = &gmembers[k];
                    counts.push(row.len() as u64);
                    let rep = row[0].deep_copy();
                    reps.push(rep);
                    k = k + 1;
                }
                let ghost pairs0 = Seq::new(
                    reps@.len(),
                    |j: int| (counts@[j] as nat, vview(reps@[j])),
                );
                proof {
                    assert(pairs0 =~= Seq::new(
                        gs.len(),
                        |j: int| (gs[j].1.len(), gs[j].1[0]),
                    ));
                }
                count_rows(counts, reps)
            },
            other => Ok(other),
        }
    }
}

/// `x`-style plain dedupe: unique values in first-occurrence order.
pub struct Dedupe;

impl Dedupe {
    /// Keep the first occurrence of each distinct value; anything else
    /// passes through.
    pub fn apply(&self, value: Value) -> (r: Value)
        requires
            val_wf(value@),
        ensures
            match value {
                Value::Array(arr) => r@ == (Val::Arr {
                    level: arr.level,
                    elems: uniq_vals(vviews(arr.elements@)),
                }),
                _ => r@ == value@,
            },
            val_wf(r@),
    {
        match value {
            Value::Array(arr) => {
                proof {
                    crate::value::lemma_arr_wf_elems(arr@);
                    crate::value::lemma_vviews(arr.elements@);
                    crate::value::lemma_wf_through(arr.level, arr.elements@);
                }
                let ghost orig = vviews(arr.elements@);
                let level = arr.level;
                let mut reps: Vec<Value> = Vec::new();
                let mut keys: Vec<String> = Vec::new();
                let mut i: usize = 0;
                proof {
                    assert(arr.elements@.subrange(0, 0) =~= Seq::<Value>::empty());
                    assert(vviews(reps@) =~= uniq_vals(vviews(arr.elements@.subrange(0, 0))));
                }
                while i < arr.elements.len()
                    invariant
                        i <= arr.elements@.len(),
                        orig == vviews(arr.elements@),
                        forall|k: int|
                            0 <= k < arr.elements@.len() ==> val_wf(
                                vview(#[trigger] arr.elements@[k]),
                            ),
                        reps@.len() == keys@.len(),
                        vviews(reps@) == uniq_vals(vviews(arr.elements@.subrange(0, i as int))),
                        forall|k: int| 0 <= k < reps@.len() ==> val_wf(vview(#[trigger] reps@[k])),
                        forall|k: int|
                            0 <= k < keys@.len() ==> (#[trigger] keys@[k])@ == val_key(
                                vviews(reps@)[k],
                            ),
                    decreases arr.elements@.len() - i,
                {
                    proof {
                        crate::value::lemma_vviews(arr.elements@);
                        let pre = arr.elements@.subrange(0, i as int);
                        let cur = arr.elements@.subrange(0, i + 1);
                        crate::value::lemma_vviews(pre);
                        crate::value::lemma_vviews(cur);
                        assert(cur.drop_last() =~= pre);
                        assert(vviews(cur).drop_last() =~= vviews(pre));
                        assert(vviews(cur).last() == vview(arr.elements@[i as int]));
                    }
                    let key = value_to_key(&arr.elements[i]);
                    let found = find_key(&keys, &key);
                    proof {
                        crate::value::lemma_vviews(reps@);
                    }
                    match found {
                        Some(idx) => {
                            proof {
                                assert(val_key(vviews(reps@)[idx as int]) == key@);
                                assert(has_key(
                                    vviews(reps@),
                                    val_key(vview(arr.elements@[i as int])),
                                ));
                            }
                        },
                        None => {
                            proof {
                                assert forall|j: int| 0 <= j < vviews(reps@).len() implies val_key(
                                    #[trigger] vviews(reps@)[j],
                                ) != val_key(vview(arr.elements@[i as int])) by {
                                    assert(keys@[j]@ == val_key(vviews(reps@)[j]));
                                }
                                assert(!has_key(
                                    vviews(reps@),
                                    val_key(vview(arr.elements@[i as int])),
                                ));
                            }
                            let ghost before = reps@;
                            let e = arr.elements[i].deep_copy();
                            reps.push(e);
                            keys.push(key);
                            proof {
                                crate::value::lemma_vviews(before);
                                crate::value::lemma_vviews(reps@);
                                assert(vviews(reps@) =~= vviews(before).push(
                                    vview(arr.elements@[i as int]),
                                ));
                            }
                        },
                    }
                    i = i + 1;
                }
                proof {
                    assert(arr.elements@.subrange(0, arr.elements@.len() as int)
                        =~= arr.elements@);
                    crate::value::lemma_wf_build(level, reps@);
                }
                Value::Array(Array { level, elements: reps })
            },
            other => other,
        }
    }
}

} // verus!
