//! The group-by operator.

use vstd::prelude::*;

use crate::ast::{SelectItem, Selection};
use crate::error::{Error, TResult};
use crate::render::{val_key, value_to_key};
use crate::select::{idxs_of, norm_index, selection_indices_for, spec_selection_indices};
use crate::value::{val_wf, vview, vviews, Array, Val, Value};

verus! {

broadcast use vstd::std_specs::vec::group_vec_axioms, vstd::seq::group_seq_axioms;

/// The grouping key of one element: for an array, the element at a lone
/// index (out of range is an error) or the composite of the selected
/// elements; anything else keys by itself.
pub open spec fn spec_extract_key(items: Seq<SelectItem>, v: Val) -> Result<Val, Seq<char>> {
    match v {
        Val::Arr { level, elems } => {
            if items.len() == 1 && items[0] is Index {
                let a = norm_index(items[0]->Index_0 as int, elems.len() as int);
                if 0 <= a < elems.len() {
                    Ok(elems[a])
                } else {
                    Err("index out of bounds"@)
                }
            } else {
                let picked = spec_selection_indices(items, elems.len() as int);
                Ok(Val::Arr { level, elems: Seq::new(picked.len(), |k: int| elems[picked[k]]) })
            }
        },
        other => Ok(other),
    }
}

/// The first group whose key renders the same, or the group count where
/// none does.
pub open spec fn find_group(gs: Seq<(Val, Seq<Val>)>, k: Seq<char>) -> int
    decreases gs.len(),
{
    if gs.len() == 0 {
        0
    } else if val_key(gs.first().0) == k {
        0
    } else {
        1 + find_group(gs.drop_first(), k)
    }
}

/// The groups of a sequence, built left to right: each element joins the
/// group of its key, new keys open a group at the end.
pub open spec fn spec_groups(items: Seq<SelectItem>, s: Seq<Val>) -> Result<
    Seq<(Val, Seq<Val>)>,
    Seq<char>,
>
    decreases s,
{
    if s.len() == 0 {
        Ok(Seq::<(Val, Seq<Val>)>::empty())
    } else {
        match spec_groups(items, s.drop_last()) {
            Ok(gs) => match spec_extract_key(items, s.last()) {
                Ok(k) => {
                    let i = find_group(gs, val_key(k));
                    if i < gs.len() {
                        Ok(gs.update(i, (gs[i].0, gs[i].1.push(s.last()))))
                    } else {
                        Ok(gs.push((k, seq![s.last()])))
                    }
                },
                Err(e) => Err(e),
            },
            Err(e) => Err(e),
        }
    }
}

/// What group-by yields: `[key, [members...]]` rows in first-occurrence
/// order.
pub open spec fn spec_group_by(items: Seq<SelectItem>, level: crate::value::Level, s: Seq<Val>) -> Result<
    Val,
    Seq<char>,
> {
    match spec_groups(items, s) {
        Ok(gs) => Ok(
            Val::Arr {
                level,
                elems: Seq::new(
                    gs.len(),
                    |i: int|
                        Val::Arr {
                            level,
                            elems: seq![gs[i].0, Val::Arr { level, elems: gs[i].1 }],
                        },
                ),
            },
        ),
        Err(e) => Err(e),
    }
}

/// `g<selection>`: group elements by the value(s) at the selection.
pub struct GroupBy {
    pub selection: Selection,
}

/// Extract the grouping key of one element.
pub fn extract_key(selection: &Selection, v: &Value) -> (r: TResult<Value>)
    requires
        val_wf(v@),
    ensures
        match r {
            Ok(k) => spec_extract_key(selection.items@, v@) == Ok::<Val, Seq<char>>(k@) && val_wf(
                k@,
            ),
            Err(e) => spec_extract_key(selection.items@, v@) == Err::<Val, Seq<char>>(e.message@),
        },
{
    match v {
        Value::Array(arr) => {
            proof {
                crate::value::lemma_arr_wf_elems(v@);
                crate::value::lemma_vviews(arr.elements@);
                crate::value::lemma_wf_through(arr.level, arr.elements@);
            }
            let n = arr.elements.len();
            let sole = if selection.items.len() == 1 {
                match &selection.items[0] {
                    SelectItem::Index(idx) => Some(*idx),
                    _ => None,
                }
            } else {
                None
            };
            match sole {
                Some(idx) => {
                    let a = idx as i128 + (if idx < 0 {
                        n as i128
                    } else {
                        0
                    });
                    if 0 <= a && a < n as i128 {
                        let e = arr.elements[a as usize].deep_copy();
                        proof {
                            assert(val_wf(v@->Arr_elems[a as int]));
                        }
                        Ok(e)
                    } else {
                        proof {
                            reveal_strlit("index out of bounds");
                        }
                        Err(Error::runtime("index out of bounds".to_owned()))
                    }
                },
                None => {
                    let picked = selection_indices_for(selection, n);
                    let ghost pick = spec_selection_indices(selection.items@, n as int);
                    let mut out: Vec<Value> = Vec::new();
                    let mut k: usize = 0;
                    while k < picked.len()
                        invariant
                            n == arr.elements@.len(),
                            idxs_of(picked@) == pick,
                            forall|j: int| 0 <= j < picked@.len() ==> (#[trigger] picked@[j]) < n,
                            forall|j: int|
                                0 <= j < arr.elements@.len() ==> val_wf(
                                    vview(#[trigger] arr.elements@[j]),
                                ),
                            k <= picked@.len(),
                            out@.len() == k,
                            forall|j: int|
                                0 <= j < k ==> vview(#[trigger] out@[j]) == vviews(
                                    arr.elements@,
                                )[pick[j]],
                            forall|j: int| 0 <= j < k ==> val_wf(vview(#[trigger] out@[j])),
                        decreases picked@.len() - k,
                    {
                        let idx = picked[k];
                        proof {
                            assert(pick[k as int] == picked@[k as int] as int);
                            crate::select::lemma_selection_indices_in_range(
                                selection.items@,
                                n as int,
                            );
                            crate::value::lemma_vviews(arr.elements@);
                        }
                        let e = arr.elements[idx].deep_copy();
                        out.push(e);
                        k = k + 1;
                    }
                    proof {
                        crate::value::lemma_vviews(out@);
                        let want = spec_extract_key(selection.items@, v@);
                        assert(vviews(out@) =~= want->Ok_0->Arr_elems);
                    }
                    Ok(Value::Array(Array { level: arr.level, elements: out }))
                },
            }
        },
        other => {
            let e = other.deep_copy();
            Ok(e)
        },
    }
}

impl GroupBy {
    pub fn new(selection: Selection) -> (r: GroupBy)
        ensures
            r.selection == selection,
    {
        GroupBy { selection }
    }

    /// Whether correctness needs the whole input: it does, groups span all
    /// elements.
    pub fn requires_full_input(&self) -> (r: bool)
        ensures
            r,
    {
        true
    }

    /// Group an array's elements by their keys; anything else passes
    /// through.
    pub fn apply(&self, value: Value) -> (r: TResult<Value>)
        requires
            val_wf(value@),
        ensures
            match r {
                Ok(v) => (match value {
                    Value::Array(arr) => spec_group_by(
                        self.selection.items@,
                        arr.level,
                        vviews(arr.elements@),
                    ) == Ok::<Val, Seq<char>>(v@),
                    _ => v@ == value@,
                }) && val_wf(v@),
                Err(e) => value@ is Arr && spec_group_by(
                    self.selection.items@,
                    value@->Arr_level,
                    value@->Arr_elems,
                ) == Err::<Val, Seq<char>>(e.message@),
            },
    {
        match value {
            Value::Array(arr) => self.group_array(arr),
            other => Ok(other),
        }
    }

    /// Group one array.
    fn group_array(&self, arr: Array) -> (r: TResult<Value>)
        requires
            val_wf(arr@),
        ensures
            match r {
                Ok(v) => spec_group_by(self.selection.items@, arr.level, vviews(arr.elements@))
                    == Ok::<Val, Seq<char>>(v@) && val_wf(v@),
                Err(e) => spec_group_by(self.selection.items@, arr.level, vviews(arr.elements@))
                    == Err::<Val, Seq<char>>(e.message@),
            },
    {
        let ghost items = self.selection.items@;
        let ghost orig = vviews(arr.elements@);
        let level = arr.level;
        let (gkeys, gmembers) = match collect_groups(&self.selection, &arr) {
            Ok(pair) => pair,
            Err(e) => {
                return Err(e);
            },
        };
        assemble_groups(level, gkeys, gmembers, Ghost(items), Ghost(orig))
    }
}

/// Collect the groups of an array's elements, each a key and its members in
/// first-occurrence order.
pub(crate) fn collect_groups(selection: &Selection, arr: &Array) -> (r: TResult<
    (Vec<Value>, Vec<Vec<Value>>),
>)
    requires
        val_wf(arr@),
    ensures
        match r {
            Ok((gkeys, gmembers)) => {
                &&& gkeys@.len() == gmembers@.len()
                &&& spec_groups(selection.items@, vviews(arr.elements@)) == Ok::<
                    Seq<(Val, Seq<Val>)>,
                    Seq<char>,
                >(groups_model(gkeys@, gmembers@))
                &&& forall|k: int| 0 <= k < gkeys@.len() ==> val_wf(vview(#[trigger] gkeys@[k]))
                &&& forall|k: int, j: int|
                    0 <= k < gmembers@.len() && 0 <= j < (#[trigger] gmembers@[k])@.len()
                        ==> val_wf(vview(#[trigger] gmembers@[k]@[j]))
            },
            Err(e) => spec_groups(selection.items@, vviews(arr.elements@)) == Err::<
                Seq<(Val, Seq<Val>)>,
                Seq<char>,
            >(e.message@),
        },
{
    proof {
        crate::value::lemma_arr_wf_elems(arr@);
        crate::value::lemma_vviews(arr.elements@);
        crate::value::lemma_wf_through(arr.level, arr.elements@);
    }
    let ghost items = selection.items@;
    let ghost orig = vviews(arr.elements@);
    let level = arr.level;
    let mut gkeys: Vec<Value> = Vec::new();
        let mut gkeystrs: Vec<String> = Vec::new();
        let mut gmembers: Vec<Vec<Value>> = Vec::new();
        let mut i: usize = 0;
        proof {
            assert(arr.elements@.subrange(0, 0) =~= Seq::<Value>::empty());
            assert(vviews(arr.elements@.subrange(0, 0)) =~= Seq::<Val>::empty());
            assert(groups_model(gkeys@, gmembers@) =~= Seq::<(Val, Seq<Val>)>::empty());
        }
        while i < arr.elements.len()
            invariant
                i <= arr.elements@.len(),
                orig == vviews(arr.elements@),
                level == arr.level,
                items == selection.items@,
                forall|k: int|
                    0 <= k < arr.elements@.len() ==> val_wf(vview(#[trigger] arr.elements@[k])),
                gkeys@.len() == gkeystrs@.len(),
                gkeys@.len() == gmembers@.len(),
                forall|k: int| 0 <= k < gkeys@.len() ==> val_wf(vview(#[trigger] gkeys@[k])),
                forall|k: int, j: int|
                    0 <= k < gmembers@.len() && 0 <= j < (#[trigger] gmembers@[k])@.len()
                        ==> val_wf(vview(#[trigger] gmembers@[k]@[j])),
                forall|k: int|
                    0 <= k < gkeystrs@.len() ==> (#[trigger] gkeystrs@[k])@ == val_key(
                        vview(gkeys@[k]),
                    ),
                forall|k: int, l: int|
                    0 <= k < l < gkeystrs@.len() ==> (#[trigger] gkeystrs@[k])@ != (
                    #[trigger] gkeystrs@[l])@,
                Ok::<Seq<(Val, Seq<Val>)>, Seq<char>>(
                    groups_model(gkeys@, gmembers@),
                ) == spec_groups(items, vviews(arr.elements@.subrange(0, i as int))),
            decreases arr.elements@.len() - i,
        {
            proof {
                crate::value::lemma_vviews(arr.elements@);
                let pre = arr.elements@.subrange(0, i as int);
                let cur = arr.elements@.subrange(0, i + 1);
                crate::value::lemma_vviews(pre);
                crate::value::lemma_vviews(cur);
                assert(cur.drop_last() =~= pre);
                assert(vviews(cur).drop_last() =~= vviews(pre));
                assert(vviews(cur).last() == vview(arr.elements@[i as int]));
            }
            let key = match extract_key(selection, &arr.elements[i]) {
                Ok(k) => k,
                Err(e) => {
                    proof {
                        crate::value::lemma_vviews(arr.elements@);
                        let pre = arr.elements@.subrange(0, i as int);
                        crate::value::lemma_vviews(pre);
                        assert(vviews(pre) =~= vviews(arr.elements@).subrange(0, i as int));
                        lemma_groups_err(items, vviews(arr.elements@), i as int, e.message@);
                    }
                    return Err(e);
                },
            };
            proof {
                assert(spec_extract_key(items, vview(arr.elements@[i as int])) == Ok::<
                    Val,
                    Seq<char>,
                >(vview(key)));
            }
            let keystr = value_to_key(&key);
            let found = find_key_at(&gkeystrs, &keystr);
            let ghost gs = groups_model(gkeys@, gmembers@);
            proof {
                lemma_find_group_matches(gs, gkeystrs@, keystr@);
            }
            match found {
                Some(idx) => {
                    let ghost before_members = gmembers@;
                    let e = arr.elements[i].deep_copy();
                    let mut member_row = gmembers.remove(idx);
                    let ghost row_before = member_row@;
                    member_row.push(e);
                    gmembers.insert(idx, member_row);
                    proof {
                        assert(gmembers@.len() == before_members.len());
                        assert forall|k: int|
                            0 <= k < gmembers@.len() && k != idx implies #[trigger] gmembers@[k]
                            == before_members[k] by {
                            assert(before_members.remove(idx as int).insert(
                                idx as int,
                                member_row,
                            )[k] == before_members[k]);
                        }
                        assert(row_before == before_members[idx as int]@);
                        assert(gmembers@[idx as int]@ == row_before.push(e));
                        crate::value::lemma_vviews(row_before);
                        crate::value::lemma_vviews(gmembers@[idx as int]@);
                        assert(vviews(gmembers@[idx as int]@) =~= vviews(row_before).push(
                            vview(arr.elements@[i as int]),
                        ));
                        let nxt = groups_model(gkeys@, gmembers@);
                        let upd = gs.update(
                            idx as int,
                            (gs[idx as int].0, gs[idx as int].1.push(vview(arr.elements@[i as int]))),
                        );
                        assert(nxt.len() == upd.len());
                        assert forall|k: int| 0 <= k < nxt.len() implies nxt[k] == upd[k] by {
                            if k == idx {
                                assert(nxt[k].0 == vview(gkeys@[k]));
                                assert(nxt[k].1 == vviews(gmembers@[k]@));
                                assert(upd[k].0 == gs[idx as int].0);
                                assert(gs[idx as int].0 == vview(gkeys@[k]));
                                assert(gs[idx as int].1 == vviews(before_members[k]@));
                                assert(nxt[k].1 == upd[k].1);
                            } else {
                                assert(gmembers@[k] == before_members[k]);
                                assert(nxt[k].0 == gs[k].0);
                                assert(nxt[k].1 == gs[k].1);
                                assert(upd[k] == gs[k]);
                            }
                        }
                        assert(nxt =~= upd);
                    }
                },
                None => {
                    let ghost before_keys = gkeys@;
                    let ghost before_members = gmembers@;
                    let e = arr.elements[i].deep_copy();
                    let mut row: Vec<Value> = Vec::new();
                    row.push(e);
                    gkeys.push(key);
                    gkeystrs.push(keystr);
                    gmembers.push(row);
                    proof {
                        let nxt = groups_model(gkeys@, gmembers@);
                        crate::value::lemma_vviews(row@);
                        assert(vviews(gmembers@[gmembers@.len() - 1]@) =~= seq![
                            vview(arr.elements@[i as int]),
                        ]);
                        let pushed = gs.push(
                            (
                                spec_extract_key(items, vview(arr.elements@[i as int]))->Ok_0,
                                seq![vview(arr.elements@[i as int])],
                            ),
                        );
                        assert(nxt.len() == pushed.len());
                        assert forall|k: int| 0 <= k < nxt.len() implies nxt[k] == pushed[k] by {
                            if k < nxt.len() - 1 {
                                assert(gkeys@[k] == before_keys[k]);
                                assert(gmembers@[k] == before_members[k]);
                                assert(nxt[k].0 == gs[k].0);
                                assert(nxt[k].1 == gs[k].1);
                                assert(pushed[k] == gs[k]);
                            } else {
                                assert(nxt[k].0 == vview(gkeys@[k]));
                                assert(gkeys@[k] == key);
                                assert(nxt[k].1 == vviews(gmembers@[k]@));
                                assert(gmembers@[k] == row);
                                assert(nxt[k].1 == pushed[k].1);
                                assert(spec_extract_key(items, vview(arr.elements@[i as int]))
                                    == Ok::<Val, Seq<char>>(vview(key)));
                                assert(pushed[k].0 == vview(key));
                                assert(nxt[k].0 == pushed[k].0);
                            }
                        }
                        assert(nxt =~= pushed);
                    }
                },
            }
            i = i + 1;
        }
        proof {
            assert(arr.elements@.subrange(0, arr.elements@.len() as int) =~= arr.elements@);
        }
    Ok((gkeys, gmembers))
}

/// Assemble the grouped rows: `[key, [members...]]` per group.
fn assemble_groups(
    level: crate::value::Level,
    gkeys: Vec<Value>,
    gmembers: Vec<Vec<Value>>,
    items: Ghost<Seq<SelectItem>>,
    orig: Ghost<Seq<Val>>,
) -> (r: TResult<Value>)
    requires
        gkeys@.len() == gmembers@.len(),
        spec_groups(items@, orig@) == Ok::<Seq<(Val, Seq<Val>)>, Seq<char>>(
            groups_model(gkeys@, gmembers@),
        ),
        forall|k: int| 0 <= k < gkeys@.len() ==> val_wf(vview(#[trigger] gkeys@[k])),
        forall|k: int, j: int|
            0 <= k < gmembers@.len() && 0 <= j < (#[trigger] gmembers@[k])@.len() ==> val_wf(
                vview(#[trigger] gmembers@[k]@[j]),
            ),
    ensures
        match r {
            Ok(v) => spec_group_by(items@, level, orig@) == Ok::<Val, Seq<char>>(v@) && val_wf(
                v@,
            ),
            Err(e) => false,
        },
{
        let ghost gs = groups_model(gkeys@, gmembers@);
        let mut out: Vec<Value> = Vec::new();
        let mut k: usize = 0;
        while k < gkeys.len()
            invariant
                k <= gkeys@.len(),
                gkeys@.len() == gmembers@.len(),
                gs == groups_model(gkeys@, gmembers@),
                gs.len() == gkeys@.len(),
                forall|j: int| 0 <= j < gkeys@.len() ==> val_wf(vview(#[trigger] gkeys@[j])),
                forall|j: int, l: int|
                    0 <= j < gmembers@.len() && 0 <= l < (#[trigger] gmembers@[j])@.len()
                        ==> val_wf(vview(#[trigger] gmembers@[j]@[l])),
                out@.len() == k,
                forall|j: int|
                    0 <= j < k ==> vview(#[trigger] out@[j]) == (Val::Arr {
                        level,
                        elems: seq![gs[j].0, Val::Arr { level, elems: gs[j].1 }],
                    }),
                forall|j: int| 0 <= j < out@.len() ==> val_wf(vview(#[trigger] out@[j])),
            decreases gkeys@.len() - k,
        {
            proof {
                assert(gs[k as int].0 == vview(gkeys@[k as int]));
                assert(gs[k as int].1 == vviews(gmembers@[k as int]@));
            }
            let keyv = gkeys[k].deep_copy();
            let members = copy_all(&gmembers[k]);
            let mut row: Vec<Value> = Vec::new();
            row.push(keyv);
            row.push(Value::Array(Array { level, elements: members }));
            let ghost before = out@;
            out.push(Value::Array(Array { level, elements: row }));
            proof {
                crate::value::lemma_vviews(row@);
                crate::value::lemma_vviews(before);
                crate::value::lemma_vviews(out@);
                assert(vview(out@[k as int])->Arr_elems =~= seq![
                    gs[k as int].0,
                    Val::Arr { level, elems: gs[k as int].1 },
                ]);
                assert(val_wf(vview(out@[k as int]))) by {
                    let pe = vview(out@[k as int])->Arr_elems;
                    assert(val_wf(gs[k as int].0)) by {
                        assert(gs[k as int].0 == vview(gkeys@[k as int]));
                    }
                    assert(val_wf(Val::Arr { level, elems: gs[k as int].1 })) by {
                        assert(gs[k as int].1 == vviews(gmembers@[k as int]@));
                        crate::value::lemma_wf_build(level, gmembers@[k as int]@);
                    }
                    assert forall|l: int| 0 <= l < pe.len() implies val_wf(#[trigger] pe[l]) by {
                        if l == 0 {
                            assert(pe[0] == gs[k as int].0);
                        } else {
                            assert(pe[1] == Val::Arr { level, elems: gs[k as int].1 });
                        }
                    }
                }
            }
            k = k + 1;
        }
        proof {
            crate::value::lemma_vviews(out@);
            let want = spec_group_by(items@, level, orig@);
            assert(vviews(out@) =~= want->Ok_0->Arr_elems);
            crate::value::lemma_wf_build(level, out@);
        }
        Ok(Value::Array(Array { level, elements: out }))
}

/// Once a prefix groups cleanly and key extraction fails at one element,
/// the whole sequence's grouping fails with that error.
proof fn lemma_groups_err(items: Seq<SelectItem>, s: Seq<Val>, i: int, e: Seq<char>)
    requires
        0 <= i < s.len(),
        spec_groups(items, s.subrange(0, i)) is Ok,
        spec_extract_key(items, s[i]) == Err::<Val, Seq<char>>(e),
    ensures
        spec_groups(items, s) == Err::<Seq<(Val, Seq<Val>)>, Seq<char>>(e),
    decreases s.len(),
{
    if s.len() - 1 == i {
        assert(s.drop_last() =~= s.subrange(0, i));
        assert(s.last() == s[i]);
    } else {
        assert(s.drop_last().subrange(0, i) =~= s.subrange(0, i));
        assert(s.drop_last()[i] == s[i]);
        lemma_groups_err(items, s.drop_last(), i, e);
    }
}

/// Each group is no larger than the grouped sequence.
pub proof fn lemma_group_sizes_bounded(items: Seq<SelectItem>, s: Seq<Val>)
    ensures
        spec_groups(items, s) matches Ok(gs) ==> forall|k: int|
            0 <= k < gs.len() ==> (#[trigger] gs[k]).1.len() <= s.len(),
    decreases s,
{
    if s.len() > 0 {
        lemma_group_sizes_bounded(items, s.drop_last());
        if spec_groups(items, s) is Ok {
            let gs0 = spec_groups(items, s.drop_last())->Ok_0;
            let key = spec_extract_key(items, s.last())->Ok_0;
            let i = find_group(gs0, val_key(key));
            lemma_find_group_nonneg(gs0, val_key(key));
            let gs = spec_groups(items, s)->Ok_0;
            assert forall|k: int| 0 <= k < gs.len() implies (#[trigger] gs[k]).1.len()
                <= s.len() by {
                if i < gs0.len() {
                    if k != i {
                        assert(gs[k] == gs0[k]);
                    }
                } else {
                    if k < gs0.len() {
                        assert(gs[k] == gs0[k]);
                    }
                }
            }
        }
    }
}

/// The first-group index is never negative.
pub proof fn lemma_find_group_nonneg(gs: Seq<(Val, Seq<Val>)>, k: Seq<char>)
    ensures
        find_group(gs, k) >= 0,
    decreases gs.len(),
{
    if gs.len() > 0 && val_key(gs.first().0) != k {
        lemma_find_group_nonneg(gs.drop_first(), k);
    }
}

/// The spec-level group list the three parallel vectors stand for.
pub open spec fn groups_model(keys: Seq<Value>, members: Seq<Vec<Value>>) -> Seq<(Val, Seq<Val>)> {
    Seq::new(keys.len(), |i: int| (vview(keys[i]), vviews(members[i]@)))
}

/// The index of the key string, if present.
fn find_key_at(keys: &Vec<String>, k: &String) -> (r: Option<usize>)
    ensures
        match r {
            Some(i) => i < keys@.len() && keys@[i as int]@ == k@ && forall|j: int|
                0 <= j < i ==> (#[trigger] keys@[j])@ != k@,
            None => forall|j: int| 0 <= j < keys@.len() ==> (#[trigger] keys@[j])@ != k@,
        },
{
    let mut i: usize = 0;
    while i < keys.len()
        invariant
            i <= keys@.len(),
            forall|j: int| 0 <= j < i ==> (#[trigger] keys@[j])@ != k@,
        decreases keys@.len() - i,
    {
        if keys[i].eq(k) {
            return Some(i);
        }
        i = i + 1;
    }
    None
}

/// Where the group keys render pairwise differently, `find_group` lands on
/// the matching group, or past the end where none matches.
proof fn lemma_find_group_matches(gs: Seq<(Val, Seq<Val>)>, keystrs: Seq<String>, k: Seq<char>)
    requires
        gs.len() == keystrs.len(),
        forall|j: int| 0 <= j < gs.len() ==> (#[trigger] keystrs[j])@ == val_key(gs[j].0),
    ensures
        forall|i: int|
            0 <= i < gs.len() && (#[trigger] keystrs[i])@ == k && (forall|j: int|
                0 <= j < i ==> (#[trigger] keystrs[j])@ != k) ==> find_group(gs, k) == i,
        (forall|j: int| 0 <= j < gs.len() ==> (#[trigger] keystrs[j])@ != k) ==> find_group(gs, k)
            >= gs.len(),
    decreases gs.len(),
{
    if gs.len() > 0 {
        assert forall|j: int| 0 <= j < gs.drop_first().len() implies (#[trigger] keystrs.drop_first(
        )[j])@ == val_key(gs.drop_first()[j].0) by {
            assert(keystrs.drop_first()[j] == keystrs[j + 1]);
            assert(gs.drop_first()[j] == gs[j + 1]);
        }
        lemma_find_group_matches(gs.drop_first(), keystrs.drop_first(), k);
        assert(keystrs[0]@ == val_key(gs.first().0));
        assert forall|i: int|
            0 <= i < gs.len() && (#[trigger] keystrs[i])@ == k && (forall|j: int|
                0 <= j < i ==> (#[trigger] keystrs[j])@ != k) implies find_group(gs, k) == i by {
            if i == 0 {
            } else {
                assert(keystrs[0]@ != k);
                assert(val_key(gs.first().0) != k);
                assert(keystrs.drop_first()[i - 1]@ == k);
                assert forall|j: int| 0 <= j < i - 1 implies (#[trigger] keystrs.drop_first()[j])@
                    != k by {
                    assert(keystrs.drop_first()[j] == keystrs[j + 1]);
                }
            }
        }
        if forall|j: int| 0 <= j < gs.len() ==> (#[trigger] keystrs[j])@ != k {
            assert(keystrs[0]@ != k);
            assert forall|j: int| 0 <= j < gs.drop_first().len() implies (
            #[trigger] keystrs.drop_first()[j])@ != k by {
                assert(keystrs.drop_first()[j] == keystrs[j + 1]);
            }
        }
    }
}

/// Deep copies of every element.
fn copy_all(elems: &Vec<Value>) -> (r: Vec<Value>)
    requires
        forall|j: int| 0 <= j < elems@.len() ==> val_wf(vview(#[trigger] elems@[j])),
    ensures
        vviews(r@) == vviews(elems@),
        forall|j: int| 0 <= j < r@.len() ==> val_wf(vview(#[trigger] r@[j])),
{
    let mut out: Vec<Value> = Vec::new();
    let mut i: usize = 0;
    while i < elems.len()
        invariant
            i <= elems@.len(),
            forall|j: int| 0 <= j < elems@.len() ==> val_wf(vview(#[trigger] elems@[j])),
            out@.len() == i,
            forall|j: int| 0 <= j < i ==> vview(#[trigger] out@[j]) == vview(elems@[j]),
        decreases elems@.len() - i,
    {
        let e = elems[i].deep_copy();
        out.push(e);
        i = i + 1;
    }
    proof {
        crate::value::lemma_vviews(out@);
        crate::value::lemma_vviews(elems@);
        assert(vviews(out@) =~= vviews(elems@));
    }
    out
}

} // verus!
