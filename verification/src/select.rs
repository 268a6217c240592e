//! The selection and slice algebra.
//!
//! Pure functions computing the concrete index set a `Selection` picks out
//! of a sequence of a given length, with the slice semantics of Python's
//! `range`: negative indices wrap around once, a negative step walks
//! backwards, and out-of-range indices are dropped.

use vstd::prelude::*;

use crate::ast::{SelectItem, Selection, Slice};

verus! {

broadcast use vstd::std_specs::vec::group_vec_axioms, vstd::seq::group_seq_axioms;

/// A possibly-negative index, wrapped once: `-1` means the last element.
pub open spec fn norm_index(idx: int, len: int) -> int {
    if idx < 0 {
        idx + len
    } else {
        idx
    }
}

/// The indices a slice walks upward: from `i` toward `end` by `step`,
/// keeping those inside `[0, len)`.
pub open spec fn walk_up(i: int, end: int, step: int, len: int) -> Seq<int>
    decreases (if i <= (if end < len {
        end
    } else {
        len
    }) {
        (if end < len {
            end
        } else {
            len
        }) - i + 1
    } else {
        0
    }),
{
    if step < 1 {
        Seq::<int>::empty()
    } else if i < end && i < len {
        let rest = walk_up(i + step, end, step, len);
        if i >= 0 {
            seq![i] + rest
        } else {
            rest
        }
    } else {
        Seq::<int>::empty()
    }
}

/// The indices a slice walks downward: from `i` toward `end` by a negative
/// `step`, keeping those inside `[0, len)`.
pub open spec fn walk_down(i: int, end: int, step: int, len: int) -> Seq<int>
    decreases (if i >= end {
        i - end + 1
    } else {
        0
    }),
{
    if step > -1 {
        Seq::<int>::empty()
    } else if i > end && i >= 0 {
        let rest = walk_down(i + step, end, step, len);
        if i < len {
            seq![i] + rest
        } else {
            rest
        }
    } else {
        Seq::<int>::empty()
    }
}

/// The indices of a slice against a length, by Python's `range`-based slice
/// semantics: a step of zero selects nothing; a positive step defaults to
/// the range `[0, len)`; a negative step defaults to `[len-1, -len-1)` and
/// walks in reverse; bounds are wrapped once and out-of-range indices
/// dropped.
pub open spec fn spec_slice_indices(sl: Slice, len: int) -> Seq<int> {
    let step = match sl.step {
        Some(s) => s as int,
        None => 1,
    };
    if step == 0 {
        Seq::<int>::empty()
    } else if step > 0 {
        let start = norm_index(
            match sl.start {
                Some(s) => s as int,
                None => 0,
            },
            len,
        );
        let end = norm_index(
            match sl.end {
                Some(e) => e as int,
                None => len,
            },
            len,
        );
        walk_up(start, end, step, len)
    } else {
        let start = norm_index(
            match sl.start {
                Some(s) => s as int,
                None => len - 1,
            },
            len,
        );
        let end = norm_index(
            match sl.end {
                Some(e) => e as int,
                None => -len - 1,
            },
            len,
        );
        walk_down(start, end, step, len)
    }
}

/// The indices of one select item.
pub open spec fn spec_item_indices(it: SelectItem, len: int) -> Seq<int> {
    match it {
        SelectItem::Index(idx) => {
            let a = norm_index(idx as int, len);
            if 0 <= a < len {
                seq![a]
            } else {
                Seq::<int>::empty()
            }
        },
        SelectItem::Slice(sl) => spec_slice_indices(sl, len),
    }
}

/// The indices of a whole selection, in selection order, duplicates kept.
pub open spec fn spec_selection_indices(items: Seq<SelectItem>, len: int) -> Seq<int>
    decreases items.len(),
{
    if items.len() == 0 {
        Seq::<int>::empty()
    } else {
        spec_selection_indices(items.drop_last(), len) + spec_item_indices(items.last(), len)
    }
}

/// Every index an upward walk yields lies in `[0, len)`.
proof fn lemma_walk_up_in_range(i: int, end: int, step: int, len: int)
    ensures
        forall|k: int|
            0 <= k < walk_up(i, end, step, len).len() ==> 0 <= #[trigger] walk_up(
                i,
                end,
                step,
                len,
            )[k] < len,
    decreases (if i <= (if end < len {
        end
    } else {
        len
    }) {
        (if end < len {
            end
        } else {
            len
        }) - i + 1
    } else {
        0
    }),
{
    if step >= 1 && i < end && i < len {
        lemma_walk_up_in_range(i + step, end, step, len);
        let t = walk_up(i, end, step, len);
        let rest = walk_up(i + step, end, step, len);
        assert forall|k: int| 0 <= k < t.len() implies 0 <= #[trigger] t[k] < len by {
            if i >= 0 {
                if k == 0 {
                    assert(t[k] == i);
                } else {
                    assert(t[k] == rest[k - 1]);
                }
            } else {
                assert(t[k] == rest[k]);
            }
        }
    }
}

/// Every index a downward walk yields lies in `[0, len)`.
proof fn lemma_walk_down_in_range(i: int, end: int, step: int, len: int)
    ensures
        forall|k: int|
            0 <= k < walk_down(i, end, step, len).len() ==> 0 <= #[trigger] walk_down(
                i,
                end,
                step,
                len,
            )[k] < len,
    decreases (if i >= end {
        i - end + 1
    } else {
        0
    }),
{
    if step <= -1 && i > end && i >= 0 {
        lemma_walk_down_in_range(i + step, end, step, len);
        let t = walk_down(i, end, step, len);
        let rest = walk_down(i + step, end, step, len);
        assert forall|k: int| 0 <= k < t.len() implies 0 <= #[trigger] t[k] < len by {
            if i < len {
                if k == 0 {
                    assert(t[k] == i);
                } else {
                    assert(t[k] == rest[k - 1]);
                }
            } else {
                assert(t[k] == rest[k]);
            }
        }
    }
}

/// Every index a selection yields against a length lies in `[0, len)`.
pub proof fn lemma_selection_indices_in_range(items: Seq<SelectItem>, len: int)
    ensures
        forall|k: int|
            0 <= k < spec_selection_indices(items, len).len() ==> 0 <= #[trigger]
            spec_selection_indices(items, len)[k] < len,
    decreases items.len(),
{
    if items.len() > 0 {
        lemma_selection_indices_in_range(items.drop_last(), len);
        let t = spec_selection_indices(items, len);
        let a = spec_selection_indices(items.drop_last(), len);
        let b = spec_item_indices(items.last(), len);
        assert forall|k: int| 0 <= k < t.len() implies 0 <= #[trigger] t[k] < len by {
            lemma_item_indices_in_range(items.last(), len);
            if k < a.len() {
                assert(t[k] == a[k]);
            } else {
                assert(t[k] == b[k - a.len()]);
            }
        }
    }
}

/// Every index one select item yields lies in `[0, len)`.
proof fn lemma_item_indices_in_range(it: SelectItem, len: int)
    ensures
        forall|k: int|
            0 <= k < spec_item_indices(it, len).len() ==> 0 <= #[trigger] spec_item_indices(
                it,
                len,
            )[k] < len,
{
    match it {
            SelectItem::Index(_) => {},
            SelectItem::Slice(sl) => {
                let step = match sl.step {
                    Some(s) => s as int,
                    None => 1,
                };
                if step > 0 {
                    let start = norm_index(
                        match sl.start {
                            Some(s) => s as int,
                            None => 0,
                        },
                        len,
                    );
                    let end = norm_index(
                        match sl.end {
                            Some(e) => e as int,
                            None => len,
                        },
                        len,
                    );
                    lemma_walk_up_in_range(start, end, step, len);
                } else if step < 0 {
                    let start = norm_index(
                        match sl.start {
                            Some(s) => s as int,
                            None => len - 1,
                        },
                        len,
                    );
                    let end = norm_index(
                        match sl.end {
                            Some(e) => e as int,
                            None => -len - 1,
                        },
                        len,
                    );
                    lemma_walk_down_in_range(start, end, step, len);
                }
        },
    }
}

/// Normalize a possibly-negative index against a length.
pub fn normalize_index(idx: i64, len: i64) -> (r: i64)
    requires
        0 <= len,
    ensures
        r as int == norm_index(idx as int, len as int),
{
    if idx < 0 {
        idx + len
    } else {
        idx
    }
}

/// The mapping of a `usize` vector into mathematical indices.
pub open spec fn idxs_of(v: Seq<usize>) -> Seq<int> {
    v.map_values(|x: usize| x as int)
}

/// The concrete indices a slice selects against a length.
pub fn compute_slice_indices(slice: &Slice, len: i64) -> (r: Vec<usize>)
    requires
        0 <= len <= usize::MAX,
    ensures
        idxs_of(r@) == spec_slice_indices(*slice, len as int),
{
    slice_indices_for(slice, len as usize)
}

/// The concrete indices a slice selects against a sequence length.
pub fn slice_indices_for(slice: &Slice, len: usize) -> (r: Vec<usize>)
    ensures
        idxs_of(r@) == spec_slice_indices(*slice, len as int),
{
    let step: i64 = match slice.step {
        Some(s) => s,
        None => 1,
    };
    let mut out: Vec<usize> = Vec::new();
    if step == 0 {
        proof {
            assert(idxs_of(out@) =~= spec_slice_indices(*slice, len as int));
        }
        return out;
    }
    let l: i128 = len as i128;
    proof {
        assert(l == len as int);
    }
    if step > 0 {
        let s0: i128 = match slice.start {
            Some(s) => s as i128,
            None => 0,
        };
        let e0: i128 = match slice.end {
            Some(e) => e as i128,
            None => l,
        };
        let start = if s0 < 0 {
            s0 + l
        } else {
            s0
        };
        let end = if e0 < 0 {
            e0 + l
        } else {
            e0
        };
        let mut i = start;
        while i < end && i < l
            invariant
                l == len as int,
                len <= usize::MAX,
                1 <= step,
                -0x2_0000_0000_0000_0000 < i < 0x2_0000_0000_0000_0000,
                end < 0x1_0000_0000_0000_0000,
                idxs_of(out@) + walk_up(i as int, end as int, step as int, len as int)
                    == spec_slice_indices(*slice, len as int),
            decreases (if i <= (if end < l {
                end
            } else {
                l
            }) {
                (if end < l {
                    end
                } else {
                    l
                }) - i + 1
            } else {
                0
            }),
        {
            if i >= 0 {
                out.push(i as usize);
                proof {
                    assert(idxs_of(out@) =~= idxs_of(out@.drop_last()) + seq![i as int]);
                }
            }
            proof {
                assert(walk_up(i as int, end as int, step as int, len as int) == (if i >= 0 {
                    seq![i as int] + walk_up(
                        i + step,
                        end as int,
                        step as int,
                        len as int,
                    )
                } else {
                    walk_up(i + step, end as int, step as int, len as int)
                }));
                assert(idxs_of(out@) + walk_up(i + step, end as int, step as int, len as int)
                    =~= spec_slice_indices(*slice, len as int));
            }
            i = i + step as i128;
        }
        proof {
            assert(walk_up(i as int, end as int, step as int, len as int)
                =~= Seq::<int>::empty());
            assert(idxs_of(out@) =~= idxs_of(out@) + Seq::<int>::empty());
        }
    } else {
        let s0: i128 = match slice.start {
            Some(s) => s as i128,
            None => l - 1,
        };
        let e0: i128 = match slice.end {
            Some(e) => e as i128,
            None => -l - 1,
        };
        let start = if s0 < 0 {
            s0 + l
        } else {
            s0
        };
        let end = if e0 < 0 {
            e0 + l
        } else {
            e0
        };
        let mut i = start;
        while i > end && i >= 0
            invariant
                l == len as int,
                len <= usize::MAX,
                step <= -1,
                -0x2_0000_0000_0000_0000 < i < 0x2_0000_0000_0000_0000,
                end > -0x1_0000_0000_0000_0000 - 2,
                idxs_of(out@) + walk_down(i as int, end as int, step as int, len as int)
                    == spec_slice_indices(*slice, len as int),
            decreases (if i >= end {
                i - end + 1
            } else {
                0
            }),
        {
            if i < l {
                out.push(i as usize);
                proof {
                    assert(idxs_of(out@) =~= idxs_of(out@.drop_last()) + seq![i as int]);
                }
            }
            proof {
                assert(walk_down(i as int, end as int, step as int, len as int) == (if i < l {
                    seq![i as int] + walk_down(
                        i + step,
                        end as int,
                        step as int,
                        len as int,
                    )
                } else {
                    walk_down(i + step, end as int, step as int, len as int)
                }));
                assert(idxs_of(out@) + walk_down(i + step, end as int, step as int, len as int)
                    =~= spec_slice_indices(*slice, len as int));
            }
            i = i + step as i128;
        }
        proof {
            assert(walk_down(i as int, end as int, step as int, len as int)
                =~= Seq::<int>::empty());
            assert(idxs_of(out@) =~= idxs_of(out@) + Seq::<int>::empty());
        }
    }
    out
}

/// All indices a selection picks against a length, in selection order,
/// duplicates kept.
pub fn selection_indices(selection: &Selection, len: i64) -> (r: Vec<usize>)
    requires
        0 <= len <= usize::MAX,
    ensures
        idxs_of(r@) == spec_selection_indices(selection.items@, len as int),
        forall|k: int| 0 <= k < r@.len() ==> (#[trigger] r@[k]) < len,
{
    selection_indices_for(selection, len as usize)
}

/// All indices a selection picks against a sequence length, in selection
/// order, duplicates kept.
pub fn selection_indices_for(selection: &Selection, len: usize) -> (r: Vec<usize>)
    ensures
        idxs_of(r@) == spec_selection_indices(selection.items@, len as int),
        forall|k: int| 0 <= k < r@.len() ==> (#[trigger] r@[k]) < len,
{
    let mut out: Vec<usize> = Vec::new();
    let mut i: usize = 0;
    proof {
        assert(idxs_of(out@) =~= spec_selection_indices(
            selection.items@.subrange(0, 0),
            len as int,
        ));
    }
    while i < selection.items.len()
        invariant
            len <= usize::MAX,
            i <= selection.items@.len(),
            idxs_of(out@) == spec_selection_indices(
                selection.items@.subrange(0, i as int),
                len as int,
            ),
        decreases selection.items@.len() - i,
    {
        match &selection.items[i] {
            SelectItem::Index(idx) => {
                let a = *idx as i128 + (if *idx < 0 {
                    len as i128
                } else {
                    0
                });
                if 0 <= a && a < len as i128 {
                    out.push(a as usize);
                    proof {
                        assert(idxs_of(out@) =~= idxs_of(out@.drop_last()) + seq![a as int]);
                    }
                } else {
                    proof {
                        assert(idxs_of(out@) =~= idxs_of(out@) + Seq::<int>::empty());
                    }
                }
            },
            SelectItem::Slice(sl) => {
                let mut part = slice_indices_for(sl, len);
                proof {
                    assert(idxs_of(out@ + part@) =~= idxs_of(out@) + idxs_of(part@));
                }
                out.append(&mut part);
            },
        }
        proof {
            let pre = selection.items@.subrange(0, i as int);
            let cur = selection.items@.subrange(0, i + 1);
            assert(cur.drop_last() =~= pre);
            assert(cur.last() == selection.items@[i as int]);
        }
        i = i + 1;
    }
    proof {
        assert(selection.items@.subrange(0, selection.items@.len() as int) =~= selection.items@);
        lemma_selection_indices_in_range(selection.items@, len as int);
        assert forall|k: int| 0 <= k < out@.len() implies (#[trigger] out@[k]) < len by {
            assert(idxs_of(out@)[k] == out@[k] as int);
        }
    }
    out
}

} // verus!
