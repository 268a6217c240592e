//! The partition operator.

use vstd::prelude::*;

use crate::ast::Selection;
use crate::select::{idxs_of, selection_indices_for, spec_selection_indices};
use crate::textutil::{str_chars, string_from_chars};
use crate::value::{val_wf, vview, vviews, Array, Level, Val, Value};

verus! {

broadcast use vstd::std_specs::vec::group_vec_axioms, vstd::seq::group_seq_axioms;

/// The usable split points of a selection against a length, ascending and
/// unique: every selected index strictly between zero and the length.
pub open spec fn spec_split_points(picked: Seq<int>, len: int, from: int) -> Seq<int>
    decreases len - from,
{
    if from >= len || from < 1 {
        Seq::<int>::empty()
    } else {
        let rest = spec_split_points(picked, len, from + 1);
        if picked.contains(from) {
            seq![from] + rest
        } else {
            rest
        }
    }
}

/// The contiguous chunks between consecutive split points, as values under
/// a wrapper.
pub open spec fn spec_chunks_arr(elems: Seq<Val>, level: Level, pts: Seq<int>, start: int) -> Seq<
    Val,
>
    decreases pts.len(),
{
    if pts.len() == 0 {
        seq![Val::Arr { level, elems: elems.subrange(start, elems.len() as int) }]
    } else {
        seq![Val::Arr { level, elems: elems.subrange(start, pts[0]) }] + spec_chunks_arr(
            elems,
            level,
            pts.drop_first(),
            pts[0],
        )
    }
}

/// The contiguous text chunks between consecutive split points.
pub open spec fn spec_chunks_txt(s: Seq<char>, pts: Seq<int>, start: int) -> Seq<Val>
    decreases pts.len(),
{
    if pts.len() == 0 {
        seq![Val::Txt(s.subrange(start, s.len() as int))]
    } else {
        seq![Val::Txt(s.subrange(start, pts[0]))] + spec_chunks_txt(s, pts.drop_first(), pts[0])
    }
}

/// What partitioning does to a value: an array becomes a Line-level array
/// of its chunks, a text a Word-level array of its pieces, numbers pass
/// through.
pub open spec fn spec_partition(items: Seq<crate::ast::SelectItem>, v: Val) -> Val {
    match v {
        Val::Arr { level, elems } => {
            let pts = spec_split_points(
                spec_selection_indices(items, elems.len() as int),
                elems.len() as int,
                1,
            );
            Val::Arr { level: Level::Line, elems: spec_chunks_arr(elems, level, pts, 0) }
        },
        Val::Txt(s) => {
            let pts = spec_split_points(
                spec_selection_indices(items, s.len() as int),
                s.len() as int,
                1,
            );
            Val::Arr { level: Level::Word, elems: spec_chunks_txt(s, pts, 0) }
        },
        Val::Num { .. } => v,
    }
}

/// `p<selection>`: slice an array or a text into contiguous chunks at the
/// selected indices.
pub struct Partition {
    pub selection: Selection,
}

/// Whether a vector of indices holds one.
fn holds_index(v: &Vec<usize>, x: usize) -> (r: bool)
    ensures
        r == idxs_of(v@).contains(x as int),
{
    let mut j: usize = 0;
    while j < v.len()
        invariant
            j <= v@.len(),
            forall|k: int| 0 <= k < j ==> idxs_of(v@)[k] != x as int,
        decreases v@.len() - j,
    {
        if v[j] == x {
            proof {
                assert(idxs_of(v@)[j as int] == x as int);
            }
            return true;
        }
        j = j + 1;
    }
    proof {
        assert forall|k: int| 0 <= k < idxs_of(v@).len() implies idxs_of(v@)[k] != x as int by {}
    }
    false
}

/// The points of a split-point run are strictly ascending and in range.
proof fn lemma_split_points_ascending(picked: Seq<int>, len: int, from: int)
    requires
        from >= 1,
    ensures
        forall|j: int|
            0 <= j < spec_split_points(picked, len, from).len() ==> from <= #[trigger]
            spec_split_points(picked, len, from)[j] < len,
        forall|j1: int, j2: int|
            0 <= j1 < j2 < spec_split_points(picked, len, from).len()
                ==> #[trigger] spec_split_points(picked, len, from)[j1] < #[trigger]
            spec_split_points(picked, len, from)[j2],
    decreases len - from,
{
    if from < len {
        lemma_split_points_ascending(picked, len, from + 1);
        let t = spec_split_points(picked, len, from);
        let rest = spec_split_points(picked, len, from + 1);
        if picked.contains(from) {
            assert forall|j: int| 0 <= j < t.len() implies from <= #[trigger] t[j] < len by {
                if j > 0 {
                    assert(t[j] == rest[j - 1]);
                }
            }
            assert forall|j1: int, j2: int| 0 <= j1 < j2 < t.len() implies #[trigger] t[j1]
                < #[trigger] t[j2] by {
                if j1 > 0 {
                    assert(t[j1] == rest[j1 - 1] && t[j2] == rest[j2 - 1]);
                } else {
                    assert(t[j2] == rest[j2 - 1]);
                }
            }
        }
    }
}

/// The usable split points, ascending.
fn split_points(selection: &Selection, len: usize) -> (r: Vec<usize>)
    ensures
        idxs_of(r@) == spec_split_points(
            spec_selection_indices(selection.items@, len as int),
            len as int,
            1,
        ),
        forall|k: int| 0 <= k < r@.len() ==> 0 < (#[trigger] r@[k]) < len,
        forall|k1: int, k2: int|
            0 <= k1 < k2 < r@.len() ==> (#[trigger] r@[k1]) < (#[trigger] r@[k2]),
    decreases len,
{
    let picked = selection_indices_for(selection, len);
    let ghost pickedv = spec_selection_indices(selection.items@, len as int);
    let mut out: Vec<usize> = Vec::new();
    let mut p: usize = 1;
    proof {
        if len >= 1 {
            assert(idxs_of(out@) + spec_split_points(pickedv, len as int, 1) =~= spec_split_points(
                pickedv,
                len as int,
                1,
            ));
        } else {
            assert(spec_split_points(pickedv, len as int, 1) =~= Seq::<int>::empty());
            assert(idxs_of(out@) =~= spec_split_points(pickedv, len as int, 1));
        }
    }
    while p < len
        invariant
            1 <= p || len == 0,
            p <= len || p == 1,
            idxs_of(picked@) == pickedv,
            forall|k: int| 0 <= k < out@.len() ==> 0 < (#[trigger] out@[k]) < len,
            forall|k: int| 0 <= k < out@.len() ==> (#[trigger] out@[k]) < p,
            forall|k1: int, k2: int|
                0 <= k1 < k2 < out@.len() ==> (#[trigger] out@[k1]) < (#[trigger] out@[k2]),
            len >= 1 && p <= len ==> idxs_of(out@) + spec_split_points(pickedv, len as int, p as int)
                == spec_split_points(pickedv, len as int, 1),
            len == 0 ==> idxs_of(out@) == spec_split_points(pickedv, len as int, 1),
            p >= len ==> idxs_of(out@) == spec_split_points(pickedv, len as int, 1),
        decreases len - p,
    {
        if holds_index(&picked, p) {
            out.push(p);
            proof {
                assert(idxs_of(out@) =~= idxs_of(out@.drop_last()) + seq![p as int]);
                assert(spec_split_points(pickedv, len as int, p as int) == seq![p as int]
                    + spec_split_points(pickedv, len as int, p + 1));
                assert(idxs_of(out@) + spec_split_points(pickedv, len as int, p + 1)
                    =~= idxs_of(out@.drop_last()) + spec_split_points(pickedv, len as int, p as int));
            }
        } else {
            proof {
                assert(spec_split_points(pickedv, len as int, p as int) == spec_split_points(
                    pickedv,
                    len as int,
                    p + 1,
                ));
            }
        }
        p = p + 1;
    }
    proof {
        if len >= 1 {
            assert(spec_split_points(pickedv, len as int, len as int) =~= Seq::<int>::empty());
            assert(idxs_of(out@) =~= idxs_of(out@) + Seq::<int>::empty());
        }
    }
    out
}

impl Partition {
    pub fn new(selection: Selection) -> (r: Partition)
        ensures
            r.selection == selection,
    {
        Partition { selection }
    }

    /// Slice the value into contiguous chunks at the selected indices; one
    /// chunk holds everything where no point is usable.
    pub fn apply(&self, value: Value) -> (r: Value)
        requires
            val_wf(value@),
        ensures
            r@ == spec_partition(self.selection.items@, value@),
            val_wf(r@),
    {
        match value {
            Value::Array(arr) => {
                proof {
                    crate::value::lemma_arr_wf_elems(arr@);
                    crate::value::lemma_vviews(arr.elements@);
                    crate::value::lemma_wf_through(arr.level, arr.elements@);
                }
                let ghost orig = arr.elements@;
                let level = arr.level;
                let n = arr.elements.len();
                let pts = split_points(&self.selection, n);
                let ghost ptsv = idxs_of(pts@);
                let mut out: Vec<Value> = Vec::new();
                let mut start: usize = 0;
                let mut k: usize = 0;
                proof {
                    assert(ptsv.skip(0) =~= ptsv);
                    assert(vviews(out@) =~= Seq::<Val>::empty());
                    assert(vviews(out@) + spec_chunks_arr(vviews(orig), level, ptsv, 0)
                        =~= spec_chunks_arr(vviews(orig), level, ptsv, 0));
                }
                while k < pts.len()
                    invariant
                        k <= pts@.len(),
                        n == arr.elements@.len(),
                        arr.elements@ == orig,
                        level == arr.level,
                        ptsv == idxs_of(pts@),
                        forall|j: int| 0 <= j < pts@.len() ==> 0 < (#[trigger] pts@[j]) < n,
                        forall|j1: int, j2: int|
                            0 <= j1 < j2 < pts@.len() ==> (#[trigger] pts@[j1]) < (
                            #[trigger] pts@[j2]),
                        forall|j: int| 0 <= j < orig.len() ==> val_wf(vview(#[trigger] orig[j])),
                        k == 0 ==> start == 0,
                        k > 0 ==> start == pts@[k - 1],
                        start <= n,
                        forall|j: int| 0 <= j < out@.len() ==> val_wf(vview(#[trigger] out@[j])),
                        vviews(out@) + spec_chunks_arr(
                            vviews(orig),
                            level,
                            ptsv.skip(k as int),
                            start as int,
                        ) == spec_chunks_arr(vviews(orig), level, ptsv, 0),
                    decreases pts@.len() - k,
                {
                    let stop = pts[k];
                    proof {
                        assert(ptsv.skip(k as int)[0] == ptsv[k as int]);
                        assert(ptsv[k as int] == pts@[k as int] as int);
                    }
                    let chunk = copy_range(&arr.elements, start, stop);
                    proof {
                        crate::value::lemma_wf_build(level, chunk@);
                    }
                    let ghost before = out@;
                    out.push(Value::Array(Array { level, elements: chunk }));
                    proof {
                        crate::value::lemma_vviews(before);
                        crate::value::lemma_vviews(out@);
                        assert(vviews(out@) =~= vviews(before).push(
                            Val::Arr {
                                level,
                                elems: vviews(orig).subrange(start as int, stop as int),
                            },
                        ));
                        assert(ptsv.skip(k as int).drop_first() =~= ptsv.skip(k + 1));
                        assert(spec_chunks_arr(vviews(orig), level, ptsv.skip(k as int), start as int)
                            == seq![
                            Val::Arr {
                                level,
                                elems: vviews(orig).subrange(start as int, stop as int),
                            },
                        ] + spec_chunks_arr(vviews(orig), level, ptsv.skip(k + 1), stop as int));
                        assert(vviews(out@) + spec_chunks_arr(
                            vviews(orig),
                            level,
                            ptsv.skip(k + 1),
                            stop as int,
                        ) =~= vviews(before) + spec_chunks_arr(
                            vviews(orig),
                            level,
                            ptsv.skip(k as int),
                            start as int,
                        ));
                    }
                    start = stop;
                    k = k + 1;
                }
                let chunk = copy_range(&arr.elements, start, n);
                proof {
                    crate::value::lemma_wf_build(level, chunk@);
                }
                let ghost before = out@;
                out.push(Value::Array(Array { level, elements: chunk }));
                proof {
                    crate::value::lemma_vviews(before);
                    crate::value::lemma_vviews(out@);
                    crate::value::lemma_vviews(orig);
                    assert(ptsv.skip(k as int) =~= Seq::<int>::empty());
                    assert(vviews(out@) =~= vviews(before).push(
                        Val::Arr { level, elems: vviews(orig).subrange(start as int, n as int) },
                    ));
                    assert(vviews(orig).subrange(start as int, n as int) =~= vviews(
                        orig,
                    ).subrange(start as int, vviews(orig).len() as int));
                    assert(vviews(out@) =~= spec_chunks_arr(vviews(orig), level, ptsv, 0));
                    crate::value::lemma_wf_build(Level::Line, out@);
                }
                Value::Array(Array { level: Level::Line, elements: out })
            },
            Value::Text(s) => {
                let cs = str_chars(s.as_str());
                let n = cs.len();
                let pts = split_points(&self.selection, n);
                let ghost ptsv = idxs_of(pts@);
                let mut out: Vec<Value> = Vec::new();
                let mut start: usize = 0;
                let mut k: usize = 0;
                proof {
                    assert(ptsv.skip(0) =~= ptsv);
                    assert(vviews(out@) =~= Seq::<Val>::empty());
                    assert(vviews(out@) + spec_chunks_txt(s@, ptsv, 0) =~= spec_chunks_txt(
                        s@,
                        ptsv,
                        0,
                    ));
                }
                while k < pts.len()
                    invariant
                        k <= pts@.len(),
                        n == cs@.len(),
                        cs@ == s@,
                        ptsv == idxs_of(pts@),
                        forall|j: int| 0 <= j < pts@.len() ==> 0 < (#[trigger] pts@[j]) < n,
                        forall|j1: int, j2: int|
                            0 <= j1 < j2 < pts@.len() ==> (#[trigger] pts@[j1]) < (
                            #[trigger] pts@[j2]),
                        k == 0 ==> start == 0,
                        k > 0 ==> start == pts@[k - 1],
                        start <= n,
                        forall|j: int| 0 <= j < out@.len() ==> val_wf(vview(#[trigger] out@[j])),
                        vviews(out@) + spec_chunks_txt(s@, ptsv.skip(k as int), start as int)
                            == spec_chunks_txt(s@, ptsv, 0),
                    decreases pts@.len() - k,
                {
                    let stop = pts[k];
                    proof {
                        assert(ptsv.skip(k as int)[0] == ptsv[k as int]);
                        assert(ptsv[k as int] == pts@[k as int] as int);
                    }
                    let chunk = copy_char_range(&cs, start, stop);
                    let ghost before = out@;
                    out.push(Value::Text(string_from_chars(&chunk)));
                    proof {
                        crate::value::lemma_vviews(before);
                        crate::value::lemma_vviews(out@);
                        assert(vviews(out@) =~= vviews(before).push(
                            Val::Txt(s@.subrange(start as int, stop as int)),
                        ));
                        assert(ptsv.skip(k as int).drop_first() =~= ptsv.skip(k + 1));
                        assert(vviews(out@) + spec_chunks_txt(s@, ptsv.skip(k + 1), stop as int)
                            =~= vviews(before) + spec_chunks_txt(
                            s@,
                            ptsv.skip(k as int),
                            start as int,
                        ));
                    }
                    start = stop;
                    k = k + 1;
                }
                let chunk = copy_char_range(&cs, start, n);
                let ghost before = out@;
                out.push(Value::Text(string_from_chars(&chunk)));
                proof {
                    crate::value::lemma_vviews(before);
                    crate::value::lemma_vviews(out@);
                    assert(ptsv.skip(k as int) =~= Seq::<int>::empty());
                    assert(vviews(out@) =~= vviews(before).push(
                        Val::Txt(s@.subrange(start as int, n as int)),
                    ));
                    assert(vviews(out@) =~= spec_chunks_txt(s@, ptsv, 0));
                    crate::value::lemma_wf_build(Level::Word, out@);
                }
                Value::Array(Array { level: Level::Word, elements: out })
            },
            Value::Number(n) => Value::Number(n),
        }
    }
}

/// Deep copies of the elements in `[start, stop)`.
fn copy_range(elems: &Vec<Value>, start: usize, stop: usize) -> (r: Vec<Value>)
    requires
        start <= stop <= elems@.len(),
        forall|j: int| 0 <= j < elems@.len() ==> val_wf(vview(#[trigger] elems@[j])),
    ensures
        vviews(r@) == vviews(elems@).subrange(start as int, stop as int),
        forall|j: int| 0 <= j < r@.len() ==> val_wf(vview(#[trigger] r@[j])),
{
    proof {
        crate::value::lemma_vviews(elems@);
    }
    let mut out: Vec<Value> = Vec::new();
    let mut i = start;
    while i < stop
        invariant
            start <= i <= stop <= elems@.len(),
            forall|j: int| 0 <= j < elems@.len() ==> val_wf(vview(#[trigger] elems@[j])),
            out@.len() == i - start,
            forall|j: int|
                0 <= j < i - start ==> vview(#[trigger] out@[j]) == vview(elems@[start + j]),
            forall|j: int| 0 <= j < out@.len() ==> val_wf(vview(#[trigger] out@[j])),
        decreases stop - i,
    {
        let e = elems[i].deep_copy();
        out.push(e);
        i = i + 1;
    }
    proof {
        crate::value::lemma_vviews(out@);
        crate::value::lemma_vviews(elems@);
        assert(vviews(out@) =~= vviews(elems@).subrange(start as int, stop as int));
    }
    out
}

/// The characters in `[start, stop)`.
fn copy_char_range(cs: &Vec<char>, start: usize, stop: usize) -> (r: Vec<char>)
    requires
        start <= stop <= cs@.len(),
    ensures
        r@ == cs@.subrange(start as int, stop as int),
{
    let mut out: Vec<char> = Vec::new();
    let mut i = start;
    while i < stop
        invariant
            start <= i <= stop <= cs@.len(),
            out@ == cs@.subrange(start as int, i as int),
        decreases stop - i,
    {
        out.push(cs[i]);
        proof {
            assert(cs@.subrange(start as int, i + 1) =~= cs@.subrange(start as int, i as int).push(
                cs@[i as int],
            ));
        }
        i = i + 1;
    }
    out
}

} // verus!
