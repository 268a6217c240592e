//! The columnate operator.

use vstd::prelude::*;

use crate::operators::join::{flat_elems, flat_level};
use crate::render::{render_value, val_text};
use crate::textutil::{str_chars, string_from_chars};
use crate::value::{val_wf, vview, vviews, Array, Level, Val, Value};

verus! {

broadcast use vstd::std_specs::vec::group_vec_axioms, vstd::seq::group_seq_axioms;

/// The cell texts of one row: an array contributes its elements' texts, a
/// scalar is a single-cell row.
pub open spec fn row_cells(v: Val) -> Seq<Seq<char>> {
    match v {
        Val::Arr { elems, .. } => Seq::new(elems.len(), |j: int| val_text(elems[j])),
        other => seq![val_text(other)],
    }
}

/// The width of column `c`: the longest cell at that position over all
/// rows.
pub open spec fn col_width(rows: Seq<Seq<Seq<char>>>, c: int) -> nat
    decreases rows.len(),
{
    if rows.len() == 0 {
        0
    } else {
        let w = col_width(rows.drop_last(), c);
        let row = rows.last();
        if 0 <= c < row.len() && row[c].len() > w {
            row[c].len()
        } else {
            w
        }
    }
}

/// A cell padded with trailing spaces to a width.
pub open spec fn pad_to(s: Seq<char>, w: nat) -> Seq<char>
    decreases (if s.len() < w {
        w - s.len()
    } else {
        0
    }),
{
    if s.len() >= w {
        s
    } else {
        pad_to(s.push(' '), w)
    }
}

/// One padded output row: every cell but the last padded to its column's
/// width.
pub open spec fn spec_pad_row(rows: Seq<Seq<Seq<char>>>, row: Seq<Seq<char>>) -> Val {
    Val::Arr {
        level: Level::Word,
        elems: Seq::new(
            row.len(),
            |j: int|
                if j == row.len() - 1 {
                    Val::Txt(row[j])
                } else {
                    Val::Txt(pad_to(row[j], col_width(rows, j)))
                },
        ),
    }
}

/// Whether the rows are nested one level too deep: the first element is an
/// array whose own first element is an array.
pub open spec fn spec_colum_nested(elems: Seq<Val>) -> bool {
    elems.len() > 0 && elems[0] is Arr && elems[0]->Arr_elems.len() > 0
        && elems[0]->Arr_elems[0] is Arr
}

/// What columnating does to an array: flatten one level where the rows are
/// nested too deep, render every cell, pad each non-last cell to its
/// column's width.
pub open spec fn spec_columnate(level: Level, elems: Seq<Val>) -> Val {
    let (lvl, rows_v) = if spec_colum_nested(elems) {
        (flat_level(elems, level), flat_elems(elems))
    } else {
        (level, elems)
    };
    let rows = Seq::new(rows_v.len(), |i: int| row_cells(rows_v[i]));
    Val::Arr { level: lvl, elems: Seq::new(rows.len(), |i: int| spec_pad_row(rows, rows[i])) }
}

/// `c`: pad row cells to uniform per-column width for aligned display.
pub struct Columnate;

impl Columnate {
    /// Whether correctness needs the whole input: it does, widths span all
    /// rows.
    pub fn requires_full_input(&self) -> (r: bool)
        ensures
            r,
    {
        true
    }

    /// Columnate an array of rows; anything else passes through.
    pub fn apply(&self, value: Value) -> (r: Value)
        requires
            val_wf(value@),
        ensures
            match value {
                Value::Array(arr) => r@ == spec_columnate(arr.level, vviews(arr.elements@)),
                _ => r@ == value@,
            },
            val_wf(r@),
    {
        match value {
            Value::Array(arr) => columnate_array(arr),
            other => other,
        }
    }
}

/// Columnate one array.
fn columnate_array(arr: Array) -> (r: Value)
    requires
        val_wf(arr@),
    ensures
        r@ == spec_columnate(arr.level, vviews(arr.elements@)),
        val_wf(r@),
{
    proof {
        crate::value::lemma_arr_wf_elems(arr@);
        crate::value::lemma_vviews(arr.elements@);
        crate::value::lemma_wf_through(arr.level, arr.elements@);
    }
    let ghost orig = vviews(arr.elements@);
    let level = arr.level;
    // flatten one level if the rows are nested one too deep
    let nested = is_nested(&arr.elements);
    let (rows_vals, lvl): (Vec<Value>, Level) = if nested {
        let mut flattened: Vec<Value> = Vec::new();
        let mut new_level = level;
        let mut i: usize = 0;
        proof {
            assert(arr.elements@.subrange(0, 0) =~= Seq::<Value>::empty());
            assert(vviews(flattened@) =~= flat_elems(vviews(arr.elements@.subrange(0, 0))));
        }
        while i < arr.elements.len()
            invariant
                i <= arr.elements@.len(),
                orig == vviews(arr.elements@),
                level == arr.level,
                forall|k: int|
                    0 <= k < arr.elements@.len() ==> val_wf(vview(#[trigger] arr.elements@[k])),
                forall|k: int|
                    0 <= k < flattened@.len() ==> val_wf(vview(#[trigger] flattened@[k])),
                vviews(flattened@) == flat_elems(vviews(arr.elements@.subrange(0, i as int))),
                new_level == flat_level(vviews(arr.elements@.subrange(0, i as int)), level),
            decreases arr.elements@.len() - i,
        {
            proof {
                crate::value::lemma_vviews(arr.elements@);
                let pre = arr.elements@.subrange(0, i as int);
                let cur = arr.elements@.subrange(0, i + 1);
                crate::value::lemma_vviews(pre);
                crate::value::lemma_vviews(cur);
                assert(cur.drop_last() =~= pre);
                assert(vviews(cur).drop_last() =~= vviews(pre));
                assert(vviews(cur).last() == vview(arr.elements@[i as int]));
            }
            let e = arr.elements[i].deep_copy();
            let ghost before = flattened@;
            match e {
                Value::Array(inner) => {
                    proof {
                        crate::value::lemma_arr_wf_elems(vview(arr.elements@[i as int]));
                        crate::value::lemma_vviews(inner.elements@);
                        assert(vview(arr.elements@[i as int]) == Val::Arr {
                            level: inner.level,
                            elems: vviews(inner.elements@),
                        });
                        assert forall|k: int| 0 <= k < inner.elements@.len() implies val_wf(
                            vview(#[trigger] inner.elements@[k]),
                        ) by {
                            assert(val_wf(vview(arr.elements@[i as int])->Arr_elems[k]));
                            assert(vviews(inner.elements@)[k] == vview(inner.elements@[k]));
                        }
                    }
                    new_level = inner.level;
                    let mut rest = inner.elements;
                    let ghost inner_orig = rest@;
                    let mut j: usize = 0;
                    while j < rest.len()
                        invariant
                            j <= rest@.len(),
                            rest@ == inner_orig,
                            forall|k: int|
                                0 <= k < inner_orig.len() ==> val_wf(
                                    vview(#[trigger] inner_orig[k]),
                                ),
                            forall|k: int|
                                0 <= k < flattened@.len() ==> val_wf(
                                    vview(#[trigger] flattened@[k]),
                                ),
                            flattened@.len() == before.len() + j,
                            forall|k: int|
                                0 <= k < before.len() ==> #[trigger] flattened@[k] == before[k],
                            forall|k: int|
                                before.len() <= k < flattened@.len() ==> vview(
                                    #[trigger] flattened@[k],
                                ) == vview(inner_orig[k - before.len()]),
                        decreases rest@.len() - j,
                    {
                        let x = rest[j].deep_copy();
                        flattened.push(x);
                        j = j + 1;
                    }
                    proof {
                        crate::value::lemma_vviews(before);
                        crate::value::lemma_vviews(flattened@);
                        crate::value::lemma_vviews(inner_orig);
                        assert(vviews(flattened@) =~= vviews(before) + vviews(inner_orig));
                    }
                },
                _ => {
                    proof {
                        assert(!(vview(arr.elements@[i as int]) is Arr));
                    }
                },
            }
            i = i + 1;
        }
        proof {
            assert(arr.elements@.subrange(0, arr.elements@.len() as int) =~= arr.elements@);
        }
        (flattened, new_level)
    } else {
        (arr.elements, level)
    };
    let ghost rows_v = vviews(rows_vals@);
    let ghost rows = Seq::new(rows_v.len(), |i: int| row_cells(rows_v[i]));
    proof {
        crate::value::lemma_vviews(rows_vals@);
    }
    // render every cell
    let mut cell_rows: Vec<Vec<String>> = Vec::new();
    let mut i: usize = 0;
    while i < rows_vals.len()
        invariant
            i <= rows_vals@.len(),
            rows_v == vviews(rows_vals@),
            rows == Seq::new(rows_v.len(), |k: int| row_cells(rows_v[k])),
            forall|k: int|
                0 <= k < rows_vals@.len() ==> val_wf(vview(#[trigger] rows_vals@[k])),
            cell_rows@.len() == i,
            forall|k: int|
                0 <= k < i ==> (#[trigger] cell_rows@[k])@.len() == rows[k].len(),
            forall|k: int, j: int|
                0 <= k < i && 0 <= j < rows[k].len() ==> (#[trigger] cell_rows@[k]@[j])@
                    == rows[k][j],
        decreases rows_vals@.len() - i,
    {
        proof {
            crate::value::lemma_vviews(rows_vals@);
            assert(rows_v[i as int] == vview(rows_vals@[i as int]));
        }
        let cells = row_to_cells(&rows_vals[i]);
        cell_rows.push(cells);
        i = i + 1;
    }
    // per-column widths
    let mut widths: Vec<usize> = Vec::new();
    let mut c: usize = 0;
    let max_cols = max_row_len(&cell_rows);
    while c < max_cols
        invariant
            forall|k: int|
                0 <= k < cell_rows@.len() ==> (#[trigger] cell_rows@[k])@.len() == rows[k].len(),
            forall|k: int, j: int|
                0 <= k < cell_rows@.len() && 0 <= j < rows[k].len() ==> (
                #[trigger] cell_rows@[k]@[j])@ == rows[k][j],
            cell_rows@.len() == rows.len(),
            widths@.len() == c,
            forall|j: int| 0 <= j < c ==> (#[trigger] widths@[j]) as nat == col_width(rows, j),
        decreases max_cols - c,
    {
        let w = column_width(&cell_rows, c, Ghost(rows));
        widths.push(w);
        c = c + 1;
    }
    // build the padded rows
    let mut out: Vec<Value> = Vec::new();
    let mut k: usize = 0;
    while k < cell_rows.len()
        invariant
            k <= cell_rows@.len(),
            cell_rows@.len() == rows.len(),
            forall|j: int|
                0 <= j < cell_rows@.len() ==> (#[trigger] cell_rows@[j])@.len() == rows[j].len(),
            forall|j: int, l: int|
                0 <= j < cell_rows@.len() && 0 <= l < rows[j].len() ==> (
                #[trigger] cell_rows@[j]@[l])@ == rows[j][l],
            widths@.len() >= max_row_len_spec(cell_rows@),
            forall|j: int| 0 <= j < widths@.len() ==> (#[trigger] widths@[j]) as nat == col_width(
                rows,
                j,
            ),
            forall|j: int|
                0 <= j < cell_rows@.len() ==> (#[trigger] cell_rows@[j])@.len()
                    <= max_row_len_spec(cell_rows@),
            out@.len() == k,
            forall|j: int|
                0 <= j < k ==> vview(#[trigger] out@[j]) == spec_pad_row(rows, rows[j]),
        decreases cell_rows@.len() - k,
    {
        let row = &cell_rows[k];
        let mut cells: Vec<Value> = Vec::new();
        let mut j: usize = 0;
        while j < row.len()
            invariant
                k < cell_rows@.len(),
                cell_rows@.len() == rows.len(),
                row == &cell_rows@[k as int],
                row@.len() == rows[k as int].len(),
                forall|l: int| 0 <= l < row@.len() ==> (#[trigger] row@[l])@ == rows[k as int][l],
                widths@.len() >= row@.len(),
                forall|l: int| 0 <= l < widths@.len() ==> (#[trigger] widths@[l]) as nat
                    == col_width(rows, l),
                j <= row@.len(),
                cells@.len() == j,
                forall|l: int|
                    0 <= l < j ==> vview(#[trigger] cells@[l]) == (if l == row@.len() - 1 {
                        Val::Txt(rows[k as int][l])
                    } else {
                        Val::Txt(pad_to(rows[k as int][l], col_width(rows, l)))
                    }),
            decreases row@.len() - j,
        {
            if j + 1 == row.len() {
                cells.push(Value::Text(row[j].clone()));
            } else {
                let padded = pad_cell(&row[j], widths[j], Ghost(rows), Ghost(j as int));
                cells.push(Value::Text(padded));
            }
            j = j + 1;
        }
        let ghost before = out@;
        out.push(Value::Array(Array { level: Level::Word, elements: cells }));
        proof {
            crate::value::lemma_vviews(cells@);
            crate::value::lemma_vviews(before);
            crate::value::lemma_vviews(out@);
            let want = spec_pad_row(rows, rows[k as int]);
            assert(vviews(cells@) =~= want->Arr_elems);
        }
        k = k + 1;
    }
    proof {
        crate::value::lemma_vviews(out@);
        let want = spec_columnate(level, orig);
        assert(rows_v == (if spec_colum_nested(orig) {
            flat_elems(orig)
        } else {
            orig
        }));
        assert(vviews(out@) =~= want->Arr_elems);
        assert forall|j: int| 0 <= j < out@.len() implies val_wf(vview(#[trigger] out@[j])) by {
            let pr = spec_pad_row(rows, rows[j]);
            assert(vview(out@[j]) == pr);
            assert forall|l: int| 0 <= l < pr->Arr_elems.len() implies val_wf(
                #[trigger] pr->Arr_elems[l],
            ) by {}
        }
    }
    Value::Array(Array { level: lvl, elements: out })
}

/// Whether the first element is an array of arrays.
fn is_nested(elems: &Vec<Value>) -> (r: bool)
    ensures
        r == spec_colum_nested(vviews(elems@)),
{
    proof {
        crate::value::lemma_vviews(elems@);
    }
    if elems.len() == 0 {
        return false;
    }
    match &elems[0] {
        Value::Array(inner) => {
            proof {
                crate::value::lemma_vviews(inner.elements@);
            }
            if inner.elements.len() == 0 {
                return false;
            }
            match &inner.elements[0] {
                Value::Array(_) => true,
                _ => false,
            }
        },
        _ => false,
    }
}

/// The length of the longest row.
pub open spec fn max_row_len_spec(rows: Seq<Vec<String>>) -> int
    decreases rows.len(),
{
    if rows.len() == 0 {
        0
    } else {
        let m = max_row_len_spec(rows.drop_last());
        if rows.last()@.len() > m {
            rows.last()@.len() as int
        } else {
            m
        }
    }
}

/// The length of the longest row.
fn max_row_len(rows: &Vec<Vec<String>>) -> (r: usize)
    ensures
        r as int == max_row_len_spec(rows@),
        forall|j: int| 0 <= j < rows@.len() ==> (#[trigger] rows@[j])@.len() <= r,
{
    let mut m: usize = 0;
    let mut i: usize = 0;
    proof {
        assert(rows@.subrange(0, 0) =~= Seq::<Vec<String>>::empty());
    }
    while i < rows.len()
        invariant
            i <= rows@.len(),
            m as int == max_row_len_spec(rows@.subrange(0, i as int)),
            forall|j: int| 0 <= j < i ==> (#[trigger] rows@[j])@.len() <= m,
        decreases rows@.len() - i,
    {
        proof {
            let pre = rows@.subrange(0, i as int);
            let cur = rows@.subrange(0, i + 1);
            assert(cur.drop_last() =~= pre);
            assert(cur.last() == rows@[i as int]);
        }
        if rows[i].len() > m {
            m = rows[i].len();
        }
        i = i + 1;
    }
    proof {
        assert(rows@.subrange(0, rows@.len() as int) =~= rows@);
    }
    m
}

/// The cells of one row, rendered as text.
fn row_to_cells(v: &Value) -> (r: Vec<String>)
    requires
        val_wf(v@),
    ensures
        r@.len() == row_cells(v@).len(),
        forall|j: int| 0 <= j < r@.len() ==> (#[trigger] r@[j])@ == row_cells(v@)[j],
{
    match v {
        Value::Array(a) => {
            proof {
                crate::value::lemma_arr_wf_elems(v@);
                crate::value::lemma_vviews(a.elements@);
                crate::value::lemma_wf_through(a.level, a.elements@);
            }
            let mut out: Vec<String> = Vec::new();
            let mut j: usize = 0;
            while j < a.elements.len()
                invariant
                    j <= a.elements@.len(),
                    v == Value::Array(*a),
                    val_wf(v@),
                    out@.len() == j,
                    forall|l: int|
                        0 <= l < j ==> (#[trigger] out@[l])@ == val_text(
                            vview(a.elements@[l]),
                        ),
                decreases a.elements@.len() - j,
            {
                proof {
                    crate::value::lemma_arr_wf_elems(v@);
                    crate::value::lemma_vviews(a.elements@);
                    assert(val_wf(v@->Arr_elems[j as int]));
                }
                let s = render_value(&a.elements[j]);
                out.push(s);
                j = j + 1;
            }
            proof {
                crate::value::lemma_vviews(a.elements@);
                assert forall|l: int| 0 <= l < out@.len() implies (#[trigger] out@[l])@
                    == row_cells(v@)[l] by {
                    assert(vviews(a.elements@)[l] == vview(a.elements@[l]));
                }
            }
            out
        },
        other => {
            let s = render_value(other);
            let mut out: Vec<String> = Vec::new();
            out.push(s);
            out
        },
    }
}

/// The width of column `c` over the rendered rows.
fn column_width(rows: &Vec<Vec<String>>, c: usize, spec_rows: Ghost<Seq<Seq<Seq<char>>>>) -> (r:
    usize)
    requires
        rows@.len() == spec_rows@.len(),
        forall|k: int|
            0 <= k < rows@.len() ==> (#[trigger] rows@[k])@.len() == spec_rows@[k].len(),
        forall|k: int, j: int|
            0 <= k < rows@.len() && 0 <= j < spec_rows@[k].len() ==> (#[trigger] rows@[k]@[j])@
                == spec_rows@[k][j],
    ensures
        r as nat == col_width(spec_rows@, c as int),
{
    let mut w: usize = 0;
    let mut k: usize = 0;
    proof {
        assert(spec_rows@.subrange(0, 0) =~= Seq::<Seq<Seq<char>>>::empty());
    }
    while k < rows.len()
        invariant
            k <= rows@.len(),
            rows@.len() == spec_rows@.len(),
            forall|i: int|
                0 <= i < rows@.len() ==> (#[trigger] rows@[i])@.len() == spec_rows@[i].len(),
            forall|i: int, j: int|
                0 <= i < rows@.len() && 0 <= j < spec_rows@[i].len() ==> (
                #[trigger] rows@[i]@[j])@ == spec_rows@[i][j],
            w as nat == col_width(spec_rows@.subrange(0, k as int), c as int),
        decreases rows@.len() - k,
    {
        proof {
            let pre = spec_rows@.subrange(0, k as int);
            let cur = spec_rows@.subrange(0, k + 1);
            assert(cur.drop_last() =~= pre);
            assert(cur.last() == spec_rows@[k as int]);
        }
        let row = &rows[k];
        if c < row.len() {
            let cl = cell_len(&row[c]);
            proof {
                assert((rows@[k as int]@[c as int])@ == spec_rows@[k as int][c as int]);
            }
            if cl > w {
                w = cl;
            }
        }
        k = k + 1;
    }
    proof {
        assert(spec_rows@.subrange(0, spec_rows@.len() as int) =~= spec_rows@);
    }
    w
}

/// The character count of one cell.
fn cell_len(s: &String) -> (r: usize)
    ensures
        r == s@.len(),
{
    let cs = str_chars(s.as_str());
    cs.len()
}

/// A cell padded with trailing spaces to its column's width.
fn pad_cell(s: &String, w: usize, spec_rows: Ghost<Seq<Seq<Seq<char>>>>, c: Ghost<int>) -> (r:
    String)
    requires
        w as nat == col_width(spec_rows@, c@),
    ensures
        r@ == pad_to(s@, col_width(spec_rows@, c@)),
{
    let mut out = s.clone();
    let mut n = cell_len(&out);
    while n < w
        invariant
            n == out@.len(),
            pad_to(out@, w as nat) == pad_to(s@, w as nat),
        decreases w - n,
    {
        crate::textutil::push_char(&mut out, ' ');
        n = n + 1;
    }
    proof {
        assert(pad_to(out@, w as nat) == out@);
    }
    out
}

} // verus!
