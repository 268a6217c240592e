//! The laws the operator library obeys, proved from the operators' own
//! specifications.

use vstd::prelude::*;

use crate::operators::columnate::{col_width, pad_to, row_cells, spec_pad_row};
use crate::operators::dedupe::{
    has_key, key_count, sort_pairs, spec_pairs, insert_pair, uniq_vals,
};
use crate::operators::group::{spec_extract_key, spec_groups};
use crate::operators::join::{seq_join, spec_join, spec_join_arr, spec_join_part, spec_join_parts};
use crate::operators::split::{spec_split, spec_split_line, SplitMode};
use crate::render::val_key;
use crate::textutil::ws_words;
use crate::value::{Level, Val};

verus! {

broadcast use vstd::seq::group_seq_axioms;

/// The sum of the pair counts.
pub open spec fn pair_sum(ps: Seq<(nat, Val)>) -> nat
    decreases ps,
{
    if ps.len() == 0 {
        0
    } else {
        pair_sum(ps.drop_last()) + ps.last().0
    }
}

/// The counts of a list of representatives against a sequence.
pub open spec fn counts_sum(s: Seq<Val>, u: Seq<Val>) -> nat
    decreases u,
{
    if u.len() == 0 {
        0
    } else {
        counts_sum(s, u.drop_last()) + key_count(s, val_key(u.last()))
    }
}

/// How many representatives carry the key.
pub open spec fn key_hits(u: Seq<Val>, k: Seq<char>) -> nat
    decreases u,
{
    if u.len() == 0 {
        0
    } else {
        key_hits(u.drop_last(), k) + if val_key(u.last()) == k {
            1nat
        } else {
            0nat
        }
    }
}

/// Appending one element to the counted sequence raises the representative
/// sums by the number of representatives carrying its key.
proof fn lemma_counts_sum_step(s: Seq<Val>, e: Val, u: Seq<Val>)
    ensures
        counts_sum(s.push(e), u) == counts_sum(s, u) + key_hits(u, val_key(e)),
    decreases u,
{
    if u.len() > 0 {
        lemma_counts_sum_step(s, e, u.drop_last());
        assert(s.push(e).drop_last() =~= s);
        assert(s.push(e).last() == e);
        assert(key_count(s.push(e), val_key(u.last())) == key_count(s, val_key(u.last())) + (
        if val_key(e) == val_key(u.last()) {
            1nat
        } else {
            0nat
        }));
    }
}

/// A key is carried by at most one representative: one where it occurs at
/// all, none otherwise.
proof fn lemma_uniq_key_hits(s: Seq<Val>, k: Seq<char>)
    ensures
        key_hits(uniq_vals(s), k) == (if has_key(uniq_vals(s), k) {
            1nat
        } else {
            0nat
        }),
    decreases s,
{
    if s.len() > 0 {
        lemma_uniq_key_hits(s.drop_last(), k);
        let u0 = uniq_vals(s.drop_last());
        if has_key(u0, val_key(s.last())) {
            assert(uniq_vals(s) == u0);
        } else {
            assert(uniq_vals(s) == u0.push(s.last()));
            assert(uniq_vals(s).drop_last() =~= u0);
            assert(uniq_vals(s).last() == s.last());
            if has_key(uniq_vals(s), k) {
                if val_key(s.last()) != k {
                    let w = choose|w: int|
                        0 <= w < uniq_vals(s).len() && val_key(uniq_vals(s)[w]) == k;
                    assert(uniq_vals(s)[w] == u0[w]);
                    assert(has_key(u0, k));
                }
            }
            if val_key(s.last()) == k {
                assert(!has_key(u0, k)) by {
                    if has_key(u0, k) {
                        assert(has_key(u0, val_key(s.last())));
                    }
                }
                assert(uniq_vals(s)[uniq_vals(s).len() - 1] == s.last());
                assert(has_key(uniq_vals(s), k));
            }
        }
    }
}

/// The dedupe counts of a sequence sum to its length.
proof fn lemma_counts_sum_total(s: Seq<Val>)
    ensures
        counts_sum(s, uniq_vals(s)) == s.len(),
    decreases s,
{
    if s.len() > 0 {
        let s0 = s.drop_last();
        let e = s.last();
        lemma_counts_sum_total(s0);
        let u0 = uniq_vals(s0);
        assert(s0.push(e) =~= s);
        lemma_uniq_key_hits(s0, val_key(e));
        if has_key(u0, val_key(e)) {
            assert(uniq_vals(s) == u0);
            lemma_counts_sum_step(s0, e, u0);
        } else {
            assert(uniq_vals(s) == u0.push(e));
            lemma_counts_sum_step(s0, e, u0);
            assert(key_hits(u0, val_key(e)) == 0);
            assert(counts_sum(s, u0.push(e)) == counts_sum(s, u0) + key_count(s, val_key(e)))
                by {
                assert(u0.push(e).drop_last() =~= u0);
                assert(u0.push(e).last() == e);
            }
            crate::operators::dedupe::lemma_new_key_count_public(s0, e);
            assert(key_count(s, val_key(e)) == key_count(s0, val_key(e)) + 1) by {
                assert(s.drop_last() =~= s0);
            }
        }
    }
}

/// The pair sum of the dedupe rows equals the representative count sum.
proof fn lemma_pairs_sum(s: Seq<Val>, i: int)
    requires
        0 <= i <= uniq_vals(s).len(),
    ensures
        pair_sum(spec_pairs(s).subrange(0, i)) == counts_sum(s, uniq_vals(s).subrange(0, i)),
    decreases i,
{
    if i > 0 {
        lemma_pairs_sum(s, i - 1);
        let ps = spec_pairs(s).subrange(0, i);
        let us = uniq_vals(s).subrange(0, i);
        assert(ps.drop_last() =~= spec_pairs(s).subrange(0, i - 1));
        assert(us.drop_last() =~= uniq_vals(s).subrange(0, i - 1));
        assert(ps.last() == spec_pairs(s)[i - 1]);
        assert(us.last() == uniq_vals(s)[i - 1]);
    }
}

/// Inserting a pair keeps the pair sum.
proof fn lemma_insert_pair_sum(ps: Seq<(nat, Val)>, p: (nat, Val))
    ensures
        pair_sum(insert_pair(ps, p)) == pair_sum(ps) + p.0,
    decreases ps.len(),
{
    if ps.len() == 0 {
        let t = insert_pair(ps, p);
        assert(t =~= Seq::<(nat, Val)>::empty().push(p));
        assert(t.drop_last() =~= Seq::<(nat, Val)>::empty());
        assert(t.last() == p);
        assert(pair_sum(t) == pair_sum(t.drop_last()) + p.0);
    } else if ps.last().0 >= p.0 {
        let t = insert_pair(ps, p);
        assert(t == ps.push(p));
        assert(t.drop_last() =~= ps);
        assert(t.last() == p);
        assert(pair_sum(t) == pair_sum(ps) + p.0);
    } else {
        lemma_insert_pair_sum(ps.drop_last(), p);
        let t = insert_pair(ps.drop_last(), p).push(ps.last());
        assert(insert_pair(ps, p) == t);
        assert(t.drop_last() =~= insert_pair(ps.drop_last(), p));
        assert(t.last() == ps.last());
        assert(pair_sum(t) == pair_sum(insert_pair(ps.drop_last(), p)) + ps.last().0);
        assert(pair_sum(ps) == pair_sum(ps.drop_last()) + ps.last().0);
    }
}

/// Sorting the pairs keeps the pair sum.
proof fn lemma_sort_pairs_sum(ps: Seq<(nat, Val)>)
    ensures
        pair_sum(sort_pairs(ps)) == pair_sum(ps),
    decreases ps.len(),
{
    if ps.len() > 0 {
        lemma_sort_pairs_sum(ps.drop_last());
        lemma_insert_pair_sum(sort_pairs(ps.drop_last()), ps.last());
    }
}

/// The counts of the dedupe rows sum to the input length.
pub proof fn lemma_dedupe_counts_sum(s: Seq<Val>)
    ensures
        pair_sum(sort_pairs(spec_pairs(s))) == s.len(),
{
    lemma_counts_sum_total(s);
    crate::operators::dedupe::lemma_uniq_len(s);
    lemma_pairs_sum(s, uniq_vals(s).len() as int);
    assert(spec_pairs(s).subrange(0, spec_pairs(s).len() as int) =~= spec_pairs(s));
    assert(uniq_vals(s).subrange(0, uniq_vals(s).len() as int) =~= uniq_vals(s));
    lemma_sort_pairs_sum(spec_pairs(s));
}

/// Inserting under the count order keeps the rows sorted by count
/// descending.
proof fn lemma_insert_pair_sorted(ps: Seq<(nat, Val)>, p: (nat, Val))
    requires
        forall|a: int, b: int| 0 <= a < b < ps.len() ==> (#[trigger] ps[a]).0 >= (
        #[trigger] ps[b]).0,
    ensures
        forall|a: int, b: int|
            0 <= a < b < insert_pair(ps, p).len() ==> (#[trigger] insert_pair(ps, p)[a]).0 >= (
            #[trigger] insert_pair(ps, p)[b]).0,
    decreases ps.len(),
{
    let t = insert_pair(ps, p);
    if ps.len() == 0 {
    } else if ps.last().0 >= p.0 {
        assert(t == ps.push(p));
        assert forall|a: int, b: int| 0 <= a < b < t.len() implies (#[trigger] t[a]).0 >= (
        #[trigger] t[b]).0 by {
            if b < t.len() - 1 {
                assert(t[a] == ps[a] && t[b] == ps[b]);
            } else {
                assert(t[b] == p);
                if a < ps.len() - 1 {
                    assert(ps[a].0 >= ps[ps.len() - 1].0);
                }
            }
        }
    } else {
        assert(forall|a: int, b: int|
            0 <= a < b < ps.drop_last().len() ==> (#[trigger] ps.drop_last()[a]).0 >= (
            #[trigger] ps.drop_last()[b]).0);
        lemma_insert_pair_sorted(ps.drop_last(), p);
        let t0 = insert_pair(ps.drop_last(), p);
        assert(t == t0.push(ps.last()));
        crate::operators::dedupe::lemma_insert_pair_members(ps.drop_last(), p);
        assert forall|a: int, b: int| 0 <= a < b < t.len() implies (#[trigger] t[a]).0 >= (
        #[trigger] t[b]).0 by {
            if b < t.len() - 1 {
                assert(t[a] == t0[a] && t[b] == t0[b]);
            } else {
                assert(t[b] == ps.last());
                assert(t[a] == t0[a]);
                if t0[a] == p {
                    assert(p.0 > ps.last().0);
                } else {
                    let w = choose|w: int|
                        0 <= w < ps.drop_last().len() && t0[a] == ps.drop_last()[w];
                    assert(ps[w].0 >= ps[ps.len() - 1].0);
                }
            }
        }
    }
}

/// The dedupe rows are sorted by count descending.
pub proof fn lemma_dedupe_counts_sorted(s: Seq<Val>)
    ensures
        forall|a: int, b: int|
            0 <= a < b < sort_pairs(spec_pairs(s)).len() ==> (#[trigger] sort_pairs(
                spec_pairs(s),
            )[a]).0 >= (#[trigger] sort_pairs(spec_pairs(s))[b]).0,
{
    lemma_sort_pairs_sorted(spec_pairs(s));
}

proof fn lemma_sort_pairs_sorted(ps: Seq<(nat, Val)>)
    ensures
        forall|a: int, b: int|
            0 <= a < b < sort_pairs(ps).len() ==> (#[trigger] sort_pairs(ps)[a]).0 >= (
            #[trigger] sort_pairs(ps)[b]).0,
    decreases ps.len(),
{
    if ps.len() > 0 {
        lemma_sort_pairs_sorted(ps.drop_last());
        lemma_insert_pair_sorted(sort_pairs(ps.drop_last()), ps.last());
    }
}

/// A stable insertion is one placement: the new pair goes at a position
/// after which every old row counts strictly less.
proof fn lemma_insert_pair_shape(ps: Seq<(nat, Val)>, p: (nat, Val))
    ensures
        exists|pos: int|
            0 <= pos <= ps.len() && insert_pair(ps, p) == ps.insert(pos, p) && (forall|k: int|
                pos <= k < ps.len() ==> (#[trigger] ps[k]).0 < p.0),
    decreases ps.len(),
{
    if ps.len() == 0 {
        assert(insert_pair(ps, p) =~= ps.insert(0, p));
        assert(0 <= 0 <= ps.len() && insert_pair(ps, p) == ps.insert(0, p) && (forall|k: int|
            0 <= k < ps.len() ==> (#[trigger] ps[k]).0 < p.0));
    } else if ps.last().0 >= p.0 {
        assert(insert_pair(ps, p) == ps.push(p));
        assert(ps.push(p) =~= ps.insert(ps.len() as int, p));
        assert(ps.len() as int <= ps.len() && insert_pair(ps, p) == ps.insert(
            ps.len() as int,
            p,
        ) && (forall|k: int| ps.len() <= k < ps.len() ==> (#[trigger] ps[k]).0 < p.0));
    } else {
        lemma_insert_pair_shape(ps.drop_last(), p);
        let pos = choose|pos: int|
            0 <= pos <= ps.drop_last().len() && insert_pair(ps.drop_last(), p)
                == ps.drop_last().insert(pos, p) && (forall|k: int|
                pos <= k < ps.drop_last().len() ==> (#[trigger] ps.drop_last()[k]).0 < p.0);
        assert(insert_pair(ps, p) == insert_pair(ps.drop_last(), p).push(ps.last()));
        assert(ps.drop_last().insert(pos, p).push(ps.last()) =~= ps.insert(pos, p));
        assert forall|k: int| pos <= k < ps.len() implies (#[trigger] ps[k]).0 < p.0 by {
            if k < ps.len() - 1 {
                assert(ps.drop_last()[k] == ps[k]);
            }
        }
        assert(0 <= pos <= ps.len() && insert_pair(ps, p) == ps.insert(pos, p) && (forall|k: int|
            pos <= k < ps.len() ==> (#[trigger] ps[k]).0 < p.0));
    }
}

/// Every source pair appears in the sorted rows.
proof fn lemma_sort_pairs_member(ps: Seq<(nat, Val)>, i: int)
    requires
        0 <= i < ps.len(),
    ensures
        exists|a: int| 0 <= a < sort_pairs(ps).len() && sort_pairs(ps)[a] == ps[i],
    decreases ps.len(),
{
    let t0 = sort_pairs(ps.drop_last());
    let p = ps.last();
    lemma_insert_pair_shape(t0, p);
    let pos = choose|pos: int|
        0 <= pos <= t0.len() && insert_pair(t0, p) == t0.insert(pos, p) && (forall|k: int|
            pos <= k < t0.len() ==> (#[trigger] t0[k]).0 < p.0);
    if i == ps.len() - 1 {
        assert(sort_pairs(ps)[pos] == p);
    } else {
        assert(ps.drop_last()[i] == ps[i]);
        lemma_sort_pairs_member(ps.drop_last(), i);
        let a = choose|a: int| 0 <= a < t0.len() && t0[a] == ps[i];
        if a < pos {
            assert(sort_pairs(ps)[a] == t0[a]);
        } else {
            assert(sort_pairs(ps)[a + 1] == t0[a]);
        }
    }
}

/// Rows with equal counts keep their given order: where two distinct pairs
/// with the same count stand at `i < j`, the sorted rows hold them at some
/// `a < b`.  With the pairs of `spec_pairs`, whose order is first-occurrence
/// order, ties therefore list by first occurrence.
pub proof fn lemma_sort_pairs_stable(ps: Seq<(nat, Val)>, i: int, j: int)
    requires
        0 <= i < j < ps.len(),
        ps[i].0 == ps[j].0,
    ensures
        exists|a: int, b: int|
            0 <= a < b < sort_pairs(ps).len() && sort_pairs(ps)[a] == ps[i] && sort_pairs(
                ps,
            )[b] == ps[j],
    decreases ps.len(),
{
    let t0 = sort_pairs(ps.drop_last());
    let p = ps.last();
    let t = sort_pairs(ps);
    lemma_insert_pair_shape(t0, p);
    let pos = choose|pos: int|
        0 <= pos <= t0.len() && insert_pair(t0, p) == t0.insert(pos, p) && (forall|k: int|
            pos <= k < t0.len() ==> (#[trigger] t0[k]).0 < p.0);
    if j == ps.len() - 1 {
        // the new row lands after every row counting at least as much,
        // the tied earlier row among them
        assert(ps.drop_last()[i] == ps[i]);
        lemma_sort_pairs_member(ps.drop_last(), i);
        let a = choose|a: int| 0 <= a < t0.len() && t0[a] == ps[i];
        assert(a < pos) by {
            if a >= pos {
                assert(t0[a].0 < p.0);
            }
        }
        assert(t[a] == t0[a]);
        assert(t[pos] == p);
        assert(0 <= a < pos < t.len() && t[a] == ps[i] && t[pos] == ps[j]);
    } else {
        assert(ps.drop_last()[i] == ps[i]);
        assert(ps.drop_last()[j] == ps[j]);
        lemma_sort_pairs_stable(ps.drop_last(), i, j);
        let (a, b): (int, int) = choose|a: int, b: int|
            0 <= a < b < t0.len() && t0[a] == ps[i] && t0[b] == ps[j];
        let a2: int = if a < pos {
            a
        } else {
            a + 1
        };
        let b2: int = if b < pos {
            b
        } else {
            b + 1
        };
        assert(t[a2] == t0[a]);
        assert(t[b2] == t0[b]);
        assert(0 <= a2 < b2 < t.len() && t[a2] == ps[i] && t[b2] == ps[j]);
    }
}

/// The members of a group list, in total.
pub open spec fn groups_size(gs: Seq<(Val, Seq<Val>)>) -> nat
    decreases gs,
{
    if gs.len() == 0 {
        0
    } else {
        groups_size(gs.drop_last()) + gs.last().1.len()
    }
}

/// Group-by preserves the total element count: the members of all groups
/// together are exactly the input's elements.
pub proof fn lemma_group_by_count(items: Seq<crate::ast::SelectItem>, s: Seq<Val>)
    ensures
        spec_groups(items, s) matches Ok(gs) ==> groups_size(gs) == s.len(),
    decreases s,
{
    if s.len() > 0 {
        lemma_group_by_count(items, s.drop_last());
        if spec_groups(items, s) is Ok {
            let gs0 = spec_groups(items, s.drop_last())->Ok_0;
            let k = spec_extract_key(items, s.last())->Ok_0;
            let i = crate::operators::group::find_group(gs0, val_key(k));
            crate::operators::group::lemma_find_group_nonneg(gs0, val_key(k));
            if i < gs0.len() {
                let gs = gs0.update(i, (gs0[i].0, gs0[i].1.push(s.last())));
                lemma_groups_size_update(gs0, i, s.last());
            } else {
                let gs = gs0.push((k, seq![s.last()]));
                assert(gs.drop_last() =~= gs0);
            }
        }
    }
}

/// Growing one group by one element grows the total by one.
proof fn lemma_groups_size_update(gs: Seq<(Val, Seq<Val>)>, i: int, e: Val)
    requires
        0 <= i < gs.len(),
    ensures
        groups_size(gs.update(i, (gs[i].0, gs[i].1.push(e)))) == groups_size(gs) + 1,
    decreases gs,
{
    let t = gs.update(i, (gs[i].0, gs[i].1.push(e)));
    if i == gs.len() - 1 {
        assert(t.drop_last() =~= gs.drop_last());
        assert(t.last() == (gs[i].0, gs[i].1.push(e)));
    } else {
        assert(t.drop_last() =~= gs.drop_last().update(i, (gs[i].0, gs[i].1.push(e))));
        assert(gs.drop_last()[i] == gs[i]);
        lemma_groups_size_update(gs.drop_last(), i, e);
        assert(t.last() == gs.last());
    }
}

/// Columnate's column width dominates every cell in the column.
pub proof fn lemma_col_width_dominates(rows: Seq<Seq<Seq<char>>>, r: int, c: int)
    requires
        0 <= r < rows.len(),
        0 <= c < rows[r].len(),
    ensures
        rows[r][c].len() <= col_width(rows, c),
    decreases rows,
{
    if r == rows.len() - 1 {
        lemma_col_width_ge_prev(rows, c);
    } else {
        assert(rows.drop_last()[r] == rows[r]);
        lemma_col_width_dominates(rows.drop_last(), r, c);
        lemma_col_width_ge_prev(rows, c);
    }
}

proof fn lemma_col_width_ge_prev(rows: Seq<Seq<Seq<char>>>, c: int)
    requires
        rows.len() > 0,
    ensures
        col_width(rows, c) >= col_width(rows.drop_last(), c),
        0 <= c < rows.last().len() ==> col_width(rows, c) >= rows.last()[c].len(),
{
}

/// Padding to a width at least the text's length gives exactly that width;
/// the original text is its prefix, so only spaces are appended.
pub proof fn lemma_pad_to_len(s: Seq<char>, w: nat)
    ensures
        pad_to(s, w).len() == (if s.len() >= w {
            s.len()
        } else {
            w
        }),
        pad_to(s, w).subrange(0, s.len() as int) == s,
        forall|k: int| s.len() <= k < pad_to(s, w).len() ==> pad_to(s, w)[k] == ' ',
    decreases (if s.len() < w {
        w - s.len()
    } else {
        0
    }),
{
    if s.len() < w {
        lemma_pad_to_len(s.push(' '), w);
        let t = pad_to(s, w);
        assert(t == pad_to(s.push(' '), w));
        assert(pad_to(s.push(' '), w).subrange(0, s.len() as int + 1) == s.push(' '));
        assert(t.subrange(0, s.len() as int) =~= s) by {
            assert forall|k: int| 0 <= k < s.len() implies t.subrange(0, s.len() as int)[k]
                == s[k] by {
                assert(t.subrange(0, s.len() as int + 1)[k] == s.push(' ')[k]);
            }
        }
        assert forall|k: int| s.len() <= k < t.len() implies t[k] == ' ' by {
            if k == s.len() {
                assert(t.subrange(0, s.len() as int + 1)[k] == s.push(' ')[k]);
            }
        }
    } else {
        assert(pad_to(s, w).subrange(0, s.len() as int) =~= s);
    }
}

/// In a columnated row, every cell but the last has exactly its column's
/// width, and the last cell is the unpadded text itself, so no trailing
/// spaces are introduced at line ends.
pub proof fn lemma_columnate_row_widths(rows: Seq<Seq<Seq<char>>>, r: int, c: int)
    requires
        0 <= r < rows.len(),
        0 <= c < rows[r].len(),
    ensures
        c < rows[r].len() - 1 ==> spec_pad_row(rows, rows[r])->Arr_elems[c] == Val::Txt(
            pad_to(rows[r][c], col_width(rows, c)),
        ) && pad_to(rows[r][c], col_width(rows, c)).len() == col_width(rows, c),
        c == rows[r].len() - 1 ==> spec_pad_row(rows, rows[r])->Arr_elems[c] == Val::Txt(
            rows[r][c],
        ),
{
    if c < rows[r].len() - 1 {
        lemma_col_width_dominates(rows, r, c);
        lemma_pad_to_len(rows[r][c], col_width(rows, c));
    }
}

/// Split then join, on a single `Line`-level whitespace-separated text,
/// reproduces the original with each whitespace run collapsed to one space:
/// the words rejoined with single spaces.  The collapse is deliberate, the
/// documented asymmetry of the round trip.
pub proof fn lemma_split_join_round_trip(s: Seq<char>)
    ensures
        spec_join(
            crate::operators::join::JoinMode::Semantic,
            spec_split(SplitMode::Whitespace, Val::Txt(s)),
        ) == Val::Txt(seq_join(ws_words(s).map_values(|w: Seq<char>| w), seq![' '])),
{
    let words = ws_words(s);
    let elems = spec_split_line(SplitMode::Whitespace, s).map_values(|p: Seq<char>| Val::Txt(p));
    let split = spec_split(SplitMode::Whitespace, Val::Txt(s));
    assert(split == Val::Arr { level: Level::Word, elems });
    if elems.len() > 0 {
        assert(!(elems[0] is Arr)) by {
            assert(elems[0] == Val::Txt(words[0]));
        }
    }
    lemma_join_txt_parts(crate::operators::join::JoinMode::Semantic, words);
    assert(Level::Word.spec_join_delimiter() == seq![' ']);
    lemma_seq_join_txt(words);
    assert(words.map_values(|w: Seq<char>| w) =~= words);
}

/// Joining an array of texts stringifies each text to itself.
proof fn lemma_join_txt_parts(mode: crate::operators::join::JoinMode, words: Seq<Seq<char>>)
    ensures
        spec_join_parts(mode, words.map_values(|p: Seq<char>| Val::Txt(p))) =~= words,
    decreases words.len(),
{
    let elems = words.map_values(|p: Seq<char>| Val::Txt(p));
    if words.len() > 0 {
        lemma_join_txt_parts(mode, words.drop_last());
        assert(elems.drop_last() =~= words.drop_last().map_values(|p: Seq<char>| Val::Txt(p)));
        assert(elems.last() == Val::Txt(words.last()));
        assert(spec_join_parts(mode, elems) == spec_join_parts(mode, elems.drop_last()).push(
            spec_join_part(mode, elems.last()),
        ));
        assert(words.drop_last().push(words.last()) =~= words);
    }
}

/// `seq_join` over identical word lists agrees after the identity map.
proof fn lemma_seq_join_txt(words: Seq<Seq<char>>)
    ensures
        seq_join(words, seq![' ']) == seq_join(words.map_values(|w: Seq<char>| w), seq![' ']),
{
    assert(words.map_values(|w: Seq<char>| w) =~= words);
}

} // verus!
