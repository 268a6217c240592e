//! Small bridges between `String` and `Vec<char>`, and case conversion.
//!
//! Text algorithms in this crate work over `Vec<char>`, whose view matches
//! the `Seq<char>` view of the strings they came from.

use vstd::prelude::*;

verus! {

broadcast use vstd::std_specs::vec::group_vec_axioms, vstd::seq::group_seq_axioms;

/// Relies on str::chars: the characters of the string, in order.
#[verifier::external_body]
pub fn str_chars(s: &str) -> (r: Vec<char>)
    ensures
        r@ == s@,
{
    s.chars().collect()
}

/// Relies on FromIterator for String: the string with exactly these
/// characters, in order.
#[verifier::external_body]
pub fn string_from_chars(v: &Vec<char>) -> (r: String)
    ensures
        r@ == v@,
{
    v.iter().collect()
}

/// Relies on String::push: appends one character.
#[verifier::external_body]
pub fn push_char(s: &mut String, c: char)
    ensures
        final(s)@ == old(s)@.push(c),
{
    s.push(c);
}

/// A Unicode whitespace character, the set `str::trim` and whitespace
/// splitting go by.
pub open spec fn is_ws(c: char) -> bool {
    c == ' ' || c == '\t' || c == '\n' || c == '\u{b}' || c == '\u{c}' || c == '\r' || c
        == '\u{85}' || c == '\u{a0}' || c == '\u{1680}' || ('\u{2000}' <= c && c <= '\u{200a}') || c
        == '\u{2028}' || c == '\u{2029}' || c == '\u{202f}' || c == '\u{205f}' || c == '\u{3000}'
}

/// Whether a character is Unicode whitespace.
pub fn is_ws_exec(c: char) -> (r: bool)
    ensures
        r == is_ws(c),
{
    c == ' ' || c == '\t' || c == '\n' || c == '\u{b}' || c == '\u{c}' || c == '\r' || c
        == '\u{85}' || c == '\u{a0}' || c == '\u{1680}' || ('\u{2000}' <= c && c <= '\u{200a}') || c
        == '\u{2028}' || c == '\u{2029}' || c == '\u{202f}' || c == '\u{205f}' || c == '\u{3000}'
}

/// The text without leading whitespace.
pub open spec fn trim_start_spec(s: Seq<char>) -> Seq<char>
    decreases s.len(),
{
    if s.len() > 0 && is_ws(s[0]) {
        trim_start_spec(s.drop_first())
    } else {
        s
    }
}

/// The text without trailing whitespace.
pub open spec fn trim_end_spec(s: Seq<char>) -> Seq<char>
    decreases s.len(),
{
    if s.len() > 0 && is_ws(s.last()) {
        trim_end_spec(s.drop_last())
    } else {
        s
    }
}

/// The text without leading and trailing whitespace.
pub open spec fn trim_spec(s: Seq<char>) -> Seq<char> {
    trim_end_spec(trim_start_spec(s))
}

/// Trim whitespace from both ends of a character sequence.
pub fn trim_chars(s: &Vec<char>) -> (r: Vec<char>)
    ensures
        r@ == trim_spec(s@),
{
    let mut a: usize = 0;
    proof {
        assert(s@.skip(0) =~= s@);
    }
    while a < s.len() && is_ws_exec(s[a])
        invariant
            a <= s@.len(),
            trim_start_spec(s@) == trim_start_spec(s@.skip(a as int)),
        decreases s@.len() - a,
    {
        proof {
            assert(s@.skip(a as int).drop_first() =~= s@.skip(a + 1));
        }
        a = a + 1;
    }
    let mut b: usize = s.len();
    proof {
        assert(s@.skip(a as int).take((b - a) as int) =~= s@.skip(a as int));
    }
    while b > a && is_ws_exec(s[b - 1])
        invariant
            a <= b <= s@.len(),
            trim_start_spec(s@) == trim_start_spec(s@.skip(a as int)),
            a < s@.len() ==> !is_ws(s@[a as int]),
            trim_end_spec(s@.skip(a as int)) == trim_end_spec(
                s@.skip(a as int).take((b - a) as int),
            ),
        decreases b,
    {
        proof {
            let cur = s@.skip(a as int).take((b - a) as int);
            assert(cur.last() == s@[b - 1]);
            assert(cur.drop_last() =~= s@.skip(a as int).take((b - 1 - a) as int));
        }
        b = b - 1;
    }
    let mut out: Vec<char> = Vec::new();
    let mut i = a;
    while i < b
        invariant
            a <= i <= b <= s@.len(),
            out@ == s@.subrange(a as int, i as int),
        decreases b - i,
    {
        out.push(s[i]);
        proof {
            assert(s@.subrange(a as int, i + 1) =~= s@.subrange(a as int, i as int).push(
                s@[i as int],
            ));
        }
        i = i + 1;
    }
    proof {
        let t = s@.skip(a as int);
        let u = t.take((b - a) as int);
        if a < s@.len() {
            assert(!is_ws(t[0]));
            assert(trim_start_spec(t) == t);
        } else {
            assert(t =~= Seq::<char>::empty());
            assert(trim_start_spec(t) == t);
        }
        if b > a {
            assert(!is_ws(u.last()));
            assert(trim_end_spec(u) == u);
        } else {
            assert(u =~= Seq::<char>::empty());
            assert(trim_end_spec(u) == u);
        }
        assert(out@ =~= u);
    }
    out
}

/// The character sequences of a vector of character vectors.
pub open spec fn views_of(v: Seq<Vec<char>>) -> Seq<Seq<char>> {
    Seq::new(v.len(), |i: int| v[i]@)
}

/// Where the run of non-whitespace characters starting at `i` ends.
pub open spec fn word_end(s: Seq<char>, i: int) -> int
    decreases s.len() - i,
{
    if 0 <= i < s.len() && !is_ws(s[i]) {
        word_end(s, i + 1)
    } else {
        i
    }
}

/// The word run is within bounds and nonempty where it starts on a
/// non-whitespace character.
pub proof fn lemma_word_end(s: Seq<char>, i: int)
    requires
        0 <= i <= s.len(),
    ensures
        i <= word_end(s, i) <= s.len(),
        i < s.len() && !is_ws(s[i]) ==> word_end(s, i) > i,
        forall|k: int| i <= k < word_end(s, i) ==> !is_ws(#[trigger] s[k]),
        word_end(s, i) < s.len() ==> is_ws(s[word_end(s, i)]),
    decreases s.len() - i,
{
    if i < s.len() && !is_ws(s[i]) {
        lemma_word_end(s, i + 1);
    }
}

/// The whitespace-separated words of the text from position `i` on:
/// maximal non-whitespace runs, in order.
pub open spec fn ws_words_from(s: Seq<char>, i: int) -> Seq<Seq<char>>
    decreases s.len() - i via ws_words_from_decreases
{
    if !(0 <= i < s.len()) {
        Seq::<Seq<char>>::empty()
    } else if is_ws(s[i]) {
        ws_words_from(s, i + 1)
    } else {
        seq![s.subrange(i, word_end(s, i))] + ws_words_from(s, word_end(s, i))
    }
}

#[via_fn]
proof fn ws_words_from_decreases(s: Seq<char>, i: int) {
    if 0 <= i < s.len() && !is_ws(s[i]) {
        lemma_word_end(s, i);
    }
}

/// The whitespace-separated words of the text.
pub open spec fn ws_words(s: Seq<char>) -> Seq<Seq<char>> {
    ws_words_from(s, 0)
}

/// Split a character sequence into its whitespace-separated words.
pub fn split_ws_chars(s: &Vec<char>) -> (r: Vec<Vec<char>>)
    ensures
        views_of(r@) == ws_words(s@),
{
    let mut out: Vec<Vec<char>> = Vec::new();
    let mut i: usize = 0;
    proof {
        assert(views_of(out@) + ws_words_from(s@, 0) =~= ws_words(s@));
    }
    while i < s.len()
        invariant
            i <= s@.len(),
            views_of(out@) + ws_words_from(s@, i as int) == ws_words(s@),
        decreases s@.len() - i,
    {
        if is_ws_exec(s[i]) {
            i = i + 1;
        } else {
            proof {
                lemma_word_end(s@, i as int);
            }
            let mut w: Vec<char> = Vec::new();
            let ghost start = i as int;
            while i < s.len() && !is_ws_exec(s[i])
                invariant
                    0 <= start <= i <= s@.len(),
                    word_end(s@, start) == word_end(s@, i as int),
                    w@ == s@.subrange(start, i as int),
                decreases s@.len() - i,
            {
                w.push(s[i]);
                proof {
                    assert(s@.subrange(start, i + 1) =~= s@.subrange(start, i as int).push(
                        s@[i as int],
                    ));
                }
                i = i + 1;
            }
            proof {
                assert(word_end(s@, i as int) == i as int);
                assert(w@ =~= s@.subrange(start, word_end(s@, start)));
                assert(ws_words_from(s@, start) == seq![s@.subrange(start, word_end(s@, start))]
                    + ws_words_from(s@, i as int));
            }
            let ghost pre = views_of(out@);
            out.push(w);
            proof {
                assert(views_of(out@) =~= pre.push(w@));
                assert(views_of(out@) + ws_words_from(s@, i as int) =~= pre + ws_words_from(
                    s@,
                    start,
                ));
            }
        }
    }
    proof {
        assert(ws_words_from(s@, i as int) =~= Seq::<Seq<char>>::empty());
        assert(views_of(out@) =~= views_of(out@) + Seq::<Seq<char>>::empty());
    }
    out
}

/// The first position at or after `i` where the delimiter occurs, or the
/// text's length where it does not.
pub open spec fn first_match(s: Seq<char>, d: Seq<char>, i: int) -> int
    decreases s.len() - i,
{
    if d.len() > 0 && 0 <= i && i + d.len() <= s.len() {
        if s.subrange(i, i + d.len() as int) == d {
            i
        } else {
            first_match(s, d, i + 1)
        }
    } else {
        s.len() as int
    }
}

/// The first match lies at or after `i`.
pub proof fn lemma_first_match(s: Seq<char>, d: Seq<char>, i: int)
    requires
        0 <= i <= s.len(),
    ensures
        first_match(s, d, i) >= i,
        first_match(s, d, i) <= s.len(),
        first_match(s, d, i) < s.len() ==> first_match(s, d, i) + d.len() <= s.len()
            && s.subrange(first_match(s, d, i), first_match(s, d, i) + d.len() as int) == d,
    decreases s.len() - i,
{
    if d.len() > 0 && i + d.len() <= s.len() && !(s.subrange(i, i + d.len() as int) == d) {
        lemma_first_match(s, d, i + 1);
    }
}

/// The fields of the text from `i` on, split on a non-empty delimiter:
/// the text between consecutive delimiter occurrences, empty fields kept.
pub open spec fn delim_fields_from(s: Seq<char>, d: Seq<char>, i: int) -> Seq<Seq<char>>
    decreases s.len() - i via delim_fields_from_decreases
{
    if d.len() == 0 || !(0 <= i <= s.len()) {
        Seq::<Seq<char>>::empty()
    } else {
        let j = first_match(s, d, i);
        if j == s.len() {
            seq![s.subrange(i, s.len() as int)]
        } else {
            seq![s.subrange(i, j)] + delim_fields_from(s, d, j + d.len() as int)
        }
    }
}

#[via_fn]
proof fn delim_fields_from_decreases(s: Seq<char>, d: Seq<char>, i: int) {
    if d.len() > 0 && 0 <= i <= s.len() {
        lemma_first_match(s, d, i);
    }
}

/// The fields of the text split on a non-empty delimiter.
pub open spec fn delim_fields(s: Seq<char>, d: Seq<char>) -> Seq<Seq<char>> {
    delim_fields_from(s, d, 0)
}

/// Whether the delimiter occurs at position `i`.
fn matches_at(s: &Vec<char>, d: &Vec<char>, i: usize) -> (r: bool)
    requires
        i + d@.len() <= s@.len(),
    ensures
        r == (s@.subrange(i as int, i + d@.len() as int) == d@),
{
    let n = s.len();
    let mut k: usize = 0;
    while k < d.len()
        invariant
            n == s@.len(),
            k <= d@.len(),
            i + d@.len() <= s@.len(),
            forall|j: int| 0 <= j < k ==> s@[i + j] == d@[j],
        decreases d@.len() - k,
    {
        proof {
            assert(k < d@.len());
            assert(i + k < s@.len());
        }
        if s[i + k] != d[k] {
            proof {
                assert(s@.subrange(i as int, i + d@.len() as int)[k as int] == s@[i + k]);
            }
            return false;
        }
        k = k + 1;
    }
    proof {
        assert(s@.subrange(i as int, i + d@.len() as int) =~= d@);
    }
    true
}

/// Split a character sequence on a non-empty delimiter, empty fields kept.
pub fn split_delim_chars(s: &Vec<char>, d: &Vec<char>) -> (r: Vec<Vec<char>>)
    requires
        d@.len() > 0,
    ensures
        views_of(r@) == delim_fields(s@, d@),
{
    let mut out: Vec<Vec<char>> = Vec::new();
    let mut field: Vec<char> = Vec::new();
    let mut i: usize = 0;
    let ghost mut fstart = 0int;
    proof {
        lemma_first_match(s@, d@, 0);
        assert(views_of(out@) + delim_fields_from(s@, d@, 0) =~= delim_fields(s@, d@));
        assert(field@ =~= s@.subrange(0, 0));
    }
    while i < s.len()
        invariant
            d@.len() > 0,
            0 <= fstart <= i <= s@.len(),
            field@ == s@.subrange(fstart, i as int),
            first_match(s@, d@, fstart) >= i,
            views_of(out@) + delim_fields_from(s@, d@, fstart) == delim_fields(s@, d@),
        decreases s@.len() - i,
    {
        proof {
            lemma_first_match(s@, d@, fstart);
        }
        if d.len() <= s.len() - i && matches_at(s, d, i) {
            proof {
                lemma_first_match_found(s@, d@, fstart, i as int);
            }
            let ghost pre = views_of(out@);
            out.push(field);
            field = Vec::new();
            proof {
                assert(views_of(out@) =~= pre.push(s@.subrange(fstart, i as int)));
                assert(delim_fields_from(s@, d@, fstart) == seq![s@.subrange(fstart, i as int)]
                    + delim_fields_from(s@, d@, i + d@.len() as int));
                assert(views_of(out@) + delim_fields_from(s@, d@, i + d@.len() as int) =~= pre
                    + delim_fields_from(s@, d@, fstart));
            }
            i = i + d.len();
            proof {
                fstart = i as int;
                lemma_first_match(s@, d@, fstart);
                assert(field@ =~= s@.subrange(fstart, i as int));
            }
        } else {
            field.push(s[i]);
            proof {
                lemma_first_match_not_here(s@, d@, fstart, i as int);
                assert(s@.subrange(fstart, i + 1) =~= s@.subrange(fstart, i as int).push(
                    s@[i as int],
                ));
            }
            i = i + 1;
        }
    }
    proof {
        lemma_first_match(s@, d@, fstart);
        assert(first_match(s@, d@, fstart) == s@.len());
        assert(delim_fields_from(s@, d@, fstart) == seq![s@.subrange(fstart, s@.len() as int)]);
        assert(field@ =~= s@.subrange(fstart, s@.len() as int));
    }
    let ghost pre = views_of(out@);
    out.push(field);
    proof {
        assert(views_of(out@) =~= pre.push(s@.subrange(fstart, s@.len() as int)));
        assert(views_of(out@) =~= delim_fields(s@, d@));
    }
    out
}

/// Where the first match is at or after `at` and the delimiter occurs at
/// `at`, the first match is `at`.
proof fn lemma_first_match_found(s: Seq<char>, d: Seq<char>, from: int, at: int)
    requires
        d.len() > 0,
        0 <= from <= at,
        at + d.len() <= s.len(),
        first_match(s, d, from) >= at,
        s.subrange(at, at + d.len() as int) == d,
    ensures
        first_match(s, d, from) == at,
    decreases at - from,
{
    if from < at {
        if from + d.len() <= s.len() && s.subrange(from, from + d.len() as int) == d {
        } else {
            lemma_first_match_found(s, d, from + 1, at);
        }
    }
}

/// Where no match starts at `at`, the first match lies beyond `at`.
proof fn lemma_first_match_not_here(s: Seq<char>, d: Seq<char>, from: int, at: int)
    requires
        d.len() > 0,
        0 <= from <= at < s.len(),
        first_match(s, d, from) >= at,
        !(at + d.len() <= s.len() && s.subrange(at, at + d.len() as int) == d),
    ensures
        first_match(s, d, from) >= at + 1,
    decreases at - from,
{
    if from < at {
        if from + d.len() <= s.len() && s.subrange(from, from + d.len() as int) == d {
            assert(first_match(s, d, from) == from);
            assert(false);
        } else {
            lemma_first_match_not_here(s, d, from + 1, at);
        }
    } else {
        if from + d.len() <= s.len() && s.subrange(from, from + d.len() as int) == d {
            assert(false);
        } else {
            if from + d.len() <= s.len() {
                lemma_first_match(s, d, from + 1);
            }
        }
    }
}

/// Relies on char::from_u32: the character with this code point; defined
/// for every valid Unicode scalar value.
#[verifier::external_body]
pub fn char_from_code(v: u32) -> (r: char)
    requires
        v < 0xD800 || (0xE000 <= v <= 0x10FFFF),
    ensures
        r == v as char,
{
    char::from_u32(v).unwrap_or(' ')
}

/// What str::to_lowercase returns; a function of the characters alone.
pub uninterp spec fn lower_of(s: Seq<char>) -> Seq<char>;

/// What str::to_uppercase returns; a function of the characters alone.
pub uninterp spec fn upper_of(s: Seq<char>) -> Seq<char>;

/// Relies on str::to_lowercase: the Unicode lowercase form of the text,
/// determined by its characters alone.
#[verifier::external_body]
pub fn lowercase(s: &str) -> (r: String)
    ensures
        r@ == lower_of(s@),
        s@.len() == 0 ==> r@.len() == 0,
{
    s.to_lowercase()
}

/// Relies on str::to_uppercase: the Unicode uppercase form of the text,
/// determined by its characters alone.
#[verifier::external_body]
pub fn uppercase(s: &str) -> (r: String)
    ensures
        r@ == upper_of(s@),
        s@.len() == 0 ==> r@.len() == 0,
{
    s.to_uppercase()
}

} // verus!
