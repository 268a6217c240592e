//! The parser: a single-pass, leftmost-operator-wins recursive descent over
//! the programme string.
//!
//! Each operator is recognized by its leading character and consumes only
//! what it needs.  The first point of irrecoverable divergence is reported
//! as a message, the original input, and a caret at the byte offset.

use vstd::prelude::*;

use crate::ast::{Operator, Programme, SelectItem, Selection, Slice};
use crate::num::{digit_run_end, digit_run_end_exec, digits_val, is_digit};
use crate::textutil::{str_chars, string_from_chars};

verus! {

broadcast use vstd::std_specs::vec::group_vec_axioms, vstd::seq::group_seq_axioms;

/// What a parse error says it expected.
#[derive(Debug, Clone, Copy, PartialEq, Eq)]
pub enum PKind {
    Delimiter,
    NonEmptyDelimiter,
    SelectionArg,
    PatternArg,
    ClosingSlash,
    ClosingQuote,
    EscapeSequence,
    HexDigits,
    ValidHex,
    UnicodeDigits,
    ValidUnicode,
    Unexpected,
}

/// The message of one error kind.
pub open spec fn kind_text(k: PKind) -> Seq<char> {
    match k {
        PKind::Delimiter => "parse error: expected <delimiter>"@,
        PKind::NonEmptyDelimiter => "parse error: expected non-empty delimiter"@,
        PKind::SelectionArg => "parse error: expected <selection>"@,
        PKind::PatternArg => "parse error: expected <pattern>"@,
        PKind::ClosingSlash => "parse error: expected closing '/'"@,
        PKind::ClosingQuote => "parse error: expected closing '\"'"@,
        PKind::EscapeSequence => "parse error: expected valid escape sequence (\\n, \\r, \\t, \\0, \\\\, \\\", \\', \\xNN, \\uNNNN)"@,
        PKind::HexDigits => "parse error: expected 2 hex digits"@,
        PKind::ValidHex => "parse error: expected valid hex digits"@,
        PKind::UnicodeDigits => "parse error: expected 4 hex digits"@,
        PKind::ValidUnicode => "parse error: expected valid unicode code point"@,
        PKind::Unexpected => "parse error: unexpected character"@,
    }
}

/// The message of one error kind.
fn kind_message(k: PKind) -> (r: String)
    ensures
        r@ == kind_text(k),
{
    let s: &str = match k {
        PKind::Delimiter => "parse error: expected <delimiter>",
        PKind::NonEmptyDelimiter => "parse error: expected non-empty delimiter",
        PKind::SelectionArg => "parse error: expected <selection>",
        PKind::PatternArg => "parse error: expected <pattern>",
        PKind::ClosingSlash => "parse error: expected closing '/'",
        PKind::ClosingQuote => "parse error: expected closing '\"'",
        PKind::EscapeSequence => "parse error: expected valid escape sequence (\\n, \\r, \\t, \\0, \\\\, \\\", \\', \\xNN, \\uNNNN)",
        PKind::HexDigits => "parse error: expected 2 hex digits",
        PKind::ValidHex => "parse error: expected valid hex digits",
        PKind::UnicodeDigits => "parse error: expected 4 hex digits",
        PKind::ValidUnicode => "parse error: expected valid unicode code point",
        PKind::Unexpected => "parse error: unexpected character",
    };
    let mut out = String::new();
    out.append(s);
    out
}

/// The outcome of one spec-level production: a parsed value and the next
/// position, a soft failure that consumed nothing, or a hard error at an
/// offset.
pub enum PStep<T> {
    Done(T, int),
    Fail,
    Error(PKind, int),
}

/// The view of one syntactic operator: its delimiters and patterns as
/// character sequences, selections as their item lists.
pub enum OperatorView {
    Split,
    SplitDelim(Seq<char>),
    Join,
    JoinDelim(Seq<char>),
    Descend,
    Ascend,
    Uppercase,
    UppercaseSelected(Seq<SelectItem>),
    Lowercase,
    LowercaseSelected(Seq<SelectItem>),
    Replace { selection: Option<Seq<SelectItem>>, pattern: Seq<char>, replacement: Seq<char> },
    ToNumber,
    ToNumberSelected(Seq<SelectItem>),
    Trim,
    TrimSelected(Seq<SelectItem>),
    DeleteEmpty,
    Flatten,
    DedupeWithCounts,
    DedupeSelectionWithCounts(Seq<SelectItem>),
    Sum,
    Count,
    Columnate,
    Partition(Seq<SelectItem>),
    SortDescending,
    SortAscending,
    Selection(Seq<SelectItem>),
    Filter { pattern: Seq<char>, negate: bool },
    Match { pattern: Seq<char> },
    GroupBy(Seq<SelectItem>),
    NoOp,
}

/// The view of a parsed operator.
pub open spec fn op_view(o: Operator) -> OperatorView {
    match o {
        Operator::Split => OperatorView::Split,
        Operator::SplitDelim(d) => OperatorView::SplitDelim(d@),
        Operator::Join => OperatorView::Join,
        Operator::JoinDelim(d) => OperatorView::JoinDelim(d@),
        Operator::Descend => OperatorView::Descend,
        Operator::Ascend => OperatorView::Ascend,
        Operator::Uppercase => OperatorView::Uppercase,
        Operator::UppercaseSelected(sel) => OperatorView::UppercaseSelected(sel.items@),
        Operator::Lowercase => OperatorView::Lowercase,
        Operator::LowercaseSelected(sel) => OperatorView::LowercaseSelected(sel.items@),
        Operator::Replace { selection, pattern, replacement } => OperatorView::Replace {
            selection: match selection {
                Some(sel) => Some(sel.items@),
                None => None,
            },
            pattern: pattern@,
            replacement: replacement@,
        },
        Operator::ToNumber => OperatorView::ToNumber,
        Operator::ToNumberSelected(sel) => OperatorView::ToNumberSelected(sel.items@),
        Operator::Trim => OperatorView::Trim,
        Operator::TrimSelected(sel) => OperatorView::TrimSelected(sel.items@),
        Operator::DeleteEmpty => OperatorView::DeleteEmpty,
        Operator::Flatten => OperatorView::Flatten,
        Operator::DedupeWithCounts => OperatorView::DedupeWithCounts,
        Operator::DedupeSelectionWithCounts(sel) => OperatorView::DedupeSelectionWithCounts(
            sel.items@,
        ),
        Operator::Sum => OperatorView::Sum,
        Operator::Count => OperatorView::Count,
        Operator::Columnate => OperatorView::Columnate,
        Operator::Partition(sel) => OperatorView::Partition(sel.items@),
        Operator::SortDescending => OperatorView::SortDescending,
        Operator::SortAscending => OperatorView::SortAscending,
        Operator::Selection(sel) => OperatorView::Selection(sel.items@),
        Operator::Filter { pattern, negate } => OperatorView::Filter {
            pattern: pattern@,
            negate,
        },
        Operator::Match { pattern } => OperatorView::Match { pattern: pattern@ },
        Operator::GroupBy(sel) => OperatorView::GroupBy(sel.items@),
        Operator::NoOp => OperatorView::NoOp,
    }
}

/// The views of a parsed operator list.
pub open spec fn ops_view(ops: Seq<Operator>) -> Seq<OperatorView> {
    Seq::new(ops.len(), |i: int| op_view(ops[i]))
}

/// An index: an optional minus sign and at least one digit; a value beyond
/// the machine range saturates.
pub open spec fn sp_index(s: Seq<char>, i: int) -> PStep<i64> {
    let neg = i < s.len() && s[i] == '-';
    let j0 = if neg {
        i + 1
    } else {
        i
    };
    let e = digit_run_end(s, j0);
    if e == j0 {
        PStep::Fail
    } else {
        let raw = digits_val(s.subrange(j0, e));
        let v: int = if raw > 0x7fff_ffff_ffff_ffff {
            0x7fff_ffff_ffff_ffff
        } else {
            raw
        };
        PStep::Done(
            if neg {
                (-v) as i64
            } else {
                v as i64
            },
            e,
        )
    }
}

/// One select item: a slice (at least one colon) or a bare index.
pub open spec fn sp_item(s: Seq<char>, i: int) -> PStep<SelectItem> {
    let start = sp_index(s, i);
    let j1 = match start {
        PStep::Done(_, j) => j,
        _ => i,
    };
    let st = match start {
        PStep::Done(v, _) => Some(v),
        _ => None,
    };
    if j1 < s.len() && s[j1] == ':' {
        // a slice
        let after = sp_index(s, j1 + 1);
        let j2 = match after {
            PStep::Done(_, j) => j,
            _ => j1 + 1,
        };
        let en = match after {
            PStep::Done(v, _) => Some(v),
            _ => None,
        };
        if j2 < s.len() && s[j2] == ':' && sp_index(s, j2 + 1) is Done {
            let stp = sp_index(s, j2 + 1);
            PStep::Done(
                SelectItem::Slice(Slice { start: st, end: en, step: Some(stp->Done_0) }),
                stp->Done_1,
            )
        } else {
            PStep::Done(SelectItem::Slice(Slice { start: st, end: en, step: None }), j2)
        }
    } else {
        match start {
            PStep::Done(v, j) => PStep::Done(SelectItem::Index(v), j),
            _ => PStep::Fail,
        }
    }
}

/// The items after the first: a comma and an item, as often as both parse.
pub open spec fn sp_sel_rest(s: Seq<char>, i: int, acc: Seq<SelectItem>) -> (Seq<SelectItem>, int)
    decreases s.len() - i,
{
    if i < s.len() && s[i] == ',' {
        match sp_item(s, i + 1) {
            PStep::Done(it, j) => if i + 1 < j <= s.len() {
                sp_sel_rest(s, j, acc.push(it))
            } else {
                (acc, i)
            },
            _ => (acc, i),
        }
    } else {
        (acc, i)
    }
}

/// A selection: one or more comma-separated items.
pub open spec fn sp_selection(s: Seq<char>, i: int) -> PStep<Seq<SelectItem>> {
    match sp_item(s, i) {
        PStep::Done(it, j) => {
            let (items, k) = sp_sel_rest(s, j, seq![it]);
            PStep::Done(items, k)
        },
        _ => PStep::Fail,
    }
}

/// A hexadecimal digit's value, or 16 where the character is none.
pub open spec fn hex_val(c: char) -> int {
    if '0' <= c && c <= '9' {
        c as int - '0' as int
    } else if 'a' <= c && c <= 'f' {
        c as int - 'a' as int + 10
    } else if 'A' <= c && c <= 'F' {
        c as int - 'A' as int + 10
    } else {
        16
    }
}

/// The value of a fixed-width hex run, or -1 where a character is not hex.
pub open spec fn hex_run_val(s: Seq<char>, i: int, width: int) -> int
    decreases width,
{
    if width <= 0 {
        0
    } else {
        let rest = hex_run_val(s, i, width - 1);
        let d = hex_val(s[i + width - 1]);
        if rest < 0 || d >= 16 {
            -1
        } else {
            rest * 16 + d
        }
    }
}

/// Whether a code point is one `char` can carry.
pub open spec fn valid_scalar(v: int) -> bool {
    (0 <= v < 0xD800) || (0xE000 <= v <= 0x10FFFF)
}

/// The character after a backslash: a named escape, `\xNN`, or `\uNNNN`.
pub open spec fn sp_escape(s: Seq<char>, i: int) -> PStep<char> {
    if i >= s.len() {
        PStep::Error(PKind::EscapeSequence, s.len() as int)
    } else {
        let c = s[i];
        if c == '\\' {
            PStep::Done('\\', i + 1)
        } else if c == '"' {
            PStep::Done('"', i + 1)
        } else if c == '\'' {
            PStep::Done('\'', i + 1)
        } else if c == 'n' {
            PStep::Done('\n', i + 1)
        } else if c == 'r' {
            PStep::Done('\r', i + 1)
        } else if c == 't' {
            PStep::Done('\t', i + 1)
        } else if c == '0' {
            PStep::Done('\u{0}', i + 1)
        } else if c == 'x' {
            if i + 3 > s.len() {
                PStep::Error(PKind::HexDigits, i + 1)
            } else {
                let v = hex_run_val(s, i + 1, 2);
                if v < 0 || !valid_scalar(v) {
                    PStep::Error(PKind::ValidHex, i + 3)
                } else {
                    PStep::Done((v as u32) as char, i + 3)
                }
            }
        } else if c == 'u' {
            if i + 5 > s.len() {
                PStep::Error(PKind::UnicodeDigits, i + 1)
            } else {
                let v = hex_run_val(s, i + 1, 4);
                if v < 0 || !valid_scalar(v) {
                    PStep::Error(PKind::ValidUnicode, i + 5)
                } else {
                    PStep::Done((v as u32) as char, i + 5)
                }
            }
        } else {
            PStep::Error(PKind::EscapeSequence, i)
        }
    }
}

/// The characters of a quoted string after its opening quote: plain
/// characters and escapes up to the closing quote.
pub open spec fn sp_quoted_rest(s: Seq<char>, i: int, acc: Seq<char>) -> PStep<Seq<char>>
    decreases s.len() - i,
{
    if i >= s.len() {
        PStep::Error(PKind::ClosingQuote, s.len() as int)
    } else if s[i] == '"' {
        PStep::Done(acc, i + 1)
    } else if s[i] == '\\' {
        match sp_escape(s, i + 1) {
            PStep::Done(c, j) => if i + 1 < j <= s.len() {
                sp_quoted_rest(s, j, acc.push(c))
            } else {
                PStep::Error(PKind::EscapeSequence, i + 1)
            },
            PStep::Error(k, at) => PStep::Error(k, at),
            PStep::Fail => PStep::Error(PKind::EscapeSequence, i + 1),
        }
    } else {
        sp_quoted_rest(s, i + 1, acc.push(s[i]))
    }
}

/// A delimiter argument: a quoted string with escapes, a backslash escape,
/// or one raw character; `S` rejects an explicitly empty quoted delimiter.
pub open spec fn sp_delim(s: Seq<char>, i: int, nonempty: bool) -> PStep<Seq<char>> {
    if i >= s.len() {
        PStep::Error(PKind::Delimiter, i)
    } else if s[i] == '"' {
        if nonempty && i + 1 < s.len() && s[i + 1] == '"' {
            PStep::Error(PKind::NonEmptyDelimiter, i + 1)
        } else {
            sp_quoted_rest(s, i + 1, Seq::<char>::empty())
        }
    } else if s[i] == '\\' {
        match sp_escape(s, i + 1) {
            PStep::Done(c, j) => PStep::Done(seq![c], j),
            PStep::Error(k, at) => PStep::Error(k, at),
            PStep::Fail => PStep::Error(PKind::EscapeSequence, i + 1),
        }
    } else {
        PStep::Done(seq![s[i]], i + 1)
    }
}

/// The end of the run of non-slash characters starting at `i`.
pub open spec fn non_slash_end(s: Seq<char>, i: int) -> int
    decreases s.len() - i,
{
    if 0 <= i < s.len() && s[i] != '/' {
        non_slash_end(s, i + 1)
    } else {
        i
    }
}

/// A `/<pattern>/` tail: at least one pattern character, then the closing
/// slash.
pub open spec fn sp_pattern_tail(s: Seq<char>, i: int) -> PStep<Seq<char>> {
    let e = non_slash_end(s, i);
    if e == i {
        PStep::Error(PKind::PatternArg, i)
    } else if e >= s.len() {
        PStep::Error(PKind::ClosingSlash, s.len() as int)
    } else {
        PStep::Done(s.subrange(i, e), e + 1)
    }
}

/// One operator, recognized by its leading character.
pub open spec fn sp_operator(s: Seq<char>, i: int) -> PStep<OperatorView> {
    let c = s[i];
    if c == 's' {
        PStep::Done(OperatorView::Split, i + 1)
    } else if c == 'j' {
        PStep::Done(OperatorView::Join, i + 1)
    } else if c == '@' {
        PStep::Done(OperatorView::Descend, i + 1)
    } else if c == '^' {
        PStep::Done(OperatorView::Ascend, i + 1)
    } else if c == 'u' {
        PStep::Done(OperatorView::Uppercase, i + 1)
    } else if c == 'l' {
        PStep::Done(OperatorView::Lowercase, i + 1)
    } else if c == 't' {
        PStep::Done(OperatorView::Trim, i + 1)
    } else if c == 'n' {
        PStep::Done(OperatorView::ToNumber, i + 1)
    } else if c == 'x' {
        PStep::Done(OperatorView::DeleteEmpty, i + 1)
    } else if c == 'f' {
        PStep::Done(OperatorView::Flatten, i + 1)
    } else if c == 'd' {
        PStep::Done(OperatorView::DedupeWithCounts, i + 1)
    } else if c == '+' {
        PStep::Done(OperatorView::Sum, i + 1)
    } else if c == '#' {
        PStep::Done(OperatorView::Count, i + 1)
    } else if c == 'c' {
        PStep::Done(OperatorView::Columnate, i + 1)
    } else if c == 'o' {
        PStep::Done(OperatorView::SortDescending, i + 1)
    } else if c == 'O' {
        PStep::Done(OperatorView::SortAscending, i + 1)
    } else if c == ';' {
        PStep::Done(OperatorView::NoOp, i + 1)
    } else if c == 'S' {
        match sp_delim(s, i + 1, true) {
            PStep::Done(d, j) => PStep::Done(OperatorView::SplitDelim(d), j),
            PStep::Error(k, at) => PStep::Error(k, at),
            PStep::Fail => PStep::Error(PKind::Delimiter, i + 1),
        }
    } else if c == 'J' {
        match sp_delim(s, i + 1, false) {
            PStep::Done(d, j) => PStep::Done(OperatorView::JoinDelim(d), j),
            PStep::Error(k, at) => PStep::Error(k, at),
            PStep::Fail => PStep::Error(PKind::Delimiter, i + 1),
        }
    } else if c == 'L' {
        match sp_selection(s, i + 1) {
            PStep::Done(items, j) => PStep::Done(OperatorView::LowercaseSelected(items), j),
            _ => PStep::Error(PKind::SelectionArg, i + 1),
        }
    } else if c == 'U' {
        match sp_selection(s, i + 1) {
            PStep::Done(items, j) => PStep::Done(OperatorView::UppercaseSelected(items), j),
            _ => PStep::Error(PKind::SelectionArg, i + 1),
        }
    } else if c == 'N' {
        match sp_selection(s, i + 1) {
            PStep::Done(items, j) => PStep::Done(OperatorView::ToNumberSelected(items), j),
            _ => PStep::Error(PKind::SelectionArg, i + 1),
        }
    } else if c == 'T' {
        match sp_selection(s, i + 1) {
            PStep::Done(items, j) => PStep::Done(OperatorView::TrimSelected(items), j),
            _ => PStep::Error(PKind::SelectionArg, i + 1),
        }
    } else if c == 'p' {
        match sp_selection(s, i + 1) {
            PStep::Done(items, j) => PStep::Done(OperatorView::Partition(items), j),
            _ => PStep::Error(PKind::SelectionArg, i + 1),
        }
    } else if c == 'g' {
        match sp_selection(s, i + 1) {
            PStep::Done(items, j) => PStep::Done(OperatorView::GroupBy(items), j),
            _ => PStep::Error(PKind::SelectionArg, i + 1),
        }
    } else if c == 'D' {
        match sp_selection(s, i + 1) {
            PStep::Done(items, j) => PStep::Done(
                OperatorView::DedupeSelectionWithCounts(items),
                j,
            ),
            _ => PStep::Error(PKind::SelectionArg, i + 1),
        }
    } else if c == 'r' {
        let (sel, j1) = match sp_selection(s, i + 1) {
            PStep::Done(items, j) => (Some(items), j),
            _ => (None::<Seq<SelectItem>>, i + 1),
        };
        if !(j1 < s.len() && s[j1] == '/') {
            PStep::Error(PKind::ClosingSlash, j1)
        } else {
            match sp_pattern_tail(s, j1 + 1) {
                PStep::Done(pat, j2) => {
                    // replacement: any characters up to a mandatory slash
                    let e = non_slash_end(s, j2);
                    if e >= s.len() {
                        PStep::Error(PKind::ClosingSlash, s.len() as int)
                    } else {
                        PStep::Done(
                            OperatorView::Replace {
                                selection: sel,
                                pattern: pat,
                                replacement: s.subrange(j2, e),
                            },
                            e + 1,
                        )
                    }
                },
                PStep::Error(k, at) => PStep::Error(k, at),
                PStep::Fail => PStep::Error(PKind::PatternArg, j1 + 1),
            }
        }
    } else if c == '!' {
        if i + 1 < s.len() && s[i + 1] == '/' {
            match sp_pattern_tail(s, i + 2) {
                PStep::Done(pat, j) => PStep::Done(
                    OperatorView::Filter { pattern: pat, negate: true },
                    j,
                ),
                PStep::Error(k, at) => PStep::Error(k, at),
                PStep::Fail => PStep::Error(PKind::PatternArg, i + 2),
            }
        } else {
            PStep::Fail
        }
    } else if c == '/' {
        match sp_pattern_tail(s, i + 1) {
            PStep::Done(pat, j) => PStep::Done(
                OperatorView::Filter { pattern: pat, negate: false },
                j,
            ),
            PStep::Error(k, at) => PStep::Error(k, at),
            PStep::Fail => PStep::Error(PKind::PatternArg, i + 1),
        }
    } else if c == 'm' {
        if i + 1 < s.len() && s[i + 1] == '/' {
            match sp_pattern_tail(s, i + 2) {
                PStep::Done(pat, j) => PStep::Done(OperatorView::Match { pattern: pat }, j),
                PStep::Error(k, at) => PStep::Error(k, at),
                PStep::Fail => PStep::Error(PKind::PatternArg, i + 2),
            }
        } else {
            PStep::Fail
        }
    } else if is_digit(c) || c == '-' || c == ':' {
        match sp_selection(s, i) {
            PStep::Done(items, j) => PStep::Done(OperatorView::Selection(items), j),
            _ => PStep::Fail,
        }
    } else {
        PStep::Fail
    }
}

/// The whole programme from position `i`: operators until the input ends,
/// the first hard error winning; a leftover that no operator starts is an
/// error too.
pub open spec fn sp_ops(s: Seq<char>, i: int) -> Result<Seq<OperatorView>, (PKind, int)>
    decreases s.len() - i via sp_ops_decreases
{
    if i >= s.len() {
        Ok(Seq::<OperatorView>::empty())
    } else {
        match sp_operator(s, i) {
            PStep::Done(op, j) => if i < j <= s.len() {
                match sp_ops(s, j) {
                    Ok(rest) => Ok(seq![op] + rest),
                    Err(e) => Err(e),
                }
            } else {
                Err((PKind::Unexpected, i))
            },
            PStep::Fail => Err((PKind::Unexpected, i)),
            PStep::Error(k, at) => Err((k, at)),
        }
    }
}

#[via_fn]
proof fn sp_ops_decreases(s: Seq<char>, i: int) {
}

/// The full error text: the message, the input, and a caret under the byte
/// offset of the failure.
pub open spec fn parse_error_text(k: PKind, at: int, input: Seq<char>) -> Seq<char> {
    kind_text(k) + "\n  "@ + input + "\n  "@ + spaces(byte_offset(input, at)) + "^"@
}

/// A run of spaces.
pub open spec fn spaces(n: int) -> Seq<char>
    decreases n,
{
    if n <= 0 {
        Seq::<char>::empty()
    } else {
        spaces(n - 1).push(' ')
    }
}

/// How many bytes one character takes in UTF-8.
pub open spec fn utf8_len(c: char) -> int {
    if (c as u32) < 0x80 {
        1
    } else if (c as u32) < 0x800 {
        2
    } else if (c as u32) < 0x10000 {
        3
    } else {
        4
    }
}

/// The byte offset of character position `k`.
pub open spec fn byte_offset(s: Seq<char>, k: int) -> int
    decreases k,
{
    if k <= 0 {
        0
    } else if k > s.len() {
        byte_offset(s, s.len() as int)
    } else {
        byte_offset(s, k - 1) + utf8_len(s[k - 1])
    }
}

/// The step result of the index production.
pub enum IdxStep {
    Done(i64, usize),
    Fail,
}

/// The step result of the select-item production.
pub enum ItemStep {
    Done(SelectItem, usize),
    Fail,
}

/// The step result of the selection production.
pub enum SelStep {
    Done(Selection, usize),
    Fail,
}

/// The step result of the escape production.
pub enum EscStep {
    Done(char, usize),
    Error(PKind, usize),
}

/// The step result of the quoted-string and delimiter productions.
pub enum TextStep {
    Done(Vec<char>, usize),
    Error(PKind, usize),
}

/// The step result of the operator production.
pub enum OpStep {
    Done(Operator, usize),
    Fail,
    Error(PKind, usize),
}

/// The saturated value of a digit run: the digits' value, capped at the
/// machine maximum.
fn scan_index_digits(s: &Vec<char>, from: usize, to: usize) -> (r: i64)
    requires
        from <= to <= s@.len(),
        forall|k: int| from <= k < to ==> is_digit(#[trigger] s@[k]),
    ensures
        r as int == (if digits_val(s@.subrange(from as int, to as int)) > 0x7fff_ffff_ffff_ffff {
            0x7fff_ffff_ffff_ffff
        } else {
            digits_val(s@.subrange(from as int, to as int))
        }),
        r >= 0,
{
    let mut acc: u64 = 0;
    let mut sat = false;
    let mut j = from;
    proof {
        assert(s@.subrange(from as int, from as int) =~= Seq::<char>::empty());
    }
    while j < to
        invariant
            from <= j <= to <= s@.len(),
            forall|k: int| from <= k < to ==> is_digit(#[trigger] s@[k]),
            !sat ==> acc as int == digits_val(s@.subrange(from as int, j as int)) && acc
                <= 0x7fff_ffff_ffff_ffff,
            sat ==> digits_val(s@.subrange(from as int, j as int)) > 0x7fff_ffff_ffff_ffff,
        decreases to - j,
    {
        let ghost pre = s@.subrange(from as int, j as int);
        let ghost cur = s@.subrange(from as int, j + 1);
        proof {
            assert(cur.drop_last() =~= pre);
            assert(cur.last() == s@[j as int]);
            assert forall|k: int| 0 <= k < pre.len() implies is_digit(#[trigger] pre[k]) by {
                assert(pre[k] == s@[from + k]);
            }
            crate::num::lemma_digits_val_bound(pre);
        }
        let d = (s[j] as u32 - 48) as u64;
        if !sat {
            let next: u128 = (acc as u128) * 10 + (d as u128);
            if next > 0x7fff_ffff_ffff_ffffu128 {
                sat = true;
            } else {
                acc = next as u64;
            }
        } else {
            proof {
                let dv = digits_val(pre);
                assert(digits_val(cur) == dv * 10 + (s@[j as int] as u32 - 48));
                assert(dv * 10 >= dv) by (nonlinear_arith)
                    requires
                        dv >= 0,
                ;
            }
        }
        j = j + 1;
    }
    if sat {
        0x7fff_ffff_ffff_ffffi64
    } else {
        acc as i64
    }
}

/// Parse an index: an optional minus sign and at least one digit.
fn p_index(s: &Vec<char>, i: usize) -> (r: IdxStep)
    requires
        i <= s@.len(),
    ensures
        match r {
            IdxStep::Done(v, j) => sp_index(s@, i as int) == PStep::Done(v, j as int) && i < j
                <= s@.len(),
            IdxStep::Fail => sp_index(s@, i as int) is Fail,
        },
{
    let neg = i < s.len() && s[i] == '-';
    let j0 = if neg {
        i + 1
    } else {
        i
    };
    let e = digit_run_end_exec(s, j0);
    proof {
        crate::num::lemma_digit_run_end(s@, j0 as int);
    }
    if e == j0 {
        IdxStep::Fail
    } else {
        let raw = scan_index_digits(s, j0, e);
        let v = if neg {
            -raw
        } else {
            raw
        };
        IdxStep::Done(v, e)
    }
}

/// Parse one select item: a slice or a bare index.
fn p_item(s: &Vec<char>, i: usize) -> (r: ItemStep)
    requires
        i <= s@.len(),
    ensures
        match r {
            ItemStep::Done(it, j) => sp_item(s@, i as int) == PStep::Done(it, j as int) && i < j
                <= s@.len(),
            ItemStep::Fail => sp_item(s@, i as int) is Fail,
        },
{
    let start = p_index(s, i);
    let (st, j1): (Option<i64>, usize) = match start {
        IdxStep::Done(v, j) => (Some(v), j),
        IdxStep::Fail => (None, i),
    };
    if j1 < s.len() && s[j1] == ':' {
        let after = p_index(s, j1 + 1);
        let (en, j2): (Option<i64>, usize) = match after {
            IdxStep::Done(v, j) => (Some(v), j),
            IdxStep::Fail => (None, j1 + 1),
        };
        if j2 < s.len() && s[j2] == ':' {
            match p_index(s, j2 + 1) {
                IdxStep::Done(stp, j3) => ItemStep::Done(
                    SelectItem::Slice(Slice { start: st, end: en, step: Some(stp) }),
                    j3,
                ),
                IdxStep::Fail => ItemStep::Done(
                    SelectItem::Slice(Slice { start: st, end: en, step: None }),
                    j2,
                ),
            }
        } else {
            ItemStep::Done(SelectItem::Slice(Slice { start: st, end: en, step: None }), j2)
        }
    } else {
        match start {
            IdxStep::Done(v, j) => ItemStep::Done(SelectItem::Index(v), j),
            IdxStep::Fail => ItemStep::Fail,
        }
    }
}

/// Parse a selection: one or more comma-separated items.
fn p_selection(s: &Vec<char>, i: usize) -> (r: SelStep)
    requires
        i <= s@.len(),
    ensures
        match r {
            SelStep::Done(sel, j) => sp_selection(s@, i as int) == PStep::Done(
                sel.items@,
                j as int,
            ) && i < j <= s@.len(),
            SelStep::Fail => sp_selection(s@, i as int) is Fail,
        },
{
    let (it0, j0) = match p_item(s, i) {
        ItemStep::Done(it, j) => (it, j),
        ItemStep::Fail => {
            return SelStep::Fail;
        },
    };
    let mut items: Vec<SelectItem> = Vec::new();
    items.push(it0);
    let mut j = j0;
    proof {
        assert(items@ =~= seq![it0]);
    }
    loop
        invariant
            i < j <= s@.len(),
            items@.len() >= 1,
            sp_sel_rest(s@, j as int, items@) == sp_sel_rest(s@, j0 as int, seq![it0]),
            sp_item(s@, i as int) == PStep::Done(it0, j0 as int),
        decreases s@.len() - j,
    {
        if !(j < s.len() && s[j] == ',') {
            proof {
                assert(sp_sel_rest(s@, j as int, items@) == (items@, j as int));
            }
            return SelStep::Done(Selection { items }, j);
        }
        match p_item(s, j + 1) {
            ItemStep::Done(it, j2) => {
                items.push(it);
                j = j2;
            },
            ItemStep::Fail => {
                proof {
                    assert(sp_sel_rest(s@, j as int, items@) == (items@, j as int));
                }
                return SelStep::Done(Selection { items }, j);
            },
        }
    }
}

/// The value of one hex digit, or 16 for a character that is none.
fn hex_digit(c: char) -> (r: u32)
    ensures
        r as int == hex_val(c),
{
    let u = c as u32;
    if 48 <= u && u <= 57 {
        u - 48
    } else if 97 <= u && u <= 102 {
        u - 97 + 10
    } else if 65 <= u && u <= 70 {
        u - 65 + 10
    } else {
        16
    }
}

/// The value of a fixed-width hex run, or a negative answer on a non-hex
/// character.
fn hex_run(s: &Vec<char>, i: usize, width: usize) -> (r: i64)
    requires
        width <= 4,
        i + width <= s@.len(),
    ensures
        r as int == hex_run_val(s@, i as int, width as int),
{
    let n = s.len();
    let mut r: i64 = 0;
    let mut w: usize = 0;
    while w < width
        invariant
            n == s@.len(),
            w <= width <= 4,
            i + width <= s@.len(),
            r as int == hex_run_val(s@, i as int, w as int),
            -1 <= r < 0x1_0000,
            r >= 0 ==> r < (if w == 0 {
                1int
            } else if w == 1 {
                16
            } else if w == 2 {
                256
            } else if w == 3 {
                4096
            } else {
                65536
            }),
        decreases width - w,
    {
        let d = hex_digit(s[i + w]);
        if r < 0 || d >= 16 {
            r = -1;
        } else {
            r = r * 16 + d as i64;
        }
        w = w + 1;
    }
    r
}

/// Parse the character after a backslash.
fn p_escape(s: &Vec<char>, i: usize) -> (r: EscStep)
    requires
        i <= s@.len(),
    ensures
        match r {
            EscStep::Done(c, j) => sp_escape(s@, i as int) == PStep::Done(c, j as int) && i < j
                <= s@.len(),
            EscStep::Error(k, at) => sp_escape(s@, i as int) == PStep::<char>::Error(
                k,
                at as int,
            ) && at <= s@.len(),
        },
{
    if i >= s.len() {
        return EscStep::Error(PKind::EscapeSequence, s.len());
    }
    let c = s[i];
    if c == '\\' {
        EscStep::Done('\\', i + 1)
    } else if c == '"' {
        EscStep::Done('"', i + 1)
    } else if c == '\'' {
        EscStep::Done('\'', i + 1)
    } else if c == 'n' {
        EscStep::Done('\n', i + 1)
    } else if c == 'r' {
        EscStep::Done('\r', i + 1)
    } else if c == 't' {
        EscStep::Done('\t', i + 1)
    } else if c == '0' {
        EscStep::Done('\u{0}', i + 1)
    } else if c == 'x' {
        if s.len() - i < 3 {
            EscStep::Error(PKind::HexDigits, i + 1)
        } else {
            let v = hex_run(s, i + 1, 2);
            if v < 0 || !(v < 0xD800 || (0xE000 <= v && v <= 0x10FFFF)) {
                EscStep::Error(PKind::ValidHex, i + 3)
            } else {
                EscStep::Done(crate::textutil::char_from_code(v as u32), i + 3)
            }
        }
    } else if c == 'u' {
        if s.len() - i < 5 {
            EscStep::Error(PKind::UnicodeDigits, i + 1)
        } else {
            let v = hex_run(s, i + 1, 4);
            if v < 0 || !(v < 0xD800 || (0xE000 <= v && v <= 0x10FFFF)) {
                EscStep::Error(PKind::ValidUnicode, i + 5)
            } else {
                EscStep::Done(crate::textutil::char_from_code(v as u32), i + 5)
            }
        }
    } else {
        EscStep::Error(PKind::EscapeSequence, i)
    }
}

/// Parse the rest of a quoted string, after its opening quote.
fn p_quoted_rest(s: &Vec<char>, i: usize) -> (r: TextStep)
    requires
        i <= s@.len(),
    ensures
        match r {
            TextStep::Done(cs, j) => sp_quoted_rest(s@, i as int, Seq::<char>::empty())
                == PStep::Done(cs@, j as int) && i < j <= s@.len(),
            TextStep::Error(k, at) => sp_quoted_rest(s@, i as int, Seq::<char>::empty())
                == PStep::<Seq<char>>::Error(k, at as int) && at <= s@.len(),
        },
{
    let mut acc: Vec<char> = Vec::new();
    let mut j = i;
    proof {
        assert(acc@ =~= Seq::<char>::empty());
    }
    loop
        invariant
            i <= j <= s@.len(),
            sp_quoted_rest(s@, j as int, acc@) == sp_quoted_rest(
                s@,
                i as int,
                Seq::<char>::empty(),
            ),
        decreases s@.len() - j,
    {
        if j >= s.len() {
            return TextStep::Error(PKind::ClosingQuote, s.len());
        }
        let c = s[j];
        if c == '"' {
            return TextStep::Done(acc, j + 1);
        }
        if c == '\\' {
            match p_escape(s, j + 1) {
                EscStep::Done(e, j2) => {
                    acc.push(e);
                    j = j2;
                },
                EscStep::Error(k, at) => {
                    return TextStep::Error(k, at);
                },
            }
        } else {
            acc.push(c);
            j = j + 1;
        }
    }
}

/// Parse a delimiter argument.
fn p_delim(s: &Vec<char>, i: usize, nonempty: bool) -> (r: TextStep)
    requires
        i <= s@.len(),
    ensures
        match r {
            TextStep::Done(cs, j) => sp_delim(s@, i as int, nonempty) == PStep::Done(
                cs@,
                j as int,
            ) && i < j <= s@.len(),
            TextStep::Error(k, at) => sp_delim(s@, i as int, nonempty) == PStep::<
                Seq<char>,
            >::Error(k, at as int) && at <= s@.len(),
        },
{
    if i >= s.len() {
        return TextStep::Error(PKind::Delimiter, i);
    }
    let c = s[i];
    if c == '"' {
        if nonempty && i + 1 < s.len() && s[i + 1] == '"' {
            TextStep::Error(PKind::NonEmptyDelimiter, i + 1)
        } else {
            p_quoted_rest(s, i + 1)
        }
    } else if c == '\\' {
        match p_escape(s, i + 1) {
            EscStep::Done(e, j) => {
                let mut one: Vec<char> = Vec::new();
                one.push(e);
                proof {
                    assert(one@ =~= seq![e]);
                }
                TextStep::Done(one, j)
            },
            EscStep::Error(k, at) => TextStep::Error(k, at),
        }
    } else {
        let mut one: Vec<char> = Vec::new();
        one.push(c);
        proof {
            assert(one@ =~= seq![s@[i as int]]);
        }
        TextStep::Done(one, i + 1)
    }
}

/// The end of the run of non-slash characters starting at `from`.
fn non_slash_end_exec(s: &Vec<char>, from: usize) -> (r: usize)
    requires
        from <= s@.len(),
    ensures
        r as int == non_slash_end(s@, from as int),
        from <= r <= s@.len(),
{
    let mut j = from;
    while j < s.len()
        invariant
            from <= j <= s@.len(),
            non_slash_end(s@, from as int) == non_slash_end(s@, j as int),
        decreases s@.len() - j,
    {
        if s[j] == '/' {
            return j;
        }
        j = j + 1;
    }
    j
}

/// The characters in `[from, to)`.
fn copy_span(s: &Vec<char>, from: usize, to: usize) -> (r: Vec<char>)
    requires
        from <= to <= s@.len(),
    ensures
        r@ == s@.subrange(from as int, to as int),
{
    let mut out: Vec<char> = Vec::new();
    let mut j = from;
    while j < to
        invariant
            from <= j <= to <= s@.len(),
            out@ == s@.subrange(from as int, j as int),
        decreases to - j,
    {
        out.push(s[j]);
        proof {
            assert(s@.subrange(from as int, j + 1) =~= s@.subrange(from as int, j as int).push(
                s@[j as int],
            ));
        }
        j = j + 1;
    }
    out
}

/// Parse a `<pattern>/` tail.
fn p_pattern_tail(s: &Vec<char>, i: usize) -> (r: TextStep)
    requires
        i <= s@.len(),
    ensures
        match r {
            TextStep::Done(cs, j) => sp_pattern_tail(s@, i as int) == PStep::Done(
                cs@,
                j as int,
            ) && i < j <= s@.len(),
            TextStep::Error(k, at) => sp_pattern_tail(s@, i as int) == PStep::<
                Seq<char>,
            >::Error(k, at as int) && at <= s@.len(),
        },
{
    let e = non_slash_end_exec(s, i);
    if e == i {
        TextStep::Error(PKind::PatternArg, i)
    } else if e >= s.len() {
        TextStep::Error(PKind::ClosingSlash, s.len())
    } else {
        let pat = copy_span(s, i, e);
        TextStep::Done(pat, e + 1)
    }
}

/// Parse one operator, recognized by its leading character.
#[verifier::rlimit(100)]
#[verifier::spinoff_prover]
fn p_operator(s: &Vec<char>, i: usize) -> (r: OpStep)
    requires
        i < s@.len(),
    ensures
        match r {
            OpStep::Done(op, j) => sp_operator(s@, i as int) == PStep::Done(
                op_view(op),
                j as int,
            ) && i < j <= s@.len(),
            OpStep::Fail => sp_operator(s@, i as int) is Fail,
            OpStep::Error(k, at) => sp_operator(s@, i as int) == PStep::<OperatorView>::Error(
                k,
                at as int,
            ) && at <= s@.len(),
        },
{
    let n = s.len();
    let c = s[i];
    if c == 's' {
        OpStep::Done(Operator::Split, i + 1)
    } else if c == 'j' {
        OpStep::Done(Operator::Join, i + 1)
    } else if c == '@' {
        OpStep::Done(Operator::Descend, i + 1)
    } else if c == '^' {
        OpStep::Done(Operator::Ascend, i + 1)
    } else if c == 'u' {
        OpStep::Done(Operator::Uppercase, i + 1)
    } else if c == 'l' {
        OpStep::Done(Operator::Lowercase, i + 1)
    } else if c == 't' {
        OpStep::Done(Operator::Trim, i + 1)
    } else if c == 'n' {
        OpStep::Done(Operator::ToNumber, i + 1)
    } else if c == 'x' {
        OpStep::Done(Operator::DeleteEmpty, i + 1)
    } else if c == 'f' {
        OpStep::Done(Operator::Flatten, i + 1)
    } else if c == 'd' {
        OpStep::Done(Operator::DedupeWithCounts, i + 1)
    } else if c == '+' {
        OpStep::Done(Operator::Sum, i + 1)
    } else if c == '#' {
        OpStep::Done(Operator::Count, i + 1)
    } else if c == 'c' {
        OpStep::Done(Operator::Columnate, i + 1)
    } else if c == 'o' {
        OpStep::Done(Operator::SortDescending, i + 1)
    } else if c == 'O' {
        OpStep::Done(Operator::SortAscending, i + 1)
    } else if c == ';' {
        OpStep::Done(Operator::NoOp, i + 1)
    } else if c == 'S' {
        match p_delim(s, i + 1, true) {
            TextStep::Done(d, j) => OpStep::Done(
                Operator::SplitDelim(string_from_chars(&d)),
                j,
            ),
            TextStep::Error(k, at) => OpStep::Error(k, at),
        }
    } else if c == 'J' {
        match p_delim(s, i + 1, false) {
            TextStep::Done(d, j) => OpStep::Done(Operator::JoinDelim(string_from_chars(&d)), j),
            TextStep::Error(k, at) => OpStep::Error(k, at),
        }
    } else if c == 'L' {
        match p_selection(s, i + 1) {
            SelStep::Done(sel, j) => OpStep::Done(Operator::LowercaseSelected(sel), j),
            SelStep::Fail => OpStep::Error(PKind::SelectionArg, i + 1),
        }
    } else if c == 'U' {
        match p_selection(s, i + 1) {
            SelStep::Done(sel, j) => OpStep::Done(Operator::UppercaseSelected(sel), j),
            SelStep::Fail => OpStep::Error(PKind::SelectionArg, i + 1),
        }
    } else if c == 'N' {
        match p_selection(s, i + 1) {
            SelStep::Done(sel, j) => OpStep::Done(Operator::ToNumberSelected(sel), j),
            SelStep::Fail => OpStep::Error(PKind::SelectionArg, i + 1),
        }
    } else if c == 'T' {
        match p_selection(s, i + 1) {
            SelStep::Done(sel, j) => OpStep::Done(Operator::TrimSelected(sel), j),
            SelStep::Fail => OpStep::Error(PKind::SelectionArg, i + 1),
        }
    } else if c == 'p' {
        match p_selection(s, i + 1) {
            SelStep::Done(sel, j) => OpStep::Done(Operator::Partition(sel), j),
            SelStep::Fail => OpStep::Error(PKind::SelectionArg, i + 1),
        }
    } else if c == 'g' {
        match p_selection(s, i + 1) {
            SelStep::Done(sel, j) => OpStep::Done(Operator::GroupBy(sel), j),
            SelStep::Fail => OpStep::Error(PKind::SelectionArg, i + 1),
        }
    } else if c == 'D' {
        match p_selection(s, i + 1) {
            SelStep::Done(sel, j) => OpStep::Done(Operator::DedupeSelectionWithCounts(sel), j),
            SelStep::Fail => OpStep::Error(PKind::SelectionArg, i + 1),
        }
    } else if c == 'r' {
        let (sel, j1): (Option<Selection>, usize) = match p_selection(s, i + 1) {
            SelStep::Done(sl, j) => (Some(sl), j),
            SelStep::Fail => (None, i + 1),
        };
        if !(j1 < s.len() && s[j1] == '/') {
            return OpStep::Error(PKind::ClosingSlash, j1);
        }
        match p_pattern_tail(s, j1 + 1) {
            TextStep::Done(pat, j2) => {
                let e = non_slash_end_exec(s, j2);
                if e >= s.len() {
                    OpStep::Error(PKind::ClosingSlash, s.len())
                } else {
                    let repl = copy_span(s, j2, e);
                    OpStep::Done(
                        Operator::Replace {
                            selection: sel,
                            pattern: string_from_chars(&pat),
                            replacement: string_from_chars(&repl),
                        },
                        e + 1,
                    )
                }
            },
            TextStep::Error(k, at) => OpStep::Error(k, at),
        }
    } else if c == '!' {
        if i + 1 < s.len() && s[i + 1] == '/' {
            match p_pattern_tail(s, i + 2) {
                TextStep::Done(pat, j) => OpStep::Done(
                    Operator::Filter { pattern: string_from_chars(&pat), negate: true },
                    j,
                ),
                TextStep::Error(k, at) => OpStep::Error(k, at),
            }
        } else {
            OpStep::Fail
        }
    } else if c == '/' {
        match p_pattern_tail(s, i + 1) {
            TextStep::Done(pat, j) => OpStep::Done(
                Operator::Filter { pattern: string_from_chars(&pat), negate: false },
                j,
            ),
            TextStep::Error(k, at) => OpStep::Error(k, at),
        }
    } else if c == 'm' {
        if i + 1 < s.len() && s[i + 1] == '/' {
            match p_pattern_tail(s, i + 2) {
                TextStep::Done(pat, j) => OpStep::Done(
                    Operator::Match { pattern: string_from_chars(&pat) },
                    j,
                ),
                TextStep::Error(k, at) => OpStep::Error(k, at),
            }
        } else {
            OpStep::Fail
        }
    } else {
        let u = c as u32;
        if (48 <= u && u <= 57) || c == '-' || c == ':' {
            match p_selection(s, i) {
                SelStep::Done(sel, j) => OpStep::Done(Operator::Selection(sel), j),
                SelStep::Fail => OpStep::Fail,
            }
        } else {
            OpStep::Fail
        }
    }
}

/// A run of spaces.
fn make_spaces(n: usize) -> (r: Vec<char>)
    ensures
        r@ == spaces(n as int),
{
    let mut out: Vec<char> = Vec::new();
    let mut k: usize = 0;
    while k < n
        invariant
            k <= n,
            out@ == spaces(k as int),
        decreases n - k,
    {
        out.push(' ');
        k = k + 1;
    }
    out
}

/// The byte offset of character position `k`.
fn byte_offset_exec(s: &Vec<char>, k: usize) -> (r: usize)
    requires
        k <= s@.len(),
        s@.len() <= 0x1000_0000,
    ensures
        r as int == byte_offset(s@, k as int),
        r <= 4 * s@.len(),
{
    let mut off: usize = 0;
    let mut j: usize = 0;
    while j < k
        invariant
            j <= k <= s@.len(),
            s@.len() <= 0x1000_0000,
            off as int == byte_offset(s@, j as int),
            off <= 4 * j,
        decreases k - j,
    {
        let u = s[j] as u32;
        let w: usize = if u < 0x80 {
            1
        } else if u < 0x800 {
            2
        } else if u < 0x10000 {
            3
        } else {
            4
        };
        proof {
            assert(w as int == utf8_len(s@[j as int]));
            assert(byte_offset(s@, j + 1) == byte_offset(s@, j as int) + utf8_len(s@[j as int]));
        }
        off = off + w;
        j = j + 1;
    }
    off
}

/// Parse a whole programme.
///
/// Parsing the empty string yields an empty programme.  Every prefix of
/// valid syntax is consumed before failing on the remainder; the error
/// carries the message, the original input, and a caret at the byte offset
/// of the failure.
pub fn parse_programme(input: &str) -> (r: Result<Programme, String>)
    requires
        input@.len() <= 0x1000_0000,
    ensures
        match r {
            Ok(p) => sp_ops(input@, 0) == Ok::<Seq<OperatorView>, (PKind, int)>(
                ops_view(p.operators@),
            ),
            Err(msg) => sp_ops(input@, 0) matches Err((k, at)) && msg@ == parse_error_text(
                k,
                at,
                input@,
            ),
        },
{
    let s = str_chars(input);
    let mut ops: Vec<Operator> = Vec::new();
    let mut i: usize = 0;
    proof {
        assert(ops_view(ops@) =~= Seq::<OperatorView>::empty());
    }
    while i < s.len()
        invariant
            i <= s@.len(),
            s@ == input@,
            s@.len() <= 0x1000_0000,
            sp_ops(s@, 0) == (match sp_ops(s@, i as int) {
                Ok(rest) => Ok::<Seq<OperatorView>, (PKind, int)>(ops_view(ops@) + rest),
                Err(e) => Err::<Seq<OperatorView>, (PKind, int)>(e),
            }),
        decreases s@.len() - i,
    {
        match p_operator(&s, i) {
            OpStep::Done(op, j) => {
                let ghost before = ops@;
                ops.push(op);
                proof {
                    assert(ops_view(ops@) =~= ops_view(before).push(op_view(op)));
                    match sp_ops(s@, j as int) {
                        Ok(rest) => {
                            assert(ops_view(before) + (seq![op_view(op)] + rest) =~= ops_view(
                                ops@,
                            ) + rest);
                        },
                        Err(_) => {},
                    }
                }
                i = j;
            },
            OpStep::Fail => {
                return Err(render_parse_error(PKind::Unexpected, i, input, &s));
            },
            OpStep::Error(k, at) => {
                proof {
                    crate::num::lemma_digit_run_end(s@, i as int);
                }
                return Err(render_parse_error(k, at, input, &s));
            },
        }
    }
    proof {
        assert(ops_view(ops@) + Seq::<OperatorView>::empty() =~= ops_view(ops@));
    }
    Ok(Programme { operators: ops })
}

/// The error text: the message, the input, and a caret under the byte
/// offset.
fn render_parse_error(k: PKind, at: usize, input: &str, s: &Vec<char>) -> (r: String)
    requires
        at <= s@.len(),
        s@ == input@,
        s@.len() <= 0x1000_0000,
    ensures
        r@ == parse_error_text(k, at as int, input@),
{
    proof {
        reveal_strlit("\n  ");
        reveal_strlit("^");
    }
    let mut out = kind_message(k);
    out.append("\n  ");
    out.append(input);
    out.append("\n  ");
    let off = byte_offset_exec(s, at);
    let sp = make_spaces(off);
    out.append(string_from_chars(&sp).as_str());
    out.append("^");
    proof {
        assert(out@ =~= parse_error_text(k, at as int, input@));
    }
    out
}

} // verus!
