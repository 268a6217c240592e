//! The operator reference shown by the command line's help.

use vstd::prelude::*;

use crate::textutil::push_char;

verus! {

/// One line of the operator reference: a heading, a row of two operator
/// descriptions, or a single one.
pub enum HelpLine {
    Heading(&'static str),
    Row(&'static str, &'static str, &'static str, &'static str),
    Single(&'static str, &'static str),
}

/// The operator reference table.
pub fn operator_help() -> (r: Vec<HelpLine>)
    ensures
        r@.len() == 17,
{
    let mut t: Vec<HelpLine> = Vec::new();
    t.push(HelpLine::Heading("Operators:"));
    t.push(HelpLine::Row("s", "split on whitespace", "S<d>", "split on delimiter"));
    t.push(HelpLine::Row("j", "join with level sep", "J<d>", "join with delimiter"));
    t.push(HelpLine::Row("l", "lowercase", "L<sel>", "lowercase selected"));
    t.push(HelpLine::Row("u", "uppercase", "U<sel>", "uppercase selected"));
    t.push(HelpLine::Row("t", "trim whitespace", "T<sel>", "trim selected"));
    t.push(HelpLine::Row("n", "to number", "N<sel>", "to number selected"));
    t.push(
        HelpLine::Row("r/<p>/<r>/", "replace pattern", "r<sel>/<p>/<r>/", "replace in selected"),
    );
    t.push(HelpLine::Row("/<pat>/", "filter keep", "!/<pat>/", "filter remove"));
    t.push(HelpLine::Single("m/<pat>/", "matches to array"));
    t.push(HelpLine::Row("d", "dedupe", "D<sel>", "dedupe on selected"));
    t.push(HelpLine::Row("o", "sort descending", "O", "sort ascending"));
    t.push(HelpLine::Row("x", "delete empty", "g<sel>", "group by"));
    t.push(HelpLine::Row("#", "count", "+", "sum"));
    t.push(HelpLine::Row("c", "columnate", "p<sel>", "partition"));
    t.push(HelpLine::Row("@", "descend", "^", "ascend"));
    t.push(HelpLine::Row(";", "separator (no-op)", "<sel>", "select (e.g. 0, 1:3, ::2)"));
    t
}

/// The total number of lines in the help output: the operator table plus a
/// keys heading and its row.
pub fn help_line_count() -> (r: usize)
    ensures
        r == 19,
{
    let t = operator_help();
    t.len() + 2
}

/// The text padded with trailing spaces to a width.
fn pad_right(s: &str, w: usize) -> (r: String)
    ensures
        r@.len() >= s@.len(),
{
    let mut out = String::new();
    out.append(s);
    let cs = crate::textutil::str_chars(s);
    let mut n = cs.len();
    while n < w
        invariant
            out@.len() >= s@.len(),
        decreases w - n,
    {
        push_char(&mut out, ' ');
        n = n + 1;
    }
    out
}

/// The plain-text operator reference.
pub fn help_text() -> (r: String) {
    let table = operator_help();
    let mut out = String::new();
    let mut i: usize = 0;
    while i < table.len()
        decreases table@.len() - i,
    {
        if i > 0 {
            push_char(&mut out, '\n');
        }
        match &table[i] {
            HelpLine::Heading(h) => {
                out.append(h);
            },
            HelpLine::Row(op1, d1, op2, d2) => {
                out.append("  ");
                out.append(pad_right(op1, 16).as_str());
                out.append(pad_right(d1, 21).as_str());
                out.append(pad_right(op2, 16).as_str());
                out.append(d2);
            },
            HelpLine::Single(op, d) => {
                out.append("  ");
                out.append(pad_right(op, 16).as_str());
                out.append(d);
            },
        }
        i = i + 1;
    }
    out
}

} // verus!
