//! Abstract syntax: programmes, operators, selections and slices.

use vstd::prelude::*;

verus! {

/// A programme is a sequence of operators.
#[derive(Debug, Clone, PartialEq)]
pub struct Programme {
    pub operators: Vec<Operator>,
}

/// An operator in the language.
#[derive(Debug, Clone, PartialEq)]
pub enum Operator {
    /// `s` - split each element by its semantic level
    Split,
    /// `S<delim>` - split on a custom delimiter
    SplitDelim(String),
    /// `j` - join/flatten by semantic level
    Join,
    /// `J<delim>` - join with a custom delimiter
    JoinDelim(String),
    /// `@` - descend into nested structures
    Descend,
    /// `^` - ascend back up
    Ascend,
    /// `u` - uppercase
    Uppercase,
    /// `U<selection>` - uppercase selected elements
    UppercaseSelected(Selection),
    /// `l` - lowercase
    Lowercase,
    /// `L<selection>` - lowercase selected elements
    LowercaseSelected(Selection),
    /// `r[<selection>]/<old>/<new>/` - regex replace, optionally in selected elements
    Replace { selection: Option<Selection>, pattern: String, replacement: String },
    /// `n` - convert to number
    ToNumber,
    /// `N<selection>` - convert selected elements to numbers
    ToNumberSelected(Selection),
    /// `t` - trim whitespace
    Trim,
    /// `T<selection>` - trim selected elements
    TrimSelected(Selection),
    /// `x` - delete empty elements
    DeleteEmpty,
    /// `f` - flatten nested arrays by one level
    Flatten,
    /// `d` - dedupe with counts
    DedupeWithCounts,
    /// `D<selection>` - dedupe by selection with counts
    DedupeSelectionWithCounts(Selection),
    /// `+` - sum numeric values
    Sum,
    /// `#` - count elements
    Count,
    /// `c` - columnate
    Columnate,
    /// `p<selection>` - partition an array at indices
    Partition(Selection),
    /// `o` - sort descending
    SortDescending,
    /// `O` - sort ascending
    SortAscending,
    /// Selection - select elements by index, slice, or multi-select
    Selection(Selection),
    /// `/<regex>/` keeps matching elements; `!/<regex>/` keeps non-matching
    Filter { pattern: String, negate: bool },
    /// `m/<regex>/` - extract all regex matches from each element
    Match { pattern: String },
    /// `g<selection>` - group by the value(s) at the selection
    GroupBy(Selection),
    /// `;` - no-op separator
    NoOp,
}

/// A selection: a comma-separated list of select items.  It is a reduce
/// operator that collapses an array to a subset.
#[derive(Debug, Clone, PartialEq)]
pub struct Selection {
    pub items: Vec<SelectItem>,
}

/// A single item in a selection: either an index or a slice.
#[derive(Debug, Clone, Copy, PartialEq)]
pub enum SelectItem {
    /// A single index (0-based, negative counts from the end)
    Index(i64),
    /// A slice with optional start, end, and step
    Slice(Slice),
}

/// A slice selects a range of elements; all three fields are optional.
#[derive(Debug, Clone, Copy, PartialEq, Default)]
pub struct Slice {
    pub start: Option<i64>,
    pub end: Option<i64>,
    pub step: Option<i64>,
}

impl Slice {
    /// A slice with nothing set, selecting the whole sequence.
    pub fn empty() -> (r: Slice)
        ensures
            r.start is None && r.end is None && r.step is None,
    {
        Slice { start: None, end: None, step: None }
    }
}

} // verus!
