//! A small composable text-transformation language: a programme is a short
//! string of single-character operators that is parsed, compiled, and executed
//! against a hierarchical text value (lines, words, characters).

use vstd::prelude::*;

mod ast;
mod csvrec;
mod error;
mod help;
mod interpreter;
mod laws;
mod num;
mod operators;
mod order;
mod parser;
mod pattern;
mod render;
mod select;
mod textutil;
mod value;

pub use ast::{Operator, Programme, SelectItem, Selection, Slice};
pub use error::{Error, Position, TResult};
pub use help::{help_line_count, help_text, operator_help, HelpLine};
pub use interpreter::{
    compile, compile_with_config, is_navigation, requires_full_input, run, CompileConfig, Context,
    Op,
};
pub use num::Number;
pub use operators::case::{Lowercase, LowercaseSelected, Uppercase, UppercaseSelected};
pub use operators::columnate::Columnate;
pub use operators::count::Count;
pub use operators::dedupe::{Dedupe, DedupeSelectionWithCounts, DedupeWithCounts};
pub use operators::delete_empty::DeleteEmpty;
pub use operators::filter::Filter;
pub use operators::flatten::Flatten;
pub use operators::group::GroupBy;
pub use operators::join::{Join, JoinDelim, JoinMode};
pub use operators::match_all::MatchAll;
pub use operators::navigate::{Ascend, Descend};
pub use operators::number::{ToNumber, ToNumberSelected};
pub use operators::partition::Partition;
pub use operators::replace::Replace;
pub use operators::select::{apply_to_selected, LeafOp, Select};
pub use operators::sort::{SortAscending, SortDescending};
pub use operators::split::{Split, SplitDelim, SplitMode};
pub use operators::sum::Sum;
pub use operators::trim::{Trim, TrimSelected};
pub use order::value_cmp;
pub use parser::parse_programme;
pub use render::{render_value, value_to_key};
pub use select::{compute_slice_indices, normalize_index, selection_indices};
pub use value::{Array, Level, Val, Value};

verus! {

} // verus!
