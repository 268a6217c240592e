//! The operator library: one module per operator family.

pub mod case;
pub mod columnate;
pub mod count;
pub mod dedupe;
pub mod delete_empty;
pub mod filter;
pub mod flatten;
pub mod group;
pub mod join;
pub mod match_all;
pub mod navigate;
pub mod number;
pub mod partition;
pub mod replace;
pub mod select;
pub mod sort;
pub mod split;
pub mod sum;
pub mod trim;
