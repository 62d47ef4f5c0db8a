//! Structured three-way merge of source files: each version is parsed into
//! a concrete syntax tree, the trees are matched node by node, and the base
//! and its two descendants are merged along the matchings, with conflicts
//! where the descendants disagree.
pub mod changes_tree;
pub mod cli_exit_codes;
pub mod control;
pub mod matching;
pub mod matching_handlers;
pub mod merge;
pub mod model;
pub mod parsing;
pub mod parsing_handlers;
pub mod unordered_pair;

use vstd::prelude::*;

verus! {

} // verus!
