//! Three-way merge of concrete syntax trees, guided by the matchings
//! between the base and each parent and between the two parents.
pub mod laws;
pub mod merge_error;
pub mod merged_cst_node;
pub mod ordered;
pub mod spec;
pub mod terminals;
pub mod unordered;

use crate::matching::matchings::Matchings;
use crate::merge::merge_error::{MergeError, MergeErrorView};
use crate::merge::merged_cst_node::{trees, lemma_trees_push, MergedCSTNode, MergedTree};
use crate::merge::spec::{conflict_both, conflict_left, conflict_right, merge_terminal_trees, spec_merge};
use crate::merge::merged_cst_node::tree_of;
use crate::merge::terminals::merge_texts;
use crate::model::{CSTNode, Terminal};
use vstd::prelude::*;

verus! {

/// The value of what a merge gives back.
pub open spec fn outcome(r: Option<Result<MergedCSTNode, MergeError>>) -> Option<
    Result<MergedTree, MergeErrorView>,
> {
    match r {
        None => None,
        Some(Ok(t)) => Some(Ok(t@)),
        Some(Err(e)) => Some(Err(e@)),
    }
}

pub open spec fn result_view(r: Result<MergedCSTNode, MergeError>) -> Result<
    MergedTree,
    MergeErrorView,
> {
    match r {
        Ok(t) => Ok(t@),
        Err(e) => Err(e@),
    }
}

/// Merging three leaves (see `merge_terminal_trees`).
fn merge_terminal_nodes(base: &Terminal, left: &Terminal, right: &Terminal) -> (res: MergedCSTNode)
    ensures
        res@ == merge_terminal_trees(*base, *left, *right),
{
    if left.value == base.value && right.value == base.value {
        MergedCSTNode::from_terminal(base)
    } else if left.value != base.value && right.value != base.value {
        let value = merge_texts(base.value.as_str(), left.value.as_str(), right.value.as_str());
        MergedCSTNode::Terminal { kind: base.kind.clone(), value }
    } else if left.value != base.value {
        MergedCSTNode::from_terminal(left)
    } else {
        MergedCSTNode::from_terminal(right)
    }
}

/// Appends a merged node to a list of merged nodes.
pub(crate) fn push_tree(v: &mut Vec<MergedCSTNode>, t: MergedCSTNode)
    ensures
        trees(final(v)@) == trees(old(v)@).push(t@),
{
    proof {
        lemma_trees_push(v@, t);
    }
    v.push(t);
}

/// A conflict that holds only the left node.
pub(crate) fn left_conflict(node: &CSTNode) -> (res: MergedCSTNode)
    ensures
        res@ == conflict_left(tree_of(*node)),
{
    MergedCSTNode::Conflict { left: Some(Box::new(MergedCSTNode::from(node))), right: None }
}

/// A conflict that holds only the right node.
pub(crate) fn right_conflict(node: &CSTNode) -> (res: MergedCSTNode)
    ensures
        res@ == conflict_right(tree_of(*node)),
{
    MergedCSTNode::Conflict { left: None, right: Some(Box::new(MergedCSTNode::from(node))) }
}

/// A conflict between a left and a right node.
pub(crate) fn both_conflict(left: &CSTNode, right: &CSTNode) -> (res: MergedCSTNode)
    ensures
        res@ == conflict_both(tree_of(*left), tree_of(*right)),
{
    MergedCSTNode::Conflict {
        left: Some(Box::new(MergedCSTNode::from(left))),
        right: Some(Box::new(MergedCSTNode::from(right))),
    }
}

/// Merges three trees; `None` where merging cannot go on (see
/// `spec_merge`).
pub fn try_merge(
    base: &CSTNode,
    left: &CSTNode,
    right: &CSTNode,
    base_left_matchings: &Matchings,
    base_right_matchings: &Matchings,
    left_right_matchings: &Matchings,
) -> (res: Option<Result<MergedCSTNode, MergeError>>)
    ensures
        outcome(res) == spec_merge(
            *base,
            *left,
            *right,
            base_left_matchings@,
            base_right_matchings@,
            left_right_matchings@,
        ),
    decreases *left, 3nat, 0int,
{
    match (base, left, right) {
        (CSTNode::Terminal(b), CSTNode::Terminal(l), CSTNode::Terminal(r)) => {
            Some(Ok(merge_terminal_nodes(b, l, r)))
        },
        (CSTNode::NonTerminal(_), CSTNode::NonTerminal(l), CSTNode::NonTerminal(r)) => {
            if l.are_children_unordered && r.are_children_unordered {
                unordered::try_unordered_merge(
                    l,
                    r,
                    base_left_matchings,
                    base_right_matchings,
                    left_right_matchings,
                )
            } else {
                ordered::try_ordered_merge(
                    base,
                    left,
                    right,
                    base_left_matchings,
                    base_right_matchings,
                    left_right_matchings,
                )
            }
        },
        (_, _, _) => Some(Err(MergeError::MergingTerminalWithNonTerminal)),
    }
}

/// Merges three trees: the base and its two descendants, with the
/// matchings between base and left, base and right, and left and right.
pub fn merge(
    base: &CSTNode,
    left: &CSTNode,
    right: &CSTNode,
    base_left_matchings: &Matchings,
    base_right_matchings: &Matchings,
    left_right_matchings: &Matchings,
) -> (res: Result<MergedCSTNode, MergeError>)
    requires
        spec_merge(
            *base,
            *left,
            *right,
            base_left_matchings@,
            base_right_matchings@,
            left_right_matchings@,
        ) is Some,
    ensures
        Some(result_view(res)) == spec_merge(
            *base,
            *left,
            *right,
            base_left_matchings@,
            base_right_matchings@,
            left_right_matchings@,
        ),
{
    match try_merge(
        base,
        left,
        right,
        base_left_matchings,
        base_right_matchings,
        left_right_matchings,
    ) {
        Some(r) => r,
        None => Err(MergeError::MergingTerminalWithNonTerminal),
    }
}

} // verus!
