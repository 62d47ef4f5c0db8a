//! Matching of two trees: which nodes of one correspond to which nodes of
//! the other, and how well.
pub mod assignment_problem;
pub mod bounds;
pub mod kuhn_munkres;
pub mod matching_configuration;
pub mod matchings;
pub mod ordered;
pub mod pairing;
pub mod spec;
pub mod unique_label;
pub mod unordered;

use crate::matching::matching_configuration::MatchingConfiguration;
use crate::matching::matchings::{MatchingEntry, Matchings};
use crate::matching::spec::{spec_matchings, within_matching_limits};
use crate::model::CSTNode;
use vstd::prelude::*;

verus! {

/// The matchings between two trees: two inner nodes are matched as ordered
/// or unordered lists of children; two leaves match perfectly, with score
/// one, when kind and value agree, and otherwise score zero; a leaf and an
/// inner node score zero.
pub fn calculate_matchings(left: &CSTNode, right: &CSTNode, cfg: &MatchingConfiguration) -> (res:
    Matchings)
    requires
        within_matching_limits(*left, *right),
    ensures
        res@ == spec_matchings(*left, *right, *cfg),
    decreases *left, 7nat, 0nat, 0nat,
{
    proof {
        crate::matching::bounds::lemma_limits_facts(*left, *right);
    }
    match (left, right) {
        (CSTNode::NonTerminal(_), CSTNode::NonTerminal(_)) => {
            if left.are_children_unordered() && right.are_children_unordered() {
                unordered::calculate_matchings(left, right, cfg)
            } else {
                ordered::ordered_tree_matching(left, right, cfg)
            }
        },
        (CSTNode::Terminal(a), CSTNode::Terminal(b)) => {
            let is_perfect_match = a.kind == b.kind && a.value == b.value;
            let score: usize = if is_perfect_match {
                1
            } else {
                0
            };
            Matchings::from_single(left.id(), right.id(), MatchingEntry::new(left, right, score))
        },
        (_, _) => Matchings::from_single(left.id(), right.id(), MatchingEntry::new(left, right, 0)),
    }
}

} // verus!
