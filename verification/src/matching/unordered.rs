//! Matching of nodes whose children may appear in any order.
use crate::matching::matching_configuration::MatchingConfiguration;
use crate::matching::matchings::Matchings;
use crate::matching::spec::{
    entry_for, record_for, spec_unique_label_matchings, spec_unordered_matchings,
    within_matching_limits,
};
use crate::matching::matchings::MatchingEntry;
use crate::matching::{assignment_problem, unique_label};
use crate::model::CSTNode;
use vstd::prelude::*;

verus! {

/// Unique-label matching when every non-delimiter child of both nodes has a
/// label, assignment matching otherwise.
pub fn calculate_matchings(left: &CSTNode, right: &CSTNode, cfg: &MatchingConfiguration) -> (res:
    Matchings)
    requires
        within_matching_limits(*left, *right),
        left is NonTerminal,
        right is NonTerminal,
    ensures
        res@ == spec_unordered_matchings(*left, *right, *cfg),
    decreases *left, 6nat, 0nat, 0nat,
{
    if cfg.all_children_labeled(left) && cfg.all_children_labeled(right) {
        unique_label::calculate_matchings(left, right, cfg)
    } else {
        assignment_problem::calculate_matchings(left, right, cfg)
    }
}

/// Matching of two nodes whose children may come in any order: two leaves
/// match perfectly, with score one, when kind and value agree; two inner
/// nodes are matched pair of children by pair of children, as in
/// unique-label matching. A leaf and an inner node cannot be matched here.
pub fn unordered_tree_matching(left: &CSTNode, right: &CSTNode, cfg: &MatchingConfiguration) -> (res:
    Matchings)
    requires
        within_matching_limits(*left, *right),
        (left is Terminal) == (right is Terminal),
    ensures
        (left is NonTerminal) ==> res@ == spec_unique_label_matchings(*left, *right, *cfg),
        match (*left, *right) {
            (CSTNode::Terminal(a), CSTNode::Terminal(b)) => res@ == seq![
                record_for(
                    *left,
                    *right,
                    entry_for(
                        *left,
                        *right,
                        if a.kind@ == b.kind@ && a.value@ == b.value@ {
                            1
                        } else {
                            0
                        },
                    ),
                ),
            ],
            _ => true,
        },
{
    proof {
        crate::matching::bounds::lemma_limits_facts(*left, *right);
    }
    match (left, right) {
        (CSTNode::Terminal(a), CSTNode::Terminal(b)) => {
            let is_perfect_match = a.kind == b.kind && a.value == b.value;
            let score: usize = if is_perfect_match {
                1
            } else {
                0
            };
            Matchings::from_single(left.id(), right.id(), MatchingEntry::new(left, right, score))
        },
        (_, _) => unique_label::calculate_matchings(left, right, cfg),
    }
}

} // verus!
