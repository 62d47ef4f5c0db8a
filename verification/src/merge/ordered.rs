//! Merging inner nodes whose children are ordered: the two lists of
//! children are walked side by side, and each pair is settled by how the
//! two children are matched with each other and with the base.
use crate::matching::matchings::Matchings;
use crate::merge::merge_error::MergeError;
use crate::merge::merged_cst_node::{forest_of, trees, tree_of, MergedCSTNode};
use crate::merge::spec::{ordered_children, spec_ordered_merge};
use crate::merge::{both_conflict, left_conflict, outcome, push_tree, result_view, right_conflict, try_merge};
use crate::model::CSTNode;
use vstd::prelude::*;

verus! {

broadcast use vstd::std_specs::vec::group_vec_axioms, vstd::seq::group_seq_axioms;

/// Appends the remaining children of one list, each taken as it is.
fn push_rest(result: &mut Vec<MergedCSTNode>, children: &Vec<CSTNode>, from: usize)
    requires
        from <= children@.len(),
    ensures
        trees(final(result)@) == trees(old(result)@) + forest_of(
            children@.subrange(from as int, children@.len() as int),
        ),
{
    let mut i: usize = from;
    while i < children.len()
        invariant
            from <= i <= children@.len(),
            trees(result@) == trees(old(result)@) + forest_of(
                children@.subrange(from as int, i as int),
            ),
        decreases children@.len() - i,
    {
        let t = MergedCSTNode::from(&children[i]);
        proof {
            let s = children@.subrange(from as int, i + 1);
            assert(s.drop_last() =~= children@.subrange(from as int, i as int));
            assert(s.last() == children@[i as int]);
        }
        push_tree(result, t);
        proof {
            let a = trees(old(result)@);
            let b = forest_of(children@.subrange(from as int, i as int));
            assert((a + b).push(tree_of(children@[i as int])) =~= a + b.push(
                tree_of(children@[i as int]),
            ));
        }
        i = i + 1;
    }
}

/// Ordered merge of three inner nodes; `None` where merging cannot go on.
pub fn try_ordered_merge(
    base: &CSTNode,
    left: &CSTNode,
    right: &CSTNode,
    base_left_matchings: &Matchings,
    base_right_matchings: &Matchings,
    left_right_matchings: &Matchings,
) -> (res: Option<Result<MergedCSTNode, MergeError>>)
    ensures
        outcome(res) == spec_ordered_merge(
            *base,
            *left,
            *right,
            base_left_matchings@,
            base_right_matchings@,
            left_right_matchings@,
        ),
    decreases *left, 2nat, 0int,
{
    let ghost bl = base_left_matchings@;
    let ghost br = base_right_matchings@;
    let ghost lr = left_right_matchings@;
    match (base, left, right) {
        (CSTNode::NonTerminal(b), CSTNode::NonTerminal(l), CSTNode::NonTerminal(r)) => {
            let ghost goal = ordered_children(*left, *right, bl, br, lr, 0, 0, Seq::empty());
            let m = l.children.len();
            let n = r.children.len();
            let mut result: Vec<MergedCSTNode> = Vec::new();
            let mut i: usize = 0;
            let mut j: usize = 0;
            assert(trees(result@) =~= Seq::empty());
            while i < m && j < n
                invariant
                    *base == CSTNode::NonTerminal(*b),
                    *left == CSTNode::NonTerminal(*l),
                    *right == CSTNode::NonTerminal(*r),
                    goal == ordered_children(*left, *right, bl, br, lr, 0, 0, Seq::empty()),
                    i <= m,
                    j <= n,
                    m == l.children@.len(),
                    n == r.children@.len(),
                    left.spec_children() == l.children@,
                    right.spec_children() == r.children@,
                    bl == base_left_matchings@,
                    br == base_right_matchings@,
                    lr == left_right_matchings@,
                    ordered_children(*left, *right, bl, br, lr, i as nat, j as nat, trees(result@))
                        == goal,
                decreases m + n - i - j,
            {
                let lc = &l.children[i];
                let rc = &r.children[j];
                let bidirectional = left_right_matchings.has_bidirectional_matching(lc, rc);
                let left_in_right = left_right_matchings.find_matching_for(lc);
                let base_left = base_left_matchings.find_matching_for(lc);
                let right_in_left = left_right_matchings.find_matching_for(rc);
                let base_right = base_right_matchings.find_matching_for(rc);
                match (bidirectional, left_in_right, base_left, right_in_left, base_right) {
                    (true, Some(_), Some(_), Some(_), Some(_)) | (true, Some(_), None, Some(_), None) => {
                        match try_merge(
                            lc,
                            lc,
                            rc,
                            base_left_matchings,
                            base_right_matchings,
                            left_right_matchings,
                        ) {
                            None => {
                                return None;
                            },
                            Some(Err(e)) => {
                                return Some(Err(e));
                            },
                            Some(Ok(t)) => {
                                push_tree(&mut result, t);
                                i = i + 1;
                                j = j + 1;
                            },
                        }
                    },
                    (false, Some(_), Some(_), None, Some(mbr)) | (false, Some(_), None, None, Some(mbr)) => {
                        if !mbr.is_perfect_match {
                            push_tree(&mut result, right_conflict(rc));
                        }
                        j = j + 1;
                    },
                    (false, Some(_), Some(_), None, None) | (false, Some(_), None, None, None) => {
                        push_tree(&mut result, MergedCSTNode::from(rc));
                        j = j + 1;
                    },
                    (false, None, Some(mbl), Some(_), Some(_)) | (false, None, Some(mbl), Some(_), None) => {
                        if !mbl.is_perfect_match {
                            push_tree(&mut result, left_conflict(lc));
                        }
                        i = i + 1;
                    },
                    (false, None, Some(mbl), None, Some(mbr)) => {
                        if mbl.is_perfect_match && mbr.is_perfect_match {
                        } else if mbl.is_perfect_match {
                            push_tree(&mut result, left_conflict(lc));
                        } else if mbr.is_perfect_match {
                            push_tree(&mut result, right_conflict(rc));
                        } else {
                            push_tree(&mut result, both_conflict(lc, rc));
                        }
                        i = i + 1;
                        j = j + 1;
                    },
                    (false, None, Some(mbl), None, None) => {
                        push_tree(&mut result, MergedCSTNode::from(rc));
                        if !mbl.is_perfect_match {
                            push_tree(&mut result, left_conflict(lc));
                        }
                        i = i + 1;
                        j = j + 1;
                    },
                    (false, None, None, Some(_), Some(_)) | (false, None, None, Some(_), None) => {
                        push_tree(&mut result, MergedCSTNode::from(lc));
                        i = i + 1;
                    },
                    (false, None, None, None, Some(mbr)) => {
                        push_tree(&mut result, MergedCSTNode::from(lc));
                        if !mbr.is_perfect_match {
                            push_tree(&mut result, right_conflict(rc));
                        }
                        i = i + 1;
                        j = j + 1;
                    },
                    (false, None, None, None, None) => {
                        push_tree(&mut result, both_conflict(lc, rc));
                        i = i + 1;
                        j = j + 1;
                    },
                    (a, b, c, d, e) => {
                        return Some(
                            Err(
                                MergeError::InvalidMatchingConfiguration(
                                    a,
                                    b.is_some(),
                                    c.is_some(),
                                    d.is_some(),
                                    e.is_some(),
                                ),
                            ),
                        );
                    },
                }
            }
            push_rest(&mut result, &l.children, i);
            push_rest(&mut result, &r.children, j);
            Some(Ok(MergedCSTNode::NonTerminal { kind: b.kind.clone(), children: result }))
        },
        (_, _, _) => Some(Err(MergeError::MergingTerminalWithNonTerminal)),
    }
}

/// Ordered merge of three inner nodes: the children of the two parents are
/// walked side by side and settled pair by pair, and the merged node takes
/// the base's kind.
pub fn ordered_merge(
    base: &CSTNode,
    left: &CSTNode,
    right: &CSTNode,
    base_left_matchings: &Matchings,
    base_right_matchings: &Matchings,
    left_right_matchings: &Matchings,
) -> (res: Result<MergedCSTNode, MergeError>)
    requires
        spec_ordered_merge(
            *base,
            *left,
            *right,
            base_left_matchings@,
            base_right_matchings@,
            left_right_matchings@,
        ) is Some,
    ensures
        Some(result_view(res)) == spec_ordered_merge(
            *base,
            *left,
            *right,
            base_left_matchings@,
            base_right_matchings@,
            left_right_matchings@,
        ),
{
    match try_ordered_merge(
        base,
        left,
        right,
        base_left_matchings,
        base_right_matchings,
        left_right_matchings,
    ) {
        Some(r) => r,
        None => Err(MergeError::MergingTerminalWithNonTerminal),
    }
}

} // verus!
