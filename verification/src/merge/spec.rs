//! What merging three trees gives, stated as recursive definitions.
//!
//! An outcome is `None` where merging cannot go on: a merge of matched
//! children inside an unordered merge failed, or the node that a child is
//! matched with is not among the children of the other parent.
use crate::matching::matchings::{find_key, spec_find_matching, Matching, MatchingRecord};
use crate::merge::merge_error::MergeErrorView;
use crate::merge::merged_cst_node::{forest_of, tree_of, MergedTree};
use crate::merge::terminals::diffy_merge;
use crate::model::{CSTNode, Terminal};
use vstd::prelude::*;

verus! {

/// The text a three-way text merge gives, with or without conflict markers.
pub open spec fn merged_text(r: Result<Seq<char>, Seq<char>>) -> Seq<char> {
    match r {
        Ok(s) => s,
        Err(s) => s,
    }
}

/// Merging three leaves: an unchanged leaf stays; a leaf that only one
/// parent changed takes that parent's leaf; a leaf that both changed gets
/// the three-way merge of the texts, under the base's kind.
pub open spec fn merge_terminal_trees(b: Terminal, l: Terminal, r: Terminal) -> MergedTree {
    if l.value@ == b.value@ && r.value@ == b.value@ {
        MergedTree::Terminal { kind: b.kind@, value: b.value@ }
    } else if l.value@ != b.value@ && r.value@ != b.value@ {
        MergedTree::Terminal {
            kind: b.kind@,
            value: merged_text(diffy_merge(b.value@, l.value@, r.value@)),
        }
    } else if l.value@ != b.value@ {
        MergedTree::Terminal { kind: l.kind@, value: l.value@ }
    } else {
        MergedTree::Terminal { kind: r.kind@, value: r.value@ }
    }
}

/// The index of the first node of `s` with the identifier `id`.
pub open spec fn child_with_id(s: Seq<CSTNode>, id: u128) -> Option<int>
    decreases s.len(),
{
    if s.len() == 0 {
        None
    } else {
        match child_with_id(s.drop_last(), id) {
            Some(i) => Some(i),
            None => if s.last().spec_id() == id {
                Some(s.len() - 1)
            } else {
                None
            },
        }
    }
}

pub proof fn lemma_child_with_id(s: Seq<CSTNode>, id: u128)
    ensures
        child_with_id(s, id) matches Some(k) ==> 0 <= k < s.len() && s[k].spec_id() == id,
        child_with_id(s, id) is None ==> forall|k: int|
            0 <= k < s.len() ==> #[trigger] s[k].spec_id() != id,
    decreases s.len(),
{
    if s.len() > 0 {
        lemma_child_with_id(s.drop_last(), id);
        assert forall|k: int| 0 <= k < s.len() - 1 implies s.drop_last()[k] == s[k] by {}
    }
}

pub open spec fn conflict_left(t: MergedTree) -> MergedTree {
    MergedTree::Conflict { left: Some(Box::new(t)), right: None }
}

pub open spec fn conflict_right(t: MergedTree) -> MergedTree {
    MergedTree::Conflict { left: None, right: Some(Box::new(t)) }
}

pub open spec fn conflict_both(l: MergedTree, r: MergedTree) -> MergedTree {
    MergedTree::Conflict { left: Some(Box::new(l)), right: Some(Box::new(r)) }
}

/// The merge of three trees: leaves are merged as texts, inner nodes as
/// unordered lists of children when both parents' nodes say so and as
/// ordered lists otherwise; a leaf cannot be merged with an inner node.
pub open spec fn spec_merge(
    base: CSTNode,
    left: CSTNode,
    right: CSTNode,
    bl: Seq<MatchingRecord>,
    br: Seq<MatchingRecord>,
    lr: Seq<MatchingRecord>,
) -> Option<Result<MergedTree, MergeErrorView>>
    decreases left, 3nat, 0int,
{
    match (base, left, right) {
        (CSTNode::Terminal(b), CSTNode::Terminal(l), CSTNode::Terminal(r)) => Some(
            Ok(merge_terminal_trees(b, l, r)),
        ),
        (CSTNode::NonTerminal(_), CSTNode::NonTerminal(_), CSTNode::NonTerminal(_)) => {
            if left.spec_unordered() && right.spec_unordered() {
                spec_unordered_merge(left, right, bl, br, lr)
            } else {
                spec_ordered_merge(base, left, right, bl, br, lr)
            }
        },
        _ => Some(Err(MergeErrorView::MergingTerminalWithNonTerminal)),
    }
}

/// Ordered merge: the children of the two parents are walked side by side
/// and kept under the base's kind.
pub open spec fn spec_ordered_merge(
    base: CSTNode,
    left: CSTNode,
    right: CSTNode,
    bl: Seq<MatchingRecord>,
    br: Seq<MatchingRecord>,
    lr: Seq<MatchingRecord>,
) -> Option<Result<MergedTree, MergeErrorView>>
    decreases left, 2nat, 0int,
{
    match (base, left, right) {
        (CSTNode::NonTerminal(b), CSTNode::NonTerminal(_), CSTNode::NonTerminal(_)) => {
            match ordered_children(left, right, bl, br, lr, 0, 0, Seq::empty()) {
                None => None,
                Some(Err(e)) => Some(Err(e)),
                Some(Ok(children)) => Some(Ok(MergedTree::NonTerminal { kind: b.kind@, children })),
            }
        },
        _ => Some(Err(MergeErrorView::MergingTerminalWithNonTerminal)),
    }
}

/// What ordered merging knows of the current pair of children: whether they
/// are matched with each other, the left child's match in the right tree
/// and in the base, and the right child's match in the left tree and in the
/// base.
pub open spec fn ordered_situation(
    lc: CSTNode,
    rc: CSTNode,
    bl: Seq<MatchingRecord>,
    br: Seq<MatchingRecord>,
    lr: Seq<MatchingRecord>,
) -> (bool, Option<Matching>, Option<Matching>, Option<Matching>, Option<Matching>) {
    (
        find_key(lr, lc.spec_id(), rc.spec_id()) is Some,
        spec_find_matching(lr, lc.spec_id()),
        spec_find_matching(bl, lc.spec_id()),
        spec_find_matching(lr, rc.spec_id()),
        spec_find_matching(br, rc.spec_id()),
    )
}

/// The children of an ordered merge from the `i`-th left child and the
/// `j`-th right child on, after `acc`.
pub open spec fn ordered_children(
    left: CSTNode,
    right: CSTNode,
    bl: Seq<MatchingRecord>,
    br: Seq<MatchingRecord>,
    lr: Seq<MatchingRecord>,
    i: nat,
    j: nat,
    acc: Seq<MergedTree>,
) -> Option<Result<Seq<MergedTree>, MergeErrorView>>
    decreases left, 1nat, left.spec_children().len() + right.spec_children().len() - i - j,
{
    let ls = left.spec_children();
    let rs = right.spec_children();
    if i >= ls.len() || j >= rs.len() {
        Some(
            Ok(
                acc + forest_of(ls.subrange(i as int, ls.len() as int)) + forest_of(
                    rs.subrange(j as int, rs.len() as int),
                ),
            ),
        )
    } else {
        let lc = ls[i as int];
        let rc = rs[j as int];
        let tl = tree_of(lc);
        let tr = tree_of(rc);
        match ordered_situation(lc, rc, bl, br, lr) {
            (true, Some(_), Some(_), Some(_), Some(_)) | (true, Some(_), None, Some(_), None) => {
                match spec_merge(lc, lc, rc, bl, br, lr) {
                    None => None,
                    Some(Err(e)) => Some(Err(e)),
                    Some(Ok(t)) => ordered_children(
                        left,
                        right,
                        bl,
                        br,
                        lr,
                        i + 1,
                        j + 1,
                        acc.push(t),
                    ),
                }
            },
            (false, Some(_), Some(_), None, Some(mbr)) | (false, Some(_), None, None, Some(mbr)) => {
                let next = if !mbr.is_perfect_match {
                    acc.push(conflict_right(tr))
                } else {
                    acc
                };
                ordered_children(left, right, bl, br, lr, i, j + 1, next)
            },
            (false, Some(_), Some(_), None, None) | (false, Some(_), None, None, None) => {
                ordered_children(left, right, bl, br, lr, i, j + 1, acc.push(tr))
            },
            (false, None, Some(mbl), Some(_), Some(_)) | (false, None, Some(mbl), Some(_), None) => {
                let next = if !mbl.is_perfect_match {
                    acc.push(conflict_left(tl))
                } else {
                    acc
                };
                ordered_children(left, right, bl, br, lr, i + 1, j, next)
            },
            (false, None, Some(mbl), None, Some(mbr)) => {
                let next = if mbl.is_perfect_match && mbr.is_perfect_match {
                    acc
                } else if mbl.is_perfect_match {
                    acc.push(conflict_left(tl))
                } else if mbr.is_perfect_match {
                    acc.push(conflict_right(tr))
                } else {
                    acc.push(conflict_both(tl, tr))
                };
                ordered_children(left, right, bl, br, lr, i + 1, j + 1, next)
            },
            (false, None, Some(mbl), None, None) => {
                let with_right = acc.push(tr);
                let next = if !mbl.is_perfect_match {
                    with_right.push(conflict_left(tl))
                } else {
                    with_right
                };
                ordered_children(left, right, bl, br, lr, i + 1, j + 1, next)
            },
            (false, None, None, Some(_), Some(_)) | (false, None, None, Some(_), None) => {
                ordered_children(left, right, bl, br, lr, i + 1, j, acc.push(tl))
            },
            (false, None, None, None, Some(mbr)) => {
                let with_left = acc.push(tl);
                let next = if !mbr.is_perfect_match {
                    with_left.push(conflict_right(tr))
                } else {
                    with_left
                };
                ordered_children(left, right, bl, br, lr, i + 1, j + 1, next)
            },
            (false, None, None, None, None) => {
                ordered_children(left, right, bl, br, lr, i + 1, j + 1, acc.push(conflict_both(tl, tr)))
            },
            (a, b, c, d, e) => Some(
                Err(
                    MergeErrorView::InvalidMatchingConfiguration(
                        a,
                        b is Some,
                        c is Some,
                        d is Some,
                        e is Some,
                    ),
                ),
            ),
        }
    }
}

/// Unordered merge: nodes of different kinds are refused; otherwise the
/// left children are merged with their matches, and then the right
/// children that no left child took.
pub open spec fn spec_unordered_merge(
    left: CSTNode,
    right: CSTNode,
    bl: Seq<MatchingRecord>,
    br: Seq<MatchingRecord>,
    lr: Seq<MatchingRecord>,
) -> Option<Result<MergedTree, MergeErrorView>>
    decreases left, 2nat, 0int,
{
    if left.spec_kind() != right.spec_kind() {
        Some(Err(MergeErrorView::NodesWithDifferentKinds(left.spec_kind(), right.spec_kind())))
    } else {
        match unordered_left_pass(left, right, bl, br, lr, 0, Seq::empty(), Seq::empty()) {
            None => None,
            Some((acc, processed)) => match unordered_right_pass(
                left,
                right,
                bl,
                br,
                lr,
                0,
                acc,
                processed,
            ) {
                None => None,
                Some(children) => Some(
                    Ok(MergedTree::NonTerminal { kind: left.spec_kind(), children }),
                ),
            },
        }
    }
}

/// Whether a node is a leaf that closes a block.
pub open spec fn is_block_end(node: CSTNode) -> bool {
    match node {
        CSTNode::Terminal(t) => t.is_block_end_delimiter,
        CSTNode::NonTerminal(_) => false,
    }
}

/// The pass over the left children, from the `i`-th on, up to the first
/// leaf that closes a block: the merged children so far and the
/// identifiers of the nodes already taken.
pub open spec fn unordered_left_pass(
    left: CSTNode,
    right: CSTNode,
    bl: Seq<MatchingRecord>,
    br: Seq<MatchingRecord>,
    lr: Seq<MatchingRecord>,
    i: nat,
    acc: Seq<MergedTree>,
    processed: Seq<u128>,
) -> Option<(Seq<MergedTree>, Seq<u128>)>
    decreases left, 1nat, left.spec_children().len() - i,
{
    let ls = left.spec_children();
    let rs = right.spec_children();
    if i >= ls.len() {
        Some((acc, processed))
    } else {
        let lc = ls[i as int];
        if is_block_end(lc) {
            Some((acc, processed))
        } else {
            match (spec_find_matching(bl, lc.spec_id()), spec_find_matching(lr, lc.spec_id())) {
                (None, None) => unordered_left_pass(
                    left,
                    right,
                    bl,
                    br,
                    lr,
                    i + 1,
                    acc.push(tree_of(lc)),
                    processed.push(lc.spec_id()),
                ),
                (Some(mbl), None) => {
                    let next = if !mbl.is_perfect_match {
                        acc.push(conflict_left(tree_of(lc)))
                    } else {
                        acc
                    };
                    unordered_left_pass(
                        left,
                        right,
                        bl,
                        br,
                        lr,
                        i + 1,
                        next,
                        processed.push(lc.spec_id()),
                    )
                },
                (_, Some(m)) => match child_with_id(rs, m.matching_node) {
                    None => None,
                    Some(k) => match spec_merge(lc, lc, rs[k], bl, br, lr) {
                        Some(Ok(t)) => unordered_left_pass(
                            left,
                            right,
                            bl,
                            br,
                            lr,
                            i + 1,
                            acc.push(t),
                            processed.push(lc.spec_id()).push(m.matching_node),
                        ),
                        _ => None,
                    },
                },
            }
        }
    }
}

/// The pass over the right children, from the `j`-th on, skipping those
/// already taken.
pub open spec fn unordered_right_pass(
    left: CSTNode,
    right: CSTNode,
    bl: Seq<MatchingRecord>,
    br: Seq<MatchingRecord>,
    lr: Seq<MatchingRecord>,
    j: nat,
    acc: Seq<MergedTree>,
    processed: Seq<u128>,
) -> Option<Seq<MergedTree>>
    decreases left, 1nat, right.spec_children().len() - j,
{
    let ls = left.spec_children();
    let rs = right.spec_children();
    if j >= rs.len() {
        Some(acc)
    } else {
        let rc = rs[j as int];
        if processed.contains(rc.spec_id()) {
            unordered_right_pass(left, right, bl, br, lr, j + 1, acc, processed)
        } else {
            match (spec_find_matching(br, rc.spec_id()), spec_find_matching(lr, rc.spec_id())) {
                (None, None) => unordered_right_pass(
                    left,
                    right,
                    bl,
                    br,
                    lr,
                    j + 1,
                    acc.push(tree_of(rc)),
                    processed,
                ),
                (Some(mbr), None) => {
                    let next = if !mbr.is_perfect_match {
                        acc.push(conflict_right(tree_of(rc)))
                    } else {
                        acc
                    };
                    unordered_right_pass(left, right, bl, br, lr, j + 1, next, processed)
                },
                (_, Some(m)) => match child_with_id(ls, m.matching_node) {
                    None => None,
                    Some(k) => {
                        proof {
                            lemma_child_with_id(ls, m.matching_node);
                        }
                        match spec_merge(rc, ls[k], rc, bl, br, lr) {
                            Some(Ok(t)) => unordered_right_pass(
                                left,
                                right,
                                bl,
                                br,
                                lr,
                                j + 1,
                                acc.push(t),
                                processed,
                            ),
                            _ => None,
                        }
                    },
                },
            }
        }
    }
}

} // verus!
