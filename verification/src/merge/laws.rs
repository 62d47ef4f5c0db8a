//! Properties that hold of every merge.
use crate::matching::matchings::MatchingRecord;
use crate::merge::merged_cst_node::{
    forest_display, forest_has_conflict, forest_of, forest_well_formed, spec_display,
    spec_has_conflict, tree_of, well_formed, MergedTree,
};
use crate::merge::spec::{
    child_with_id, conflict_both, conflict_left, conflict_right, lemma_child_with_id,
    ordered_children, ordered_situation, spec_merge, spec_ordered_merge,
    spec_unordered_merge, unordered_left_pass, unordered_right_pass,
};
use crate::model::{forest_contents, spec_contents, CSTNode};
use vstd::prelude::*;

verus! {

broadcast use vstd::seq::group_seq_axioms;

pub proof fn lemma_forest_push(s: Seq<MergedTree>, x: MergedTree)
    ensures
        forest_well_formed(s.push(x)) == (forest_well_formed(s) && well_formed(x)),
        forest_has_conflict(s.push(x)) == (forest_has_conflict(s) || spec_has_conflict(x)),
{
    assert(s.push(x).drop_last() =~= s);
}

pub proof fn lemma_forest_concat(a: Seq<MergedTree>, b: Seq<MergedTree>)
    ensures
        forest_well_formed(a + b) == (forest_well_formed(a) && forest_well_formed(b)),
        forest_has_conflict(a + b) == (forest_has_conflict(a) || forest_has_conflict(b)),
    decreases b.len(),
{
    if b.len() == 0 {
        assert(a + b =~= a);
    } else {
        lemma_forest_concat(a, b.drop_last());
        assert((a + b).drop_last() =~= a + b.drop_last());
        assert((a + b).last() == b.last());
    }
}

/// A tree taken as it is from one of the trees has no conflict.
pub proof fn lemma_tree_of_clean(n: CSTNode)
    ensures
        well_formed(tree_of(n)),
        !spec_has_conflict(tree_of(n)),
    decreases n,
{
    match n {
        CSTNode::Terminal(_) => {},
        CSTNode::NonTerminal(nt) => {
            lemma_forest_of_clean(nt.children@);
        },
    }
}

pub proof fn lemma_forest_of_clean(s: Seq<CSTNode>)
    ensures
        forest_well_formed(forest_of(s)),
        !forest_has_conflict(forest_of(s)),
    decreases s,
{
    if s.len() > 0 {
        lemma_forest_of_clean(s.drop_last());
        lemma_tree_of_clean(s.last());
        lemma_forest_push(forest_of(s.drop_last()), tree_of(s.last()));
    }
}

proof fn lemma_conflicts_well_formed(l: CSTNode, r: CSTNode)
    ensures
        well_formed(conflict_left(tree_of(l))),
        well_formed(conflict_right(tree_of(r))),
        well_formed(conflict_both(tree_of(l), tree_of(r))),
{
    lemma_tree_of_clean(l);
    lemma_tree_of_clean(r);
}

/// Every conflict that merging produces holds at least one side, so every
/// merged tree can be written out.
pub proof fn lemma_merge_well_formed(
    base: CSTNode,
    left: CSTNode,
    right: CSTNode,
    bl: Seq<MatchingRecord>,
    br: Seq<MatchingRecord>,
    lr: Seq<MatchingRecord>,
)
    ensures
        spec_merge(base, left, right, bl, br, lr) matches Some(Ok(t)) ==> well_formed(t),
    decreases left, 3nat, 0int,
{
    match (base, left, right) {
        (CSTNode::NonTerminal(_), CSTNode::NonTerminal(_), CSTNode::NonTerminal(_)) => {
            if left.spec_unordered() && right.spec_unordered() {
                lemma_unordered_well_formed(left, right, bl, br, lr);
            } else {
                lemma_ordered_well_formed(base, left, right, bl, br, lr);
            }
        },
        _ => {},
    }
}

proof fn lemma_ordered_well_formed(
    base: CSTNode,
    left: CSTNode,
    right: CSTNode,
    bl: Seq<MatchingRecord>,
    br: Seq<MatchingRecord>,
    lr: Seq<MatchingRecord>,
)
    ensures
        spec_ordered_merge(base, left, right, bl, br, lr) matches Some(Ok(t)) ==> well_formed(t),
    decreases left, 2nat, 0int,
{
    lemma_ordered_children_well_formed(left, right, bl, br, lr, 0, 0, Seq::empty());
}

proof fn lemma_ordered_children_well_formed(
    left: CSTNode,
    right: CSTNode,
    bl: Seq<MatchingRecord>,
    br: Seq<MatchingRecord>,
    lr: Seq<MatchingRecord>,
    i: nat,
    j: nat,
    acc: Seq<MergedTree>,
)
    requires
        forest_well_formed(acc),
    ensures
        ordered_children(left, right, bl, br, lr, i, j, acc) matches Some(Ok(s))
            ==> forest_well_formed(s),
    decreases left, 1nat, left.spec_children().len() + right.spec_children().len() - i - j,
{
    let ls = left.spec_children();
    let rs = right.spec_children();
    if i >= ls.len() || j >= rs.len() {
        let a = forest_of(ls.subrange(i as int, ls.len() as int));
        let b = forest_of(rs.subrange(j as int, rs.len() as int));
        lemma_forest_of_clean(ls.subrange(i as int, ls.len() as int));
        lemma_forest_of_clean(rs.subrange(j as int, rs.len() as int));
        lemma_forest_concat(acc, a);
        lemma_forest_concat(acc + a, b);
    } else {
        let lc = ls[i as int];
        let rc = rs[j as int];
        let tl = tree_of(lc);
        let tr = tree_of(rc);
        lemma_conflicts_well_formed(lc, rc);
        lemma_tree_of_clean(lc);
        lemma_tree_of_clean(rc);
        lemma_forest_push(acc, tl);
        lemma_forest_push(acc, tr);
        lemma_forest_push(acc, conflict_left(tl));
        lemma_forest_push(acc, conflict_right(tr));
        lemma_forest_push(acc, conflict_both(tl, tr));
        lemma_forest_push(acc.push(tr), conflict_left(tl));
        lemma_forest_push(acc.push(tl), conflict_right(tr));
        match ordered_situation(lc, rc, bl, br, lr) {
            (true, Some(_), Some(_), Some(_), Some(_)) | (true, Some(_), None, Some(_), None) => {
                lemma_merge_well_formed(lc, lc, rc, bl, br, lr);
                match spec_merge(lc, lc, rc, bl, br, lr) {
                    Some(Ok(t)) => {
                        lemma_forest_push(acc, t);
                        lemma_ordered_children_well_formed(
                            left,
                            right,
                            bl,
                            br,
                            lr,
                            i + 1,
                            j + 1,
                            acc.push(t),
                        );
                    },
                    _ => {},
                }
            },
            (false, Some(_), Some(_), None, Some(mbr)) | (false, Some(_), None, None, Some(mbr)) => {
                let next = if !mbr.is_perfect_match {
                    acc.push(conflict_right(tr))
                } else {
                    acc
                };
                lemma_ordered_children_well_formed(left, right, bl, br, lr, i, j + 1, next);
            },
            (false, Some(_), Some(_), None, None) | (false, Some(_), None, None, None) => {
                lemma_ordered_children_well_formed(left, right, bl, br, lr, i, j + 1, acc.push(tr));
            },
            (false, None, Some(mbl), Some(_), Some(_)) | (false, None, Some(mbl), Some(_), None) => {
                let next = if !mbl.is_perfect_match {
                    acc.push(conflict_left(tl))
                } else {
                    acc
                };
                lemma_ordered_children_well_formed(left, right, bl, br, lr, i + 1, j, next);
            },
            (false, None, Some(mbl), None, Some(mbr)) => {
                let next = if mbl.is_perfect_match && mbr.is_perfect_match {
                    acc
                } else if mbl.is_perfect_match {
                    acc.push(conflict_left(tl))
                } else if mbr.is_perfect_match {
                    acc.push(conflict_right(tr))
                } else {
                    acc.push(conflict_both(tl, tr))
                };
                lemma_ordered_children_well_formed(left, right, bl, br, lr, i + 1, j + 1, next);
            },
            (false, None, Some(mbl), None, None) => {
                let with_right = acc.push(tr);
                let next = if !mbl.is_perfect_match {
                    with_right.push(conflict_left(tl))
                } else {
                    with_right
                };
                lemma_ordered_children_well_formed(left, right, bl, br, lr, i + 1, j + 1, next);
            },
            (false, None, None, Some(_), Some(_)) | (false, None, None, Some(_), None) => {
                lemma_ordered_children_well_formed(left, right, bl, br, lr, i + 1, j, acc.push(tl));
            },
            (false, None, None, None, Some(mbr)) => {
                let with_left = acc.push(tl);
                let next = if !mbr.is_perfect_match {
                    with_left.push(conflict_right(tr))
                } else {
                    with_left
                };
                lemma_ordered_children_well_formed(left, right, bl, br, lr, i + 1, j + 1, next);
            },
            (false, None, None, None, None) => {
                lemma_ordered_children_well_formed(
                    left,
                    right,
                    bl,
                    br,
                    lr,
                    i + 1,
                    j + 1,
                    acc.push(conflict_both(tl, tr)),
                );
            },
            _ => {},
        }
    }
}

proof fn lemma_unordered_well_formed(
    left: CSTNode,
    right: CSTNode,
    bl: Seq<MatchingRecord>,
    br: Seq<MatchingRecord>,
    lr: Seq<MatchingRecord>,
)
    ensures
        spec_unordered_merge(left, right, bl, br, lr) matches Some(Ok(t)) ==> well_formed(t),
    decreases left, 2nat, 0int,
{
    lemma_left_pass_well_formed(left, right, bl, br, lr, 0, Seq::empty(), Seq::empty());
    match unordered_left_pass(left, right, bl, br, lr, 0, Seq::empty(), Seq::empty()) {
        Some((acc, processed)) => {
            lemma_right_pass_well_formed(left, right, bl, br, lr, 0, acc, processed);
        },
        None => {},
    }
}

proof fn lemma_left_pass_well_formed(
    left: CSTNode,
    right: CSTNode,
    bl: Seq<MatchingRecord>,
    br: Seq<MatchingRecord>,
    lr: Seq<MatchingRecord>,
    i: nat,
    acc: Seq<MergedTree>,
    processed: Seq<u128>,
)
    requires
        forest_well_formed(acc),
    ensures
        unordered_left_pass(left, right, bl, br, lr, i, acc, processed) matches Some(r)
            ==> forest_well_formed(r.0),
    decreases left, 1nat, left.spec_children().len() - i,
{
    let ls = left.spec_children();
    let rs = right.spec_children();
    if i < ls.len() {
        let lc = ls[i as int];
        lemma_tree_of_clean(lc);
        lemma_conflicts_well_formed(lc, lc);
        lemma_forest_push(acc, tree_of(lc));
        lemma_forest_push(acc, conflict_left(tree_of(lc)));
        if !crate::merge::spec::is_block_end(lc) {
            match (
                crate::matching::matchings::spec_find_matching(bl, lc.spec_id()),
                crate::matching::matchings::spec_find_matching(lr, lc.spec_id()),
            ) {
                (None, None) => {
                    lemma_left_pass_well_formed(
                        left,
                        right,
                        bl,
                        br,
                        lr,
                        i + 1,
                        acc.push(tree_of(lc)),
                        processed.push(lc.spec_id()),
                    );
                },
                (Some(mbl), None) => {
                    let next = if !mbl.is_perfect_match {
                        acc.push(conflict_left(tree_of(lc)))
                    } else {
                        acc
                    };
                    lemma_left_pass_well_formed(
                        left,
                        right,
                        bl,
                        br,
                        lr,
                        i + 1,
                        next,
                        processed.push(lc.spec_id()),
                    );
                },
                (_, Some(m)) => match child_with_id(rs, m.matching_node) {
                    None => {},
                    Some(k) => {
                        lemma_merge_well_formed(lc, lc, rs[k], bl, br, lr);
                        match spec_merge(lc, lc, rs[k], bl, br, lr) {
                            Some(Ok(t)) => {
                                lemma_forest_push(acc, t);
                                lemma_left_pass_well_formed(
                                    left,
                                    right,
                                    bl,
                                    br,
                                    lr,
                                    i + 1,
                                    acc.push(t),
                                    processed.push(lc.spec_id()).push(m.matching_node),
                                );
                            },
                            _ => {},
                        }
                    },
                },
            }
        }
    }
}

proof fn lemma_right_pass_well_formed(
    left: CSTNode,
    right: CSTNode,
    bl: Seq<MatchingRecord>,
    br: Seq<MatchingRecord>,
    lr: Seq<MatchingRecord>,
    j: nat,
    acc: Seq<MergedTree>,
    processed: Seq<u128>,
)
    requires
        forest_well_formed(acc),
    ensures
        unordered_right_pass(left, right, bl, br, lr, j, acc, processed) matches Some(r)
            ==> forest_well_formed(r),
    decreases left, 1nat, right.spec_children().len() - j,
{
    let ls = left.spec_children();
    let rs = right.spec_children();
    if j < rs.len() {
        let rc = rs[j as int];
        lemma_tree_of_clean(rc);
        lemma_conflicts_well_formed(rc, rc);
        lemma_forest_push(acc, tree_of(rc));
        lemma_forest_push(acc, conflict_right(tree_of(rc)));
        if processed.contains(rc.spec_id()) {
            lemma_right_pass_well_formed(left, right, bl, br, lr, j + 1, acc, processed);
        } else {
            match (
                crate::matching::matchings::spec_find_matching(br, rc.spec_id()),
                crate::matching::matchings::spec_find_matching(lr, rc.spec_id()),
            ) {
                (None, None) => {
                    lemma_right_pass_well_formed(
                        left,
                        right,
                        bl,
                        br,
                        lr,
                        j + 1,
                        acc.push(tree_of(rc)),
                        processed,
                    );
                },
                (Some(mbr), None) => {
                    let next = if !mbr.is_perfect_match {
                        acc.push(conflict_right(tree_of(rc)))
                    } else {
                        acc
                    };
                    lemma_right_pass_well_formed(left, right, bl, br, lr, j + 1, next, processed);
                },
                (_, Some(m)) => match child_with_id(ls, m.matching_node) {
                    None => {},
                    Some(k) => {
                        lemma_child_with_id(ls, m.matching_node);
                        lemma_merge_well_formed(rc, ls[k], rc, bl, br, lr);
                        match spec_merge(rc, ls[k], rc, bl, br, lr) {
                            Some(Ok(t)) => {
                                lemma_forest_push(acc, t);
                                lemma_right_pass_well_formed(
                                    left,
                                    right,
                                    bl,
                                    br,
                                    lr,
                                    j + 1,
                                    acc.push(t),
                                    processed,
                                );
                            },
                            _ => {},
                        }
                    },
                },
            }
        }
    }
}

/// A leaf that at most one parent changed, or that both changed in the
/// same way, merges to the same leaf whichever parent is called left.
pub proof fn lemma_terminal_merge_symmetric(
    base: CSTNode,
    left: CSTNode,
    right: CSTNode,
    bl: Seq<MatchingRecord>,
    br: Seq<MatchingRecord>,
    lr: Seq<MatchingRecord>,
)
    requires
        base is Terminal,
        left is Terminal,
        right is Terminal,
        !(left->Terminal_0.value@ != base->Terminal_0.value@ && right->Terminal_0.value@
            != base->Terminal_0.value@ && left->Terminal_0.value@ != right->Terminal_0.value@),
    ensures
        spec_merge(base, left, right, bl, br, lr) == spec_merge(base, right, left, br, bl, lr),
{
}

/// Writing out a tree taken as it is from one of the trees gives the
/// contents of that tree.
pub proof fn lemma_display_of_unmerged(n: CSTNode)
    ensures
        spec_display(tree_of(n)) == spec_contents(n),
    decreases n,
{
    match n {
        CSTNode::Terminal(_) => {},
        CSTNode::NonTerminal(nt) => {
            lemma_forest_display_of_unmerged(nt.children@);
        },
    }
}

pub proof fn lemma_forest_display_of_unmerged(s: Seq<CSTNode>)
    ensures
        forest_display(forest_of(s)) == forest_contents(s),
    decreases s,
{
    if s.len() > 0 {
        lemma_forest_display_of_unmerged(s.drop_last());
        lemma_display_of_unmerged(s.last());
        let f = forest_of(s.drop_last());
        assert(f.push(tree_of(s.last())).drop_last() =~= f);
    }
}

} // verus!
