//! Merging inner nodes whose children may come in any order: each child is
//! merged with its match in the other parent, wherever it stands.
use crate::matching::matchings::Matchings;
use crate::merge::merge_error::MergeError;
use crate::merge::merged_cst_node::{trees, MergedCSTNode};
use crate::merge::spec::{
    child_with_id, is_block_end, lemma_child_with_id, spec_unordered_merge, unordered_left_pass,
    unordered_right_pass,
};
use crate::merge::{left_conflict, outcome, push_tree, result_view, right_conflict, try_merge};
use crate::model::{CSTNode, NonTerminal};
use vstd::prelude::*;

verus! {

broadcast use vstd::std_specs::vec::group_vec_axioms, vstd::seq::group_seq_axioms;

/// Whether a node is a leaf that closes a block.
fn ends_block(node: &CSTNode) -> (res: bool)
    ensures
        res == is_block_end(*node),
{
    match node {
        CSTNode::Terminal(t) => t.is_block_end_delimiter,
        CSTNode::NonTerminal(_) => false,
    }
}

/// The position of the first node with the given identifier.
fn find_child_with_id(children: &Vec<CSTNode>, id: u128) -> (res: Option<usize>)
    ensures
        res matches Some(k) ==> child_with_id(children@, id) == Some(k as int),
        res is None ==> child_with_id(children@, id) is None,
{
    let mut i: usize = 0;
    while i < children.len()
        invariant
            i <= children@.len(),
            child_with_id(children@.take(i as int), id) is None,
        decreases children@.len() - i,
    {
        proof {
            let t = children@.take(i + 1);
            assert(t.drop_last() =~= children@.take(i as int));
        }
        if children[i].id() == id {
            proof {
                lemma_child_with_id_extend(children@, id, i as int);
            }
            return Some(i);
        }
        i = i + 1;
    }
    assert(children@.take(i as int) =~= children@);
    None
}

proof fn lemma_child_with_id_extend(s: Seq<CSTNode>, id: u128, i: int)
    requires
        0 <= i < s.len(),
        child_with_id(s.take(i + 1), id) == Some(i),
    ensures
        child_with_id(s, id) == Some(i),
    decreases s.len(),
{
    if s.len() > i + 1 {
        assert(s.drop_last().take(i + 1) =~= s.take(i + 1));
        lemma_child_with_id_extend(s.drop_last(), id, i);
    } else {
        assert(s.take(i + 1) =~= s);
    }
}

/// Whether the identifier is in the list.
fn contains_id(v: &Vec<u128>, id: u128) -> (res: bool)
    ensures
        res == v@.contains(id),
{
    let mut i: usize = 0;
    while i < v.len()
        invariant
            i <= v@.len(),
            forall|k: int| 0 <= k < i ==> v@[k] != id,
        decreases v@.len() - i,
    {
        if v[i] == id {
            assert(v@[i as int] == id);
            return true;
        }
        i = i + 1;
    }
    false
}

/// Unordered merge of two inner nodes; `None` where merging cannot go on.
pub fn try_unordered_merge(
    left: &NonTerminal,
    right: &NonTerminal,
    base_left_matchings: &Matchings,
    base_right_matchings: &Matchings,
    left_right_matchings: &Matchings,
) -> (res: Option<Result<MergedCSTNode, MergeError>>)
    ensures
        outcome(res) == spec_unordered_merge(
            CSTNode::NonTerminal(*left),
            CSTNode::NonTerminal(*right),
            base_left_matchings@,
            base_right_matchings@,
            left_right_matchings@,
        ),
    decreases *left, 2nat, 0int,
{
    let ghost lv = CSTNode::NonTerminal(*left);
    let ghost rv = CSTNode::NonTerminal(*right);
    let ghost bl = base_left_matchings@;
    let ghost br = base_right_matchings@;
    let ghost lr = left_right_matchings@;
    if left.kind != right.kind {
        return Some(
            Err(MergeError::NodesWithDifferentKinds(left.kind.clone(), right.kind.clone())),
        );
    }
    let ghost left_goal = unordered_left_pass(lv, rv, bl, br, lr, 0, Seq::empty(), Seq::empty());
    let mut result: Vec<MergedCSTNode> = Vec::new();
    let mut processed: Vec<u128> = Vec::new();
    let m = left.children.len();
    let mut i: usize = 0;
    assert(trees(result@) =~= Seq::empty());
    while i < m && !ends_block(&left.children[i])
        invariant
            left_goal == unordered_left_pass(lv, rv, bl, br, lr, 0, Seq::empty(), Seq::empty()),
            left.kind@ == right.kind@,
            i <= m,
            m == left.children@.len(),
            lv.spec_children() == left.children@,
            rv.spec_children() == right.children@,
            lv == CSTNode::NonTerminal(*left),
            rv == CSTNode::NonTerminal(*right),
            bl == base_left_matchings@,
            br == base_right_matchings@,
            lr == left_right_matchings@,
            unordered_left_pass(lv, rv, bl, br, lr, i as nat, trees(result@), processed@)
                == left_goal,
        decreases m - i,
    {
        let lc = &left.children[i];
        let base_left = base_left_matchings.find_matching_for(lc);
        let left_right = left_right_matchings.find_matching_for(lc);
        match (base_left, left_right) {
            (None, None) => {
                push_tree(&mut result, MergedCSTNode::from(lc));
                processed.push(lc.id());
            },
            (Some(mbl), None) => {
                if !mbl.is_perfect_match {
                    push_tree(&mut result, left_conflict(lc));
                }
                processed.push(lc.id());
            },
            (_, Some(m_right)) => {
                match find_child_with_id(&right.children, m_right.matching_node) {
                    None => {
                        return None;
                    },
                    Some(k) => {
                        proof {
                            lemma_child_with_id(right.children@, m_right.matching_node);
                        }
                        match try_merge(
                            lc,
                            lc,
                            &right.children[k],
                            base_left_matchings,
                            base_right_matchings,
                            left_right_matchings,
                        ) {
                            Some(Ok(t)) => {
                                push_tree(&mut result, t);
                                processed.push(lc.id());
                                processed.push(m_right.matching_node);
                            },
                            _ => {
                                return None;
                            },
                        }
                    },
                }
            },
        }
        i = i + 1;
    }
    let ghost acc_left = trees(result@);
    let ghost processed_left = processed@;
    assert(left_goal == Some((acc_left, processed_left)));
    let ghost right_goal = unordered_right_pass(lv, rv, bl, br, lr, 0, acc_left, processed_left);
    let n = right.children.len();
    let mut j: usize = 0;
    while j < n
        invariant
            left_goal == unordered_left_pass(lv, rv, bl, br, lr, 0, Seq::empty(), Seq::empty()),
            left_goal == Some((acc_left, processed_left)),
            right_goal == unordered_right_pass(lv, rv, bl, br, lr, 0, acc_left, processed_left),
            left.kind@ == right.kind@,
            j <= n,
            n == right.children@.len(),
            lv.spec_children() == left.children@,
            rv.spec_children() == right.children@,
            lv == CSTNode::NonTerminal(*left),
            rv == CSTNode::NonTerminal(*right),
            bl == base_left_matchings@,
            br == base_right_matchings@,
            lr == left_right_matchings@,
            processed@ == processed_left,
            unordered_right_pass(lv, rv, bl, br, lr, j as nat, trees(result@), processed@)
                == right_goal,
        decreases n - j,
    {
        let rc = &right.children[j];
        if !contains_id(&processed, rc.id()) {
            let base_right = base_right_matchings.find_matching_for(rc);
            let left_right = left_right_matchings.find_matching_for(rc);
            match (base_right, left_right) {
                (None, None) => {
                    push_tree(&mut result, MergedCSTNode::from(rc));
                },
                (Some(mbr), None) => {
                    if !mbr.is_perfect_match {
                        push_tree(&mut result, right_conflict(rc));
                    }
                },
                (_, Some(m_left)) => {
                    match find_child_with_id(&left.children, m_left.matching_node) {
                        None => {
                            return None;
                        },
                        Some(k) => {
                            proof {
                                lemma_child_with_id(left.children@, m_left.matching_node);
                            }
                            match try_merge(
                                rc,
                                &left.children[k],
                                rc,
                                base_left_matchings,
                                base_right_matchings,
                                left_right_matchings,
                            ) {
                                Some(Ok(t)) => {
                                    push_tree(&mut result, t);
                                },
                                _ => {
                                    return None;
                                },
                            }
                        },
                    }
                },
            }
        }
        j = j + 1;
    }
    Some(Ok(MergedCSTNode::NonTerminal { kind: left.kind.clone(), children: result }))
}

/// Unordered merge of two inner nodes of the same kind: each left child is
/// merged with its match in the right node, kept when only the left added
/// it, and dropped or reported as a conflict when the right removed it;
/// then the right children that no left child took are handled the same
/// way. The pass over the left children stops at the leaf that closes the
/// block.
pub fn unordered_merge(
    left: &NonTerminal,
    right: &NonTerminal,
    base_left_matchings: &Matchings,
    base_right_matchings: &Matchings,
    left_right_matchings: &Matchings,
) -> (res: Result<MergedCSTNode, MergeError>)
    requires
        spec_unordered_merge(
            CSTNode::NonTerminal(*left),
            CSTNode::NonTerminal(*right),
            base_left_matchings@,
            base_right_matchings@,
            left_right_matchings@,
        ) is Some,
    ensures
        Some(result_view(res)) == spec_unordered_merge(
            CSTNode::NonTerminal(*left),
            CSTNode::NonTerminal(*right),
            base_left_matchings@,
            base_right_matchings@,
            left_right_matchings@,
        ),
{
    match try_unordered_merge(
        left,
        right,
        base_left_matchings,
        base_right_matchings,
        left_right_matchings,
    ) {
        Some(r) => r,
        None => Err(MergeError::MergingTerminalWithNonTerminal),
    }
}

} // verus!
