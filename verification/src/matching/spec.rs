//! What `calculate_matchings` computes, stated as recursive definitions.
use crate::matching::matching_configuration::MatchingConfiguration;
use crate::matching::matchings::{
    lookup, lookup_score, spec_extend, spec_insert, MatchingEntry, MatchingRecord,
};
use crate::matching_handlers::spec_compute_score;
use crate::model::{spec_contents, tree_size, CSTNode};
use vstd::prelude::*;

verus! {

/// The largest trees that matching handles: the square of their combined
/// number of nodes fits in a `usize`. A score is at most the product of
/// the two subtrees' sizes (unique-label matching adds up the scores of all
/// pairs of children), so every score, and every weight handed to the
/// assignment solver, then fits in the integers that hold it.
pub open spec fn within_matching_limits(left: CSTNode, right: CSTNode) -> bool {
    let s = tree_size(left) + tree_size(right);
    s * s <= usize::MAX
}

/// An entry of the given score; it is perfect when the score reaches the
/// average size of the two trees.
pub open spec fn entry_for(left: CSTNode, right: CSTNode, score: nat) -> MatchingEntry {
    MatchingEntry {
        score: score as usize,
        is_perfect_match: 2 * score == tree_size(left) + tree_size(right),
    }
}

pub open spec fn record_for(left: CSTNode, right: CSTNode, entry: MatchingEntry) -> MatchingRecord {
    MatchingRecord { left: left.spec_id(), right: right.spec_id(), entry }
}

pub open spec fn nchildren(node: CSTNode) -> nat {
    node.spec_children().len()
}

/// The matchings between two trees.
pub open spec fn spec_matchings(
    left: CSTNode,
    right: CSTNode,
    cfg: MatchingConfiguration,
) -> Seq<MatchingRecord>
    decreases left, 7nat, 0nat, 0nat,
{
    match (left, right) {
        (CSTNode::NonTerminal(_), CSTNode::NonTerminal(_)) => {
            if left.spec_unordered() && right.spec_unordered() {
                spec_unordered_matchings(left, right, cfg)
            } else {
                spec_ordered_matchings(left, right, cfg)
            }
        },
        (CSTNode::Terminal(a), CSTNode::Terminal(b)) => {
            let perfect = a.kind@ == b.kind@ && a.value@ == b.value@;
            seq![record_for(left, right, entry_for(left, right, if perfect { 1 } else { 0 }))]
        },
        _ => seq![record_for(left, right, entry_for(left, right, 0))],
    }
}

/// The score that the matchings of the `i`-th child of `left` and the
/// `j`-th child of `right` give to that pair.
pub open spec fn child_score(
    left: CSTNode,
    right: CSTNode,
    cfg: MatchingConfiguration,
    i: int,
    j: int,
) -> nat
    decreases left, 3nat, 0nat, 0nat,
{
    if 0 <= i < nchildren(left) && 0 <= j < nchildren(right) {
        let a = left.spec_children()[i];
        let b = right.spec_children()[j];
        lookup_score(spec_matchings(a, b, cfg), a.spec_id(), b.spec_id())
    } else {
        0
    }
}

pub open spec fn max3(a: nat, b: nat, c: nat) -> nat {
    if a >= b && a >= c {
        a
    } else if b >= c {
        b
    } else {
        c
    }
}

/// The best total score of an order-preserving pairing of the first `i`
/// children of `left` with the first `j` children of `right`.
pub open spec fn ordered_table(
    left: CSTNode,
    right: CSTNode,
    cfg: MatchingConfiguration,
    i: nat,
    j: nat,
) -> nat
    decreases left, 4nat, i, j,
{
    if i == 0 || j == 0 || i > nchildren(left) || j > nchildren(right) {
        0
    } else {
        max3(
            ordered_table(left, right, cfg, i, (j - 1) as nat),
            ordered_table(left, right, cfg, (i - 1) as nat, j),
            ordered_table(left, right, cfg, (i - 1) as nat, (j - 1) as nat) + child_score(
                left,
                right,
                cfg,
                i - 1,
                j - 1,
            ),
        )
    }
}

/// The step that the table records for a cell: to the left, to the top, or
/// along the diagonal when the pair of children contributes.
#[derive(PartialEq, Eq, Debug, Clone, Copy, Structural)]
pub enum Direction {
    Top,
    Left,
    Diag,
}

pub open spec fn ordered_direction(
    left: CSTNode,
    right: CSTNode,
    cfg: MatchingConfiguration,
    i: nat,
    j: nat,
) -> Direction
    recommends
        1 <= i <= nchildren(left),
        1 <= j <= nchildren(right),
    decreases left, 4nat, i, j,
{
    if i == 0 || j == 0 {
        Direction::Diag
    } else {
        let a = ordered_table(left, right, cfg, i, (j - 1) as nat);
        let b = ordered_table(left, right, cfg, (i - 1) as nat, j);
        let c = ordered_table(left, right, cfg, (i - 1) as nat, (j - 1) as nat) + child_score(
            left,
            right,
            cfg,
            i - 1,
            j - 1,
        );
        if a > b {
            if a > c {
                Direction::Left
            } else {
                Direction::Diag
            }
        } else if b > c {
            Direction::Top
        } else {
            Direction::Diag
        }
    }
}

/// Walking the table back from cell `(i, j)`, the matchings of every pair
/// of children on the path that raised the score are added to `acc`.
pub open spec fn ordered_trace(
    left: CSTNode,
    right: CSTNode,
    cfg: MatchingConfiguration,
    i: nat,
    j: nat,
    acc: Seq<MatchingRecord>,
) -> Seq<MatchingRecord>
    decreases left, 5nat, i, j,
{
    if i == 0 || j == 0 || i > nchildren(left) || j > nchildren(right) {
        acc
    } else {
        match ordered_direction(left, right, cfg, i, j) {
            Direction::Top => ordered_trace(left, right, cfg, (i - 1) as nat, j, acc),
            Direction::Left => ordered_trace(left, right, cfg, i, (j - 1) as nat, acc),
            Direction::Diag => {
                let next = if ordered_table(left, right, cfg, i, j) > ordered_table(
                    left,
                    right,
                    cfg,
                    (i - 1) as nat,
                    (j - 1) as nat,
                ) {
                    spec_extend(
                        acc,
                        spec_matchings(
                            left.spec_children()[i - 1],
                            right.spec_children()[j - 1],
                            cfg,
                        ),
                    )
                } else {
                    acc
                };
                ordered_trace(left, right, cfg, (i - 1) as nat, (j - 1) as nat, next)
            },
        }
    }
}

/// The score of the two roots: the language's handler for their kind if
/// there is one, otherwise one when their kinds are equal.
pub open spec fn ordered_root_score(
    left: CSTNode,
    right: CSTNode,
    cfg: MatchingConfiguration,
) -> nat {
    match spec_compute_score(cfg.handlers@, left, right) {
        Some(v) => v,
        None => if left.spec_kind() == right.spec_kind() {
            1
        } else {
            0
        },
    }
}

/// Ordered matching: nothing when the roots do not match; otherwise the
/// roots, scored with the best order-preserving pairing of the children,
/// followed by the matchings of the pairs on that pairing.
pub open spec fn spec_ordered_matchings(
    left: CSTNode,
    right: CSTNode,
    cfg: MatchingConfiguration,
) -> Seq<MatchingRecord>
    decreases left, 6nat, 0nat, 0nat,
{
    let root = ordered_root_score(left, right, cfg);
    if root == 0 {
        Seq::empty()
    } else {
        let m = nchildren(left);
        let n = nchildren(right);
        ordered_trace(
            left,
            right,
            cfg,
            m,
            n,
            seq![
                record_for(
                    left,
                    right,
                    entry_for(left, right, ordered_table(left, right, cfg, m, n) + root),
                ),
            ],
        )
    }
}

/// Unordered matching: by unique labels when every non-delimiter child of
/// both nodes has a label, otherwise by solving an assignment problem.
pub open spec fn spec_unordered_matchings(
    left: CSTNode,
    right: CSTNode,
    cfg: MatchingConfiguration,
) -> Seq<MatchingRecord>
    decreases left, 6nat, 0nat, 0nat,
{
    if cfg.spec_all_children_labeled(left) && cfg.spec_all_children_labeled(right) {
        spec_unique_label_matchings(left, right, cfg)
    } else {
        spec_assignment_matchings(left, right, cfg)
    }
}

/// One pair of children in unique-label matching: a pair whose matchings
/// score it at least one adds its score to the sum and its matchings to the
/// result.
pub open spec fn unique_label_step(
    left: CSTNode,
    right: CSTNode,
    cfg: MatchingConfiguration,
    st: (nat, Seq<MatchingRecord>),
    i: int,
    j: int,
) -> (nat, Seq<MatchingRecord>)
    decreases left, 3nat, 0nat, 0nat,
{
    if 0 <= i < nchildren(left) && 0 <= j < nchildren(right) {
        let a = left.spec_children()[i];
        let b = right.spec_children()[j];
        let cm = spec_matchings(a, b, cfg);
        match lookup(cm, a.spec_id(), b.spec_id()) {
            Some(e) => if e.score >= 1 {
                (st.0 + e.score as nat, spec_extend(st.1, cm))
            } else {
                st
            },
            None => st,
        }
    } else {
        st
    }
}

/// The sum and matchings after all pairs of the first `i` children of
/// `left` with every child of `right`, and then the pairs of child `i` with
/// the first `j` children of `right`.
pub open spec fn unique_label_state(
    left: CSTNode,
    right: CSTNode,
    cfg: MatchingConfiguration,
    i: nat,
    j: nat,
) -> (nat, Seq<MatchingRecord>)
    decreases left, 4nat, i, j,
{
    if j == 0 {
        if i == 0 {
            (0, Seq::empty())
        } else {
            unique_label_state(left, right, cfg, (i - 1) as nat, nchildren(right))
        }
    } else {
        unique_label_step(
            left,
            right,
            cfg,
            unique_label_state(left, right, cfg, i, (j - 1) as nat),
            i as int,
            j - 1,
        )
    }
}

/// Unique-label matching: the roots score the sum of the positive scores of
/// all pairs of children plus one when their kinds are equal; they match
/// perfectly when their contents are equal.
pub open spec fn spec_unique_label_matchings(
    left: CSTNode,
    right: CSTNode,
    cfg: MatchingConfiguration,
) -> Seq<MatchingRecord>
    decreases left, 5nat, 0nat, 0nat,
{
    let st = unique_label_state(left, right, cfg, nchildren(left), 0);
    let root: nat = if left.spec_kind() == right.spec_kind() {
        1
    } else {
        0
    };
    spec_insert(
        st.1,
        record_for(
            left,
            right,
            MatchingEntry {
                score: (st.0 + root) as usize,
                is_perfect_match: spec_contents(left) == spec_contents(right),
            },
        ),
    )
}

/// The side of the square weight table: the larger number of children.
pub open spec fn assignment_size(left: CSTNode, right: CSTNode) -> nat {
    if nchildren(left) >= nchildren(right) {
        nchildren(left)
    } else {
        nchildren(right)
    }
}

/// The weights of the assignment problem: the score of each pair of
/// children, and zero in the padding that makes the table square.
pub open spec fn assignment_weights(
    left: CSTNode,
    right: CSTNode,
    cfg: MatchingConfiguration,
) -> Seq<Seq<i128>>
    decreases left, 4nat, 0nat, 0nat,
{
    let size = assignment_size(left, right);
    Seq::new(
        size,
        |i: int|
            Seq::new(
                size,
                |j: int|
                    if i < nchildren(left) && j < nchildren(right) {
                        child_score(left, right, cfg, i, j) as i128
                    } else {
                        0i128
                    },
            ),
    )
}

/// The total weight of an assignment of rows to columns, over its first `k` rows.
pub open spec fn assignment_value(w: Seq<Seq<i128>>, a: Seq<usize>, k: nat) -> int
    decreases k,
{
    if k == 0 {
        0
    } else {
        assignment_value(w, a, (k - 1) as nat) + w[k - 1][a[k - 1] as int]
    }
}

/// Each of the `rows` rows gets its own column among `cols`.
pub open spec fn is_assignment(a: Seq<usize>, rows: nat, cols: nat) -> bool {
    &&& a.len() == rows
    &&& forall|i: int| 0 <= i < rows ==> a[i] < cols
    &&& forall|i: int, k: int| 0 <= i < k < rows ==> a[i] != a[k]
}

/// The matchings of the assigned pairs of children with a positive weight,
/// over the first `k` rows.
pub open spec fn assignment_fold(
    left: CSTNode,
    right: CSTNode,
    cfg: MatchingConfiguration,
    w: Seq<Seq<i128>>,
    a: Seq<usize>,
    k: nat,
) -> Seq<MatchingRecord>
    decreases left, 4nat, k, 0nat,
{
    if k == 0 {
        Seq::empty()
    } else {
        let acc = assignment_fold(left, right, cfg, w, a, (k - 1) as nat);
        let i = k - 1;
        let j = a[i] as int;
        if i < nchildren(left) && j < nchildren(right) && w[i][j] > 0 {
            spec_extend(
                acc,
                spec_matchings(left.spec_children()[i], right.spec_children()[j], cfg),
            )
        } else {
            acc
        }
    }
}

/// The solver's assignment for the children of two nodes is an assignment
/// of rows to columns of the square weight table, and no other assignment
/// has a larger total weight.
pub open spec fn assignment_is_best(left: CSTNode, right: CSTNode, cfg: MatchingConfiguration) -> bool {
    let w = assignment_weights(left, right, cfg);
    let size = assignment_size(left, right);
    let a = kuhn_munkres_assignment(w);
    &&& is_assignment(a, size, size)
    &&& forall|b: Seq<usize>|
        is_assignment(b, size, size) ==> assignment_value(w, b, size) <= assignment_value(
            w,
            a,
            size,
        )
}

/// The assignment that the solver picks for a weight table (see
/// `assignment_problem`).
pub uninterp spec fn kuhn_munkres_assignment(weights: Seq<Seq<i128>>) -> Seq<usize>;

/// Assignment matching: nothing for roots of different kinds; otherwise the
/// matchings of the pairs of children that the best assignment picks, and
/// the roots, scored with the total weight of that assignment plus one and
/// matching perfectly when their contents are equal.
pub open spec fn spec_assignment_matchings(
    left: CSTNode,
    right: CSTNode,
    cfg: MatchingConfiguration,
) -> Seq<MatchingRecord>
    decreases left, 5nat, 0nat, 0nat,
{
    if left.spec_kind() != right.spec_kind() {
        Seq::empty()
    } else {
        let w = assignment_weights(left, right, cfg);
        let a = kuhn_munkres_assignment(w);
        let size = assignment_size(left, right);
        let total = assignment_value(w, a, a.len());
        if !is_assignment(a, size, size) {
            // The solver always gives an assignment (see `kuhn_munkres`).
            Seq::empty()
        } else {
            spec_insert(
            assignment_fold(left, right, cfg, w, a, a.len()),
            record_for(
                left,
                right,
                MatchingEntry {
                    score: (total + 1) as usize,
                    is_perfect_match: spec_contents(left) == spec_contents(right),
                },
            ),
        )
        }
    }
}

} // verus!
