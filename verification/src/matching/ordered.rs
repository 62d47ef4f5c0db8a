//! Matching of nodes whose children are ordered: the best order-preserving
//! pairing of the children, found by dynamic programming.
use crate::matching::bounds::{
    lemma_child_limits, lemma_child_score_bounded, lemma_limits_facts, lemma_ordered_table_bounded,
    lemma_ordered_total_bounded,
};
use crate::matching::calculate_matchings;
use crate::matching::matching_configuration::MatchingConfiguration;
use crate::matching::matchings::{MatchingEntry, Matchings};
use crate::matching::spec::{
    child_score, entry_for, max3, nchildren, ordered_direction, ordered_root_score, ordered_table,
    ordered_trace, record_for, spec_matchings, spec_ordered_matchings, within_matching_limits,
    Direction,
};
use crate::model::{tree_size, CSTNode};
use vstd::prelude::*;

verus! {

impl MatchingEntry {
    /// An entry of the given score; it is perfect when twice the score is
    /// the size of both trees together.
    pub fn new(left: &CSTNode, right: &CSTNode, score: usize) -> (res: Self)
        requires
            tree_size(*left) + tree_size(*right) <= usize::MAX,
            2 * score <= usize::MAX,
        ensures
            res == entry_for(*left, *right, score as nat),
    {
        let total = left.get_tree_size() + right.get_tree_size();
        MatchingEntry { score, is_perfect_match: 2 * score == total }
    }
}

/// One cell of the table from its left, top and diagonal neighbours: the
/// largest of the three, and the step that gives it, preferring the left,
/// then the top, then the diagonal as the neighbours compare.
fn best_step(lft: usize, top: usize, diag: usize) -> (res: (usize, Direction))
    ensures
        res.0 == max3(lft as nat, top as nat, diag as nat),
        res.1 == (if lft > top {
            if lft > diag {
                Direction::Left
            } else {
                Direction::Diag
            }
        } else if top > diag {
            Direction::Top
        } else {
            Direction::Diag
        }),
{
    if lft > top {
        if lft > diag {
            (lft, Direction::Left)
        } else {
            (diag, Direction::Diag)
        }
    } else if top > diag {
        (top, Direction::Top)
    } else {
        (diag, Direction::Diag)
    }
}

/// A cell of the table inside its bounds unfolds into its three neighbours.
proof fn lemma_table_cell(l: CSTNode, r: CSTNode, c: MatchingConfiguration, i: nat, j: nat)
    requires
        1 <= i <= nchildren(l),
        1 <= j <= nchildren(r),
    ensures
        ordered_table(l, r, c, i, j) == max3(
            ordered_table(l, r, c, i, (j - 1) as nat),
            ordered_table(l, r, c, (i - 1) as nat, j),
            ordered_table(l, r, c, (i - 1) as nat, (j - 1) as nat) + child_score(
                l,
                r,
                c,
                i - 1,
                j - 1,
            ),
        ),
        ordered_direction(l, r, c, i, j) == ({
            let a = ordered_table(l, r, c, i, (j - 1) as nat);
            let b = ordered_table(l, r, c, (i - 1) as nat, j);
            let d = ordered_table(l, r, c, (i - 1) as nat, (j - 1) as nat) + child_score(
                l,
                r,
                c,
                i - 1,
                j - 1,
            );
            if a > b {
                if a > d {
                    Direction::Left
                } else {
                    Direction::Diag
                }
            } else if b > d {
                Direction::Top
            } else {
                Direction::Diag
            }
        }),
{
}

/// Ordered matching of two inner nodes; nodes of which one is a leaf have
/// no matchings here.
pub fn ordered_tree_matching(
    left: &CSTNode,
    right: &CSTNode,
    cfg: &MatchingConfiguration,
) -> (res: Matchings)
    requires
        within_matching_limits(*left, *right),
    ensures
        (left is NonTerminal && right is NonTerminal) ==> res@ == spec_ordered_matchings(
            *left,
            *right,
            *cfg,
        ),
        !(left is NonTerminal && right is NonTerminal) ==> res@.len() == 0,
    decreases *left, 6nat, 0nat, 0nat,
{
    match (left, right) {
        (CSTNode::NonTerminal(l), CSTNode::NonTerminal(r)) => {
            let root_matching: usize = match cfg.handlers.compute_matching_score(left, right) {
                Some(v) => v,
                None => if left.same_kind(right) {
                    1
                } else {
                    0
                },
            };
            proof {
                crate::matching::bounds::lemma_root_score_small(*left, *right, *cfg);
            }
            assert(root_matching == ordered_root_score(*left, *right, *cfg));
            if root_matching == 0 {
                return Matchings::empty();
            }
            let m = l.children.len();
            let n = r.children.len();
            let ghost lv = *left;
            let ghost rv = *right;
            let ghost c = *cfg;
            assert(nchildren(lv) == m && nchildren(rv) == n);

            // The first row: all zero.
            let mut matrix_m: Vec<Vec<usize>> = Vec::new();
            let mut matrix_d: Vec<Vec<Direction>> = Vec::new();
            let mut matrix_w: Vec<Vec<Matchings>> = Vec::new();
            let mut row_m: Vec<usize> = Vec::new();
            let mut row_d: Vec<Direction> = Vec::new();
            let mut row_w: Vec<Matchings> = Vec::new();
            proof {
                lemma_limits_facts(*left, *right);
            }
            let mut j: usize = 0;
            while j <= n
                invariant
                    j <= n + 1,
                    n < usize::MAX,
                    row_m@.len() == j,
                    row_d@.len() == j,
                    row_w@.len() == j,
                    forall|k: int| 0 <= k < j ==> row_m@[k] == 0,
                decreases n + 1 - j,
            {
                row_m.push(0);
                row_d.push(Direction::Top);
                row_w.push(Matchings::empty());
                j = j + 1;
            }
            matrix_m.push(row_m);
            matrix_d.push(row_d);
            matrix_w.push(row_w);

            let mut i: usize = 1;
            while i <= m
                invariant
                    1 <= i <= m + 1,
                    m < usize::MAX,
                    n < usize::MAX,
                    m == nchildren(lv),
                    n == nchildren(rv),
                    lv == *left,
                    rv == *right,
                    c == *cfg,
                    left->NonTerminal_0 == *l,
                    right->NonTerminal_0 == *r,
                    within_matching_limits(lv, rv),
                    matrix_m@.len() == i,
                    matrix_d@.len() == i,
                    matrix_w@.len() == i,
                    forall|ii: int| 0 <= ii < i ==> #[trigger] matrix_m@[ii]@.len() == n + 1,
                    forall|ii: int| 0 <= ii < i ==> #[trigger] matrix_d@[ii]@.len() == n + 1,
                    forall|ii: int| 0 <= ii < i ==> #[trigger] matrix_w@[ii]@.len() == n + 1,
                    forall|ii: int, jj: int|
                        0 <= ii < i && 0 <= jj <= n ==> #[trigger] matrix_m@[ii]@[jj]
                            == ordered_table(lv, rv, c, ii as nat, jj as nat),
                    forall|ii: int, jj: int|
                        1 <= ii < i && 1 <= jj <= n ==> #[trigger] matrix_d@[ii]@[jj]
                            == ordered_direction(lv, rv, c, ii as nat, jj as nat),
                    forall|ii: int, jj: int|
                        1 <= ii < i && 1 <= jj <= n ==> #[trigger] matrix_w@[ii]@[jj]@
                            == spec_matchings(
                            lv.spec_children()[ii - 1],
                            rv.spec_children()[jj - 1],
                            c,
                        ),
                decreases m + 1 - i,
            {
                let mut row_m: Vec<usize> = Vec::new();
                let mut row_d: Vec<Direction> = Vec::new();
                let mut row_w: Vec<Matchings> = Vec::new();
                row_m.push(0);
                row_d.push(Direction::Top);
                row_w.push(Matchings::empty());
                let mut j: usize = 1;
                while j <= n
                    invariant
                        1 <= i <= m,
                        1 <= j <= n + 1,
                        n < usize::MAX,
                        m == nchildren(lv),
                        n == nchildren(rv),
                        lv == *left,
                        rv == *right,
                        c == *cfg,
                        left->NonTerminal_0 == *l,
                        right->NonTerminal_0 == *r,
                        within_matching_limits(lv, rv),
                        matrix_m@.len() == i,
                        forall|ii: int| 0 <= ii < i ==> #[trigger] matrix_m@[ii]@.len() == n + 1,
                        forall|ii: int, jj: int|
                            0 <= ii < i && 0 <= jj <= n ==> #[trigger] matrix_m@[ii]@[jj]
                                == ordered_table(lv, rv, c, ii as nat, jj as nat),
                        row_m@.len() == j,
                        row_d@.len() == j,
                        row_w@.len() == j,
                        forall|jj: int|
                            0 <= jj < j ==> #[trigger] row_m@[jj] == ordered_table(
                                lv,
                                rv,
                                c,
                                i as nat,
                                jj as nat,
                            ),
                        forall|jj: int|
                            1 <= jj < j ==> #[trigger] row_d@[jj] == ordered_direction(
                                lv,
                                rv,
                                c,
                                i as nat,
                                jj as nat,
                            ),
                        forall|jj: int|
                            1 <= jj < j ==> #[trigger] row_w@[jj]@ == spec_matchings(
                                lv.spec_children()[i - 1],
                                rv.spec_children()[jj - 1],
                                c,
                            ),
                    decreases n + 1 - j,
                {
                    let left_child = &l.children[i - 1];
                    let right_child = &r.children[j - 1];
                    proof {
                        lemma_child_limits(lv, rv, i - 1, j - 1);
                        lemma_child_score_bounded(lv, rv, c, i - 1, j - 1);
                        lemma_ordered_table_bounded(lv, rv, c, i as nat, j as nat);
                    }
                    let w = calculate_matchings(left_child, right_child, cfg);
                    let score: usize = match w.get_matching_entry(left_child, right_child) {
                        Some(e) => e.score,
                        None => 0,
                    };
                    assert(score == child_score(lv, rv, c, i - 1, j - 1));
                    let top = matrix_m[i - 1][j];
                    let diag = matrix_m[i - 1][j - 1];
                    let lft = row_m[j - 1];
                    proof {
                        lemma_table_cell(lv, rv, c, i as nat, j as nat);
                    }
                    let (value, dir) = best_step(lft, top, diag + score);
                    row_m.push(value);
                    row_d.push(dir);
                    row_w.push(w);
                    j = j + 1;
                }
                matrix_m.push(row_m);
                matrix_d.push(row_d);
                matrix_w.push(row_w);
                i = i + 1;
            }

            proof {
                lemma_ordered_total_bounded(lv, rv, c);
            }
            let total = matrix_m[m][n] + root_matching;
            let entry = MatchingEntry::new(left, right, total);
            let mut matchings = Matchings::from_single(left.id(), right.id(), entry);
            let ghost init = matchings@;
            assert(init == seq![
                record_for(
                    lv,
                    rv,
                    entry_for(lv, rv, (ordered_table(lv, rv, c, m as nat, n as nat) + root_matching) as nat),
                ),
            ]);
            let mut i: usize = m;
            let mut j: usize = n;
            while i >= 1 && j >= 1
                invariant
                    i <= m,
                    j <= n,
                    m == nchildren(lv),
                    n == nchildren(rv),
                    matrix_m@.len() == m + 1,
                    matrix_d@.len() == m + 1,
                    matrix_w@.len() == m + 1,
                    forall|ii: int| 0 <= ii <= m ==> #[trigger] matrix_m@[ii]@.len() == n + 1,
                    forall|ii: int| 0 <= ii <= m ==> #[trigger] matrix_d@[ii]@.len() == n + 1,
                    forall|ii: int| 0 <= ii <= m ==> #[trigger] matrix_w@[ii]@.len() == n + 1,
                    forall|ii: int, jj: int|
                        0 <= ii <= m && 0 <= jj <= n ==> #[trigger] matrix_m@[ii]@[jj]
                            == ordered_table(lv, rv, c, ii as nat, jj as nat),
                    forall|ii: int, jj: int|
                        1 <= ii <= m && 1 <= jj <= n ==> #[trigger] matrix_d@[ii]@[jj]
                            == ordered_direction(lv, rv, c, ii as nat, jj as nat),
                    forall|ii: int, jj: int|
                        1 <= ii <= m && 1 <= jj <= n ==> #[trigger] matrix_w@[ii]@[jj]@
                            == spec_matchings(
                            lv.spec_children()[ii - 1],
                            rv.spec_children()[jj - 1],
                            c,
                        ),
                    ordered_trace(lv, rv, c, i as nat, j as nat, matchings@) == ordered_trace(
                        lv,
                        rv,
                        c,
                        m as nat,
                        n as nat,
                        init,
                    ),
                decreases i + j,
            {
                let d = matrix_d[i][j];
                match d {
                    Direction::Top => {
                        i = i - 1;
                    },
                    Direction::Left => {
                        j = j - 1;
                    },
                    Direction::Diag => {
                        if matrix_m[i][j] > matrix_m[i - 1][j - 1] {
                            let w = matrix_w[i][j].duplicate();
                            matchings.extend(w);
                        }
                        i = i - 1;
                        j = j - 1;
                    },
                }
            }
            matchings
        },
        (_, _) => Matchings::empty(),
    }
}

} // verus!
