//! Unordered matching of children without labels: the pairing of children
//! with the largest total score, found by solving an assignment problem.
use crate::matching::bounds::{
    lemma_assignment_value_bound, lemma_child_limits, lemma_child_score_bounded,
    lemma_forest_size_prefix_le, lemma_limits_facts, lemma_weights_facts,
};
use crate::matching::calculate_matchings as calculate_child_matchings;
use crate::matching::kuhn_munkres::{
    kuhn_munkres, matrix_at, matrix_contents, matrix_from_rows, rows_view,
};
use crate::matching::matching_configuration::MatchingConfiguration;
use crate::matching::matchings::{MatchingEntry, Matchings};
use crate::matching::spec::{
    assignment_fold, assignment_is_best, assignment_size, assignment_value, assignment_weights, child_score,
    is_assignment, nchildren, spec_assignment_matchings, spec_matchings, within_matching_limits,
};
use crate::model::{forest_size, spec_contents, tree_size, CSTNode};
use vstd::prelude::*;

verus! {

/// Assignment matching of two inner nodes: nothing when their kinds differ.
pub fn calculate_matchings(left: &CSTNode, right: &CSTNode, cfg: &MatchingConfiguration) -> (res:
    Matchings)
    requires
        within_matching_limits(*left, *right),
        left is NonTerminal,
        right is NonTerminal,
    ensures
        res@ == spec_assignment_matchings(*left, *right, *cfg),
        left.spec_kind() == right.spec_kind() ==> assignment_is_best(*left, *right, *cfg),
    decreases *left, 5nat, 0nat, 0nat,
{
    let ghost lv = *left;
    let ghost rv = *right;
    let ghost c = *cfg;
    match (left, right) {
        (CSTNode::NonTerminal(l), CSTNode::NonTerminal(r)) => {
            if !left.same_kind(right) {
                return Matchings::empty();
            }
            let m = l.children.len();
            let n = r.children.len();
            let mut children_matchings: Vec<Vec<(usize, Matchings)>> = Vec::new();
            let mut i: usize = 0;
            while i < m
                invariant
                    i <= m,
                    m == nchildren(lv),
                    n == nchildren(rv),
                    lv == *left,
                    rv == *right,
                    c == *cfg,
                    left->NonTerminal_0 == *l,
                    right->NonTerminal_0 == *r,
                    within_matching_limits(lv, rv),
                    children_matchings@.len() == i,
                    forall|ii: int| 0 <= ii < i ==> #[trigger] children_matchings@[ii]@.len() == n,
                    forall|ii: int, jj: int|
                        0 <= ii < i && 0 <= jj < n ==> (#[trigger] children_matchings@[ii]@[jj]).0
                            == child_score(lv, rv, c, ii, jj) && children_matchings@[ii]@[jj].1@
                            == spec_matchings(lv.spec_children()[ii], rv.spec_children()[jj], c),
                decreases m - i,
            {
                let mut row: Vec<(usize, Matchings)> = Vec::new();
                let mut j: usize = 0;
                while j < n
                    invariant
                        i < m,
                        j <= n,
                        m == nchildren(lv),
                        n == nchildren(rv),
                        lv == *left,
                        rv == *right,
                        c == *cfg,
                        left->NonTerminal_0 == *l,
                        right->NonTerminal_0 == *r,
                        within_matching_limits(lv, rv),
                        row@.len() == j,
                        forall|jj: int|
                            0 <= jj < j ==> (#[trigger] row@[jj]).0 == child_score(
                                lv,
                                rv,
                                c,
                                i as int,
                                jj,
                            ) && row@[jj].1@ == spec_matchings(
                                lv.spec_children()[i as int],
                                rv.spec_children()[jj],
                                c,
                            ),
                    decreases n - j,
                {
                    let left_child = &l.children[i];
                    let right_child = &r.children[j];
                    proof {
                        lemma_child_limits(lv, rv, i as int, j as int);
                    }
                    let w = calculate_child_matchings(left_child, right_child, cfg);
                    let score: usize = match w.get_matching_entry(left_child, right_child) {
                        Some(e) => e.score,
                        None => 0,
                    };
                    row.push((score, w));
                    j = j + 1;
                }
                children_matchings.push(row);
                i = i + 1;
            }
            solve_assignment_problem(left, right, n, children_matchings, Ghost(c))
        },
        (_, _) => Matchings::empty(),
    }
}

/// Solves the assignment problem on the scores of all pairs of children:
/// the matchings of the assigned pairs that score are kept, and the roots
/// score the total of the assignment plus one.
fn solve_assignment_problem(
    left: &CSTNode,
    right: &CSTNode,
    n: usize,
    children_matchings: Vec<Vec<(usize, Matchings)>>,
    Ghost(c): Ghost<MatchingConfiguration>,
) -> (res: Matchings)
    requires
        within_matching_limits(*left, *right),
        left is NonTerminal,
        right is NonTerminal,
        left.spec_kind() == right.spec_kind(),
        children_matchings@.len() == nchildren(*left),
        n == nchildren(*right),
        forall|ii: int| 0 <= ii < nchildren(*left) ==> #[trigger] children_matchings@[ii]@.len() == n,
        forall|ii: int, jj: int|
            0 <= ii < nchildren(*left) && 0 <= jj < n ==> (#[trigger] children_matchings@[ii]@[jj]).0
                == child_score(*left, *right, c, ii, jj) && children_matchings@[ii]@[jj].1@
                == spec_matchings(left.spec_children()[ii], right.spec_children()[jj], c),
    ensures
        res@ == spec_assignment_matchings(*left, *right, c),
        assignment_is_best(*left, *right, c),
{
    let ghost lv = *left;
    let ghost rv = *right;
    let m = children_matchings.len();
    let size = if m >= n {
        m
    } else {
        n
    };
    let ghost w = assignment_weights(lv, rv, c);
    proof {
        lemma_limits_facts(lv, rv);
        lemma_weights_facts(lv, rv, c);
    }
    assert(size == assignment_size(lv, rv));
    assert forall|ii: int, jj: int| 0 <= ii < m && 0 <= jj < n implies child_score(
        lv,
        rv,
        c,
        ii,
        jj,
    ) <= tree_size(lv.spec_children()[ii]) * tree_size(rv.spec_children()[jj]) by {
        lemma_child_score_bounded(lv, rv, c, ii, jj);
    }
    let mut matrix: Vec<Vec<i128>> = Vec::new();
    let mut i: usize = 0;
    while i < size
        invariant
            i <= size,
            size == assignment_size(lv, rv),
            m == nchildren(lv),
            n == nchildren(rv),
            w == assignment_weights(lv, rv, c),
            w.len() == size,
            forall|k: int| 0 <= k < size ==> #[trigger] w[k].len() == size,
            forall|ii: int, jj: int|
                0 <= ii < m && 0 <= jj < n ==> #[trigger] w[ii][jj] == child_score(
                    lv,
                    rv,
                    c,
                    ii,
                    jj,
                ),
            forall|ii: int, jj: int|
                0 <= ii < size && 0 <= jj < size && !(ii < m && jj < n) ==> #[trigger] w[ii][jj]
                    == 0,
            forall|ii: int, jj: int|
                0 <= ii < m && 0 <= jj < n ==> child_score(lv, rv, c, ii, jj) <= tree_size(
                    lv.spec_children()[ii],
                ) * tree_size(rv.spec_children()[jj]),
            children_matchings@.len() == m,
            forall|ii: int| 0 <= ii < m ==> #[trigger] children_matchings@[ii]@.len() == n,
            forall|ii: int, jj: int|
                0 <= ii < m && 0 <= jj < n ==> (#[trigger] children_matchings@[ii]@[jj]).0
                    == child_score(lv, rv, c, ii, jj),
            within_matching_limits(lv, rv),
            matrix@.len() == i,
            forall|k: int| 0 <= k < i ==> #[trigger] matrix@[k]@ == w[k],
        decreases size - i,
    {
        let mut row: Vec<i128> = Vec::new();
        let mut j: usize = 0;
        while j < size
            invariant
                i < size,
                j <= size,
                size == assignment_size(lv, rv),
                m == nchildren(lv),
                n == nchildren(rv),
                w.len() == size,
                forall|k: int| 0 <= k < size ==> #[trigger] w[k].len() == size,
                forall|ii: int, jj: int|
                    0 <= ii < m && 0 <= jj < n ==> #[trigger] w[ii][jj] == child_score(
                        lv,
                        rv,
                        c,
                        ii,
                        jj,
                    ),
                forall|ii: int, jj: int|
                    0 <= ii < size && 0 <= jj < size && !(ii < m && jj < n) ==> #[trigger] w[ii][jj]
                        == 0,
                children_matchings@.len() == m,
                forall|ii: int| 0 <= ii < m ==> #[trigger] children_matchings@[ii]@.len() == n,
                forall|ii: int, jj: int|
                    0 <= ii < m && 0 <= jj < n ==> (#[trigger] children_matchings@[ii]@[jj]).0
                        == child_score(lv, rv, c, ii, jj),
                forall|ii: int, jj: int|
                    0 <= ii < m && 0 <= jj < n ==> child_score(lv, rv, c, ii, jj) <= tree_size(
                        lv.spec_children()[ii],
                    ) * tree_size(rv.spec_children()[jj]),
                within_matching_limits(lv, rv),
                row@.len() == j,
                forall|k: int| 0 <= k < j ==> #[trigger] row@[k] == w[i as int][k],
            decreases size - j,
        {
            if i < m && j < n {
                proof {
                    lemma_child_limits(lv, rv, i as int, j as int);
                    lemma_limits_facts(lv, rv);
                }
                let v = children_matchings[i][j].0;
                assert(v <= tree_size(lv) * tree_size(rv));
                row.push(v as i128);
            } else {
                row.push(0);
            }
            j = j + 1;
        }
        assert(row@ =~= w[i as int]);
        matrix.push(row);
        i = i + 1;
    }
    assert(rows_view(matrix@) =~= w);
    let weights_matrix = match matrix_from_rows(matrix) {
        Some(mx) => mx,
        None => {
            assert(false);
            return Matchings::empty();
        },
    };
    let (max_matching, best_matches) = kuhn_munkres(&weights_matrix);
    let ghost a = best_matches@;
    proof {
        lemma_assignment_value_bound(lv, rv, c, a, size as nat);
        let t = if size <= m {
            size as int
        } else {
            m as int
        };
        lemma_forest_size_prefix_le(lv.spec_children(), t);
        let ft = forest_size(lv.spec_children().take(t)) as int;
        let fl = forest_size(lv.spec_children()) as int;
        let fr = forest_size(rv.spec_children()) as int;
        crate::matching::bounds::lemma_tree_size_positive(lv);
        assert(ft * fr + 1 <= (1 + fl) * (1 + fr)) by (nonlinear_arith)
            requires
                0 <= ft <= fl,
                0 <= fr,
        ;
        assert(tree_size(lv) == 1 + fl);
        assert(tree_size(rv) == 1 + fr);
        assert(max_matching == assignment_value(w, a, size as nat));
        assert(0 <= max_matching <= ft * fr);
    }
    let mut result = Matchings::empty();
    let mut k: usize = 0;
    while k < best_matches.len()
        invariant
            k <= best_matches@.len(),
            a == best_matches@,
            is_assignment(a, size as nat, size as nat),
            size == assignment_size(lv, rv),
            m == nchildren(lv),
            n == nchildren(rv),
            w == assignment_weights(lv, rv, c),
            matrix_contents(weights_matrix) == w,
            w.len() == size,
            forall|kk: int| 0 <= kk < size ==> #[trigger] w[kk].len() == size,
            forall|ii: int, jj: int|
                0 <= ii < size && 0 <= jj < size && !(ii < m && jj < n) ==> #[trigger] w[ii][jj]
                    == 0,
            children_matchings@.len() == m,
            forall|ii: int| 0 <= ii < m ==> #[trigger] children_matchings@[ii]@.len() == n,
            forall|ii: int, jj: int|
                0 <= ii < m && 0 <= jj < n ==> (#[trigger] children_matchings@[ii]@[jj]).1@
                    == spec_matchings(lv.spec_children()[ii], rv.spec_children()[jj], c),
            result@ == assignment_fold(lv, rv, c, w, a, k as nat),
        decreases best_matches@.len() - k,
    {
        let j = best_matches[k];
        let cur_matching = matrix_at(&weights_matrix, k, j);
        if cur_matching > 0 {
            assert(k < m && j < n);
            let cm = children_matchings[k][j].1.duplicate();
            result.extend(cm);
        }
        k = k + 1;
    }
    let score = (max_matching as usize) + 1;
    let is_perfect_match = left.contents() == right.contents();
    result.insert(left.id(), right.id(), MatchingEntry { score, is_perfect_match });
    assert(spec_contents(lv) == spec_contents(rv) <==> is_perfect_match);
    result
}

} // verus!
