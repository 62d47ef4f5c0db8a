//! Unordered matching of children that carry labels: every pair of children
//! is matched, and the pairs that match add up.
use crate::matching::bounds::{
    lemma_child_limits, lemma_limits_facts, lemma_unique_label_bounded,
    lemma_unique_label_state_bounded,
};
use crate::matching::calculate_matchings as calculate_child_matchings;
use crate::matching::matching_configuration::MatchingConfiguration;
use crate::matching::matchings::{MatchingEntry, Matchings};
use crate::matching::spec::{
    nchildren, spec_unique_label_matchings, unique_label_state, unique_label_step,
    within_matching_limits,
};
use crate::model::{forest_size, spec_contents, tree_size, CSTNode};
use vstd::prelude::*;

verus! {

/// Unique-label matching of two inner nodes.
pub fn calculate_matchings(left: &CSTNode, right: &CSTNode, cfg: &MatchingConfiguration) -> (res:
    Matchings)
    requires
        within_matching_limits(*left, *right),
        left is NonTerminal,
        right is NonTerminal,
    ensures
        res@ == spec_unique_label_matchings(*left, *right, *cfg),
    decreases *left, 5nat, 0nat, 0nat,
{
    let ghost lv = *left;
    let ghost rv = *right;
    let ghost c = *cfg;
    proof {
        lemma_limits_facts(lv, rv);
        lemma_unique_label_bounded(lv, rv, c);
    }
    match (left, right) {
        (CSTNode::NonTerminal(l), CSTNode::NonTerminal(r)) => {
            let root_matching: usize = if left.same_kind(right) {
                1
            } else {
                0
            };
            let m = l.children.len();
            let n = r.children.len();
            let mut sum: usize = 0;
            let mut result = Matchings::empty();
            let mut i: usize = 0;
            while i < m
                invariant
                    i <= m,
                    m == nchildren(lv),
                    n == nchildren(rv),
                    lv == *left,
                    rv == *right,
                    c == *cfg,
                    left->NonTerminal_0 == *l,
                    right->NonTerminal_0 == *r,
                    within_matching_limits(lv, rv),
                    (sum as nat, result@) == unique_label_state(lv, rv, c, i as nat, 0),
                decreases m - i,
            {
                let mut j: usize = 0;
                while j < n
                    invariant
                        i < m,
                        j <= n,
                        m == nchildren(lv),
                        n == nchildren(rv),
                        lv == *left,
                        rv == *right,
                        c == *cfg,
                        left->NonTerminal_0 == *l,
                        right->NonTerminal_0 == *r,
                        within_matching_limits(lv, rv),
                        (sum as nat, result@) == unique_label_state(lv, rv, c, i as nat, j as nat),
                    decreases n - j,
                {
                    let child_left = &l.children[i];
                    let child_right = &r.children[j];
                    proof {
                        lemma_child_limits(lv, rv, i as int, j as int);
                        lemma_limits_facts(lv, rv);
                        lemma_unique_label_state_bounded(lv, rv, c, i as nat, (j + 1) as nat);
                        lemma_unique_label_bounded(lv, rv, c);
                        crate::matching::bounds::lemma_forest_size_prefix_le(
                            lv.spec_children(),
                            i + 1,
                        );
                        crate::matching::bounds::lemma_forest_take_step(
                            lv.spec_children(),
                            i + 1,
                        );
                        crate::matching::bounds::lemma_forest_size_prefix_le(
                            rv.spec_children(),
                            j + 1,
                        );
                        let fi = forest_size(lv.spec_children().take(i as int)) as int;
                        let fi1 = forest_size(lv.spec_children().take(i + 1)) as int;
                        let fl = forest_size(lv.spec_children()) as int;
                        let g = forest_size(rv.spec_children()) as int;
                        let gj = forest_size(rv.spec_children().take(j + 1)) as int;
                        let sa = tree_size(lv.spec_children()[i as int]) as int;
                        assert(fi * g + sa * gj <= fl * g) by (nonlinear_arith)
                            requires
                                fi1 == fi + sa,
                                fi1 <= fl,
                                0 <= gj <= g,
                                0 <= sa,
                                0 <= fi,
                        ;
                        assert(fl * g <= tree_size(lv) * tree_size(rv)) by (nonlinear_arith)
                            requires
                                0 <= fl < tree_size(lv),
                                0 <= g < tree_size(rv),
                        ;
                        crate::matching::bounds::lemma_child_size(lv, 0);
                        crate::matching::bounds::lemma_child_size(rv, 0);
                    }
                    let child_matchings = calculate_child_matchings(child_left, child_right, cfg);
                    let ghost before = (sum as nat, result@);
                    match child_matchings.get_matching_entry(child_left, child_right) {
                        Some(matching_entry) => {
                            if matching_entry.score >= 1 {
                                assert(unique_label_state(lv, rv, c, i as nat, (j + 1) as nat)
                                    == unique_label_step(lv, rv, c, before, i as int, j as int));
                                assert(sum + matching_entry.score == unique_label_state(
                                    lv,
                                    rv,
                                    c,
                                    i as nat,
                                    (j + 1) as nat,
                                ).0);
                                sum = sum + matching_entry.score;
                                result.extend(child_matchings);
                            }
                        },
                        None => {},
                    }
                    assert((sum as nat, result@) == unique_label_step(
                        lv,
                        rv,
                        c,
                        before,
                        i as int,
                        j as int,
                    ));
                    j = j + 1;
                }
                i = i + 1;
            }
            let score = sum + root_matching;
            let is_perfect_match = left.contents() == right.contents();
            result.insert(left.id(), right.id(), MatchingEntry { score, is_perfect_match });
            assert(spec_contents(lv) == spec_contents(rv) <==> is_perfect_match);
            result
        },
        (_, _) => Matchings::empty(),
    }
}

} // verus!
