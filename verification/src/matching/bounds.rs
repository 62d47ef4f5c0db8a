//! Every score that matching computes is at most the product of the sizes
//! of the two trees, which keeps the arithmetic inside its integer types.
use crate::matching::matchings::{
    lemma_find_key_bounds, lookup, lookup_score, spec_extend, spec_insert, MatchingRecord,
};
use crate::matching::spec::{
    assignment_fold, assignment_size, assignment_value, assignment_weights, child_score, entry_for,
    is_assignment, kuhn_munkres_assignment, nchildren, ordered_direction, ordered_root_score,
    ordered_table, ordered_trace, record_for, spec_assignment_matchings, spec_matchings,
    spec_ordered_matchings, spec_unique_label_matchings, spec_unordered_matchings,
    unique_label_state, unique_label_step, within_matching_limits, Direction,
};
use crate::matching_handlers::{handler_for, spec_compute_score, spec_handler_score, MatchingHandler};
use crate::matching::matching_configuration::MatchingConfiguration;
use crate::model::{forest_size, lemma_forest_size_member, tree_size, CSTNode};
use vstd::prelude::*;

verus! {

/// Every stored score is at most `b`.
pub open spec fn all_bounded(s: Seq<MatchingRecord>, b: nat) -> bool {
    forall|k: int| 0 <= k < s.len() ==> #[trigger] s[k].entry.score <= b
}

pub proof fn lemma_insert_bounded(s: Seq<MatchingRecord>, r: MatchingRecord, b: nat)
    requires
        all_bounded(s, b),
        r.entry.score <= b,
    ensures
        all_bounded(spec_insert(s, r), b),
{
    lemma_find_key_bounds(s, r.left, r.right);
}

pub proof fn lemma_extend_bounded(s: Seq<MatchingRecord>, t: Seq<MatchingRecord>, b: nat)
    requires
        all_bounded(s, b),
        all_bounded(t, b),
    ensures
        all_bounded(spec_extend(s, t), b),
    decreases t.len(),
{
    if t.len() > 0 {
        lemma_extend_bounded(s, t.drop_last(), b);
        lemma_insert_bounded(spec_extend(s, t.drop_last()), t.last(), b);
    }
}

pub proof fn lemma_lookup_bounded(s: Seq<MatchingRecord>, x: u128, y: u128, b: nat)
    requires
        all_bounded(s, b),
        0 <= b,
    ensures
        lookup_score(s, x, y) <= b,
        lookup(s, x, y) matches Some(e) ==> e.score <= b,
{
    lemma_find_key_bounds(s, x, y);
}

pub proof fn lemma_tree_size_positive(n: CSTNode)
    ensures
        tree_size(n) >= 1,
{
}

/// A child is smaller than its parent.
pub proof fn lemma_child_size(n: CSTNode, i: int)
    requires
        0 <= i < nchildren(n),
    ensures
        tree_size(n.spec_children()[i]) < tree_size(n),
        tree_size(n) == 1 + forest_size(n.spec_children()),
{
    lemma_forest_size_member(n.spec_children(), i);
}

pub proof fn lemma_limits_facts(l: CSTNode, r: CSTNode)
    requires
        within_matching_limits(l, r),
    ensures
        tree_size(l) >= 1,
        tree_size(r) >= 1,
        tree_size(l) + tree_size(r) <= usize::MAX,
        2 * (tree_size(l) * tree_size(r)) + 2 <= usize::MAX,
        tree_size(l) * tree_size(r) <= i128::MAX,
        tree_size(l) * tree_size(r) <= (tree_size(l) + tree_size(r)) * (tree_size(l) + tree_size(
            r,
        )),
        4 * (tree_size(l) + tree_size(r)) * (tree_size(l) + tree_size(r)) * (tree_size(l)
            + tree_size(r)) <= i128::MAX,
        nchildren(l) < tree_size(l),
        nchildren(r) < tree_size(r),
{
    lemma_tree_size_positive(l);
    lemma_tree_size_positive(r);
    let a = tree_size(l) as int;
    let b = tree_size(r) as int;
    let s = a + b;
    let u = usize::MAX as int;
    assert(u <= 0xffff_ffff_ffff_ffff);
    assert(s * s <= u);
    assert(a * b <= s * s) by (nonlinear_arith)
        requires
            a >= 1,
            b >= 1,
            s == a + b,
    ;
    assert(s <= s * s) by (nonlinear_arith)
        requires
            s >= 1,
    ;
    assert(2 * (a * b) + 2 <= s * s) by (nonlinear_arith)
        requires
            a >= 1,
            b >= 1,
            s == a + b,
    ;
    assert(s <= 0x1_0000_0000) by (nonlinear_arith)
        requires
            s * s <= 0xffff_ffff_ffff_ffff,
            s >= 0,
    ;
    assert(4 * s * s * s <= 4 * 0x1_0000_0000 * 0x1_0000_0000 * 0x1_0000_0000) by (nonlinear_arith)
        requires
            0 <= s <= 0x1_0000_0000,
    ;
    lemma_children_count(l);
    lemma_children_count(r);
}

/// A node has fewer children than nodes.
pub proof fn lemma_children_count(n: CSTNode)
    ensures
        nchildren(n) < tree_size(n),
{
    if n is NonTerminal {
        crate::model::lemma_forest_size_count(n.spec_children());
    }
}

/// A pair of children stays within the limits, and their sizes multiply to
/// no more than their parents' sizes.
pub proof fn lemma_child_limits(l: CSTNode, r: CSTNode, i: int, j: int)
    requires
        within_matching_limits(l, r),
        0 <= i < nchildren(l),
        0 <= j < nchildren(r),
    ensures
        within_matching_limits(l.spec_children()[i], r.spec_children()[j]),
        tree_size(l.spec_children()[i]) * tree_size(r.spec_children()[j]) <= tree_size(l)
            * tree_size(r),
{
    lemma_child_size(l, i);
    lemma_child_size(r, j);
    let a = tree_size(l.spec_children()[i]) as int;
    let b = tree_size(r.spec_children()[j]) as int;
    let x = tree_size(l) as int;
    let y = tree_size(r) as int;
    assert(a * b <= x * y) by (nonlinear_arith)
        requires
            0 <= a <= x,
            0 <= b <= y,
    ;
    let s = a + b;
    let t = x + y;
    assert(s * s <= t * t) by (nonlinear_arith)
        requires
            0 <= s <= t,
    ;
}

/// Handler scores are zero or one.
pub proof fn lemma_handler_score_small(h: MatchingHandler, l: CSTNode, r: CSTNode)
    ensures
        spec_handler_score(h, l, r) <= 1,
{
}

/// The score of the two roots in ordered matching is zero or one.
pub proof fn lemma_root_score_small(l: CSTNode, r: CSTNode, c: MatchingConfiguration)
    ensures
        ordered_root_score(l, r, c) <= 1,
        spec_compute_score(c.handlers@, l, r) matches Some(v) ==> v <= 1,
{
    match handler_for(c.handlers@, l.spec_kind()) {
        Some(h) => lemma_handler_score_small(h, l, r),
        None => {},
    }
}

pub proof fn lemma_forest_take_step(s: Seq<CSTNode>, i: int)
    requires
        0 < i <= s.len(),
    ensures
        forest_size(s.take(i)) == forest_size(s.take(i - 1)) + tree_size(s[i - 1]),
{
    assert(s.take(i).drop_last() =~= s.take(i - 1));
}

pub proof fn lemma_forest_take_all(s: Seq<CSTNode>)
    ensures
        forest_size(s.take(s.len() as int)) == forest_size(s),
        forest_size(s.take(0)) == 0,
{
    assert(s.take(s.len() as int) =~= s);
    assert(s.take(0) =~= Seq::<CSTNode>::empty());
}

/// Every entry in the matchings of two trees scores at most the product of
/// their sizes.
pub proof fn lemma_matchings_bounded(l: CSTNode, r: CSTNode, c: MatchingConfiguration)
    requires
        within_matching_limits(l, r),
    ensures
        all_bounded(spec_matchings(l, r, c), tree_size(l) * tree_size(r)),
    decreases l, 7nat, 0nat, 0nat,
{
    lemma_limits_facts(l, r);
    match (l, r) {
        (CSTNode::NonTerminal(_), CSTNode::NonTerminal(_)) => {
            if l.spec_unordered() && r.spec_unordered() {
                lemma_unordered_bounded(l, r, c);
            } else {
                lemma_ordered_bounded(l, r, c);
            }
        },
        _ => {},
    }
}

pub proof fn lemma_child_score_bounded(
    l: CSTNode,
    r: CSTNode,
    c: MatchingConfiguration,
    i: int,
    j: int,
)
    requires
        within_matching_limits(l, r),
        0 <= i < nchildren(l),
        0 <= j < nchildren(r),
    ensures
        child_score(l, r, c, i, j) <= tree_size(l.spec_children()[i]) * tree_size(
            r.spec_children()[j],
        ),
        all_bounded(
            spec_matchings(l.spec_children()[i], r.spec_children()[j], c),
            tree_size(l.spec_children()[i]) * tree_size(r.spec_children()[j]),
        ),
    decreases l, 3nat, 0nat, 0nat,
{
    let a = l.spec_children()[i];
    let b = r.spec_children()[j];
    lemma_child_limits(l, r, i, j);
    lemma_matchings_bounded(a, b, c);
    lemma_lookup_bounded(spec_matchings(a, b, c), a.spec_id(), b.spec_id(), tree_size(a) * tree_size(b));
}

/// The table of ordered matching is bounded by the product of the sizes of
/// the children it has seen.
pub proof fn lemma_table_bound(l: CSTNode, r: CSTNode, c: MatchingConfiguration, i: nat, j: nat)
    requires
        within_matching_limits(l, r),
        i <= nchildren(l),
        j <= nchildren(r),
    ensures
        ordered_table(l, r, c, i, j) <= forest_size(l.spec_children().take(i as int))
            * forest_size(r.spec_children().take(j as int)),
    decreases l, 4nat, i, j,
{
    let ls = l.spec_children();
    let rs = r.spec_children();
    if i == 0 || j == 0 {
        assert(ls.take(0) =~= Seq::<CSTNode>::empty());
        assert(rs.take(0) =~= Seq::<CSTNode>::empty());
        let x = forest_size(ls.take(i as int)) as int;
        let y = forest_size(rs.take(j as int)) as int;
        assert(0 <= x * y) by (nonlinear_arith)
            requires
                0 <= x,
                0 <= y,
        ;
    } else {
        lemma_table_bound(l, r, c, i, (j - 1) as nat);
        lemma_table_bound(l, r, c, (i - 1) as nat, j);
        lemma_table_bound(l, r, c, (i - 1) as nat, (j - 1) as nat);
        lemma_child_score_bounded(l, r, c, i - 1, j - 1);
        lemma_forest_take_step(ls, i as int);
        lemma_forest_take_step(rs, j as int);
        let fi = forest_size(ls.take(i as int)) as int;
        let fi1 = forest_size(ls.take(i - 1)) as int;
        let gj = forest_size(rs.take(j as int)) as int;
        let gj1 = forest_size(rs.take(j - 1)) as int;
        let a = tree_size(ls[i - 1]) as int;
        let b = tree_size(rs[j - 1]) as int;
        assert(fi * gj1 <= fi * gj) by (nonlinear_arith)
            requires
                0 <= fi,
                0 <= gj1 <= gj,
        ;
        assert(fi1 * gj <= fi * gj) by (nonlinear_arith)
            requires
                0 <= gj,
                0 <= fi1 <= fi,
        ;
        assert(fi1 * gj1 + a * b <= fi * gj) by (nonlinear_arith)
            requires
                fi == fi1 + a,
                gj == gj1 + b,
                0 <= fi1,
                0 <= gj1,
                0 <= a,
                0 <= b,
        ;
    }
}

/// The values that the exec table computes stay within the product of the
/// forest sizes.
pub proof fn lemma_ordered_table_bounded(
    l: CSTNode,
    r: CSTNode,
    c: MatchingConfiguration,
    i: nat,
    j: nat,
)
    requires
        within_matching_limits(l, r),
        1 <= i <= nchildren(l),
        1 <= j <= nchildren(r),
    ensures
        ordered_table(l, r, c, (i - 1) as nat, (j - 1) as nat) + child_score(l, r, c, i - 1, j - 1)
            <= forest_size(l.spec_children()) * forest_size(r.spec_children()),
        ordered_table(l, r, c, i, j) <= forest_size(l.spec_children()) * forest_size(
            r.spec_children(),
        ),
        forest_size(l.spec_children()) * forest_size(r.spec_children()) + 1 <= tree_size(l)
            * tree_size(r),
        tree_size(l) * tree_size(r) <= usize::MAX,
{
    let ls = l.spec_children();
    let rs = r.spec_children();
    lemma_limits_facts(l, r);
    lemma_child_size(l, 0);
    lemma_child_size(r, 0);
    lemma_table_bound(l, r, c, i, j);
    lemma_table_bound(l, r, c, (i - 1) as nat, (j - 1) as nat);
    lemma_child_score_bounded(l, r, c, i - 1, j - 1);
    lemma_forest_take_step(ls, i as int);
    lemma_forest_take_step(rs, j as int);
    lemma_forest_size_prefix_le(ls, i as int);
    lemma_forest_size_prefix_le(rs, j as int);
    let fl = forest_size(ls) as int;
    let fr = forest_size(rs) as int;
    let fi = forest_size(ls.take(i as int)) as int;
    let fi1 = forest_size(ls.take(i - 1)) as int;
    let gj = forest_size(rs.take(j as int)) as int;
    let gj1 = forest_size(rs.take(j - 1)) as int;
    let a = tree_size(ls[i - 1]) as int;
    let b = tree_size(rs[j - 1]) as int;
    assert(fi1 * gj1 + a * b <= fi * gj) by (nonlinear_arith)
        requires
            fi == fi1 + a,
            gj == gj1 + b,
            0 <= fi1,
            0 <= gj1,
            0 <= a,
            0 <= b,
    ;
    assert(fi * gj <= fl * fr) by (nonlinear_arith)
        requires
            0 <= fi <= fl,
            0 <= gj <= fr,
    ;
    assert(fl * fr + 1 <= (1 + fl) * (1 + fr)) by (nonlinear_arith)
        requires
            0 <= fl,
            0 <= fr,
    ;
}

pub proof fn lemma_forest_size_prefix_le(s: Seq<CSTNode>, i: int)
    requires
        0 <= i <= s.len(),
    ensures
        forest_size(s.take(i)) <= forest_size(s),
{
    crate::model::lemma_forest_size_prefix(s, i);
}

pub proof fn lemma_ordered_bounded(l: CSTNode, r: CSTNode, c: MatchingConfiguration)
    requires
        within_matching_limits(l, r),
        l is NonTerminal,
        r is NonTerminal,
    ensures
        all_bounded(spec_ordered_matchings(l, r, c), tree_size(l) * tree_size(r)),
    decreases l, 6nat, 0nat, 0nat,
{
    let root = ordered_root_score(l, r, c);
    lemma_root_score_small(l, r, c);
    lemma_limits_facts(l, r);
    if root != 0 {
        let m = nchildren(l);
        let n = nchildren(r);
        lemma_ordered_total_bounded(l, r, c);
        let p = tree_size(l) * tree_size(r);
        let total = ordered_table(l, r, c, m, n) + root;
        assert(total <= p);
        let init = seq![record_for(l, r, entry_for(l, r, total))];
        assert(init[0].entry.score == total);
        lemma_trace_bounded(l, r, c, m, n, init);
    }
}

/// The best total of the children in ordered matching, plus one for the
/// roots, is at most the product of the sizes of the two trees.
pub proof fn lemma_ordered_total_bounded(l: CSTNode, r: CSTNode, c: MatchingConfiguration)
    requires
        within_matching_limits(l, r),
        l is NonTerminal,
        r is NonTerminal,
    ensures
        ordered_table(l, r, c, nchildren(l), nchildren(r)) + 1 <= tree_size(l) * tree_size(r),
    decreases l, 4nat, nchildren(l) + 1, 0nat,
{
    let m = nchildren(l);
    let n = nchildren(r);
    let ls = l.spec_children();
    let rs = r.spec_children();
    lemma_table_bound(l, r, c, m, n);
    lemma_forest_take_all(ls);
    lemma_forest_take_all(rs);
    let fl = forest_size(ls) as int;
    let fr = forest_size(rs) as int;
    assert(tree_size(l) == 1 + fl);
    assert(tree_size(r) == 1 + fr);
    assert(fl * fr + 1 <= (1 + fl) * (1 + fr)) by (nonlinear_arith)
        requires
            0 <= fl,
            0 <= fr,
    ;
}

pub proof fn lemma_trace_bounded(
    l: CSTNode,
    r: CSTNode,
    c: MatchingConfiguration,
    i: nat,
    j: nat,
    acc: Seq<MatchingRecord>,
)
    requires
        within_matching_limits(l, r),
        all_bounded(acc, tree_size(l) * tree_size(r)),
    ensures
        all_bounded(ordered_trace(l, r, c, i, j, acc), tree_size(l) * tree_size(r)),
    decreases l, 5nat, i, j,
{
    if i == 0 || j == 0 || i > nchildren(l) || j > nchildren(r) {
    } else {
        match ordered_direction(l, r, c, i, j) {
            Direction::Top => lemma_trace_bounded(l, r, c, (i - 1) as nat, j, acc),
            Direction::Left => lemma_trace_bounded(l, r, c, i, (j - 1) as nat, acc),
            Direction::Diag => {
                let a = l.spec_children()[i - 1];
                let b = r.spec_children()[j - 1];
                let p = tree_size(l) * tree_size(r);
                lemma_child_limits(l, r, i - 1, j - 1);
                lemma_matchings_bounded(a, b, c);
                let cm = spec_matchings(a, b, c);
                assert(all_bounded(cm, p));
                lemma_extend_bounded(acc, cm, p);
                let next = if ordered_table(l, r, c, i, j) > ordered_table(
                    l,
                    r,
                    c,
                    (i - 1) as nat,
                    (j - 1) as nat,
                ) {
                    spec_extend(acc, cm)
                } else {
                    acc
                };
                lemma_trace_bounded(l, r, c, (i - 1) as nat, (j - 1) as nat, next);
            },
        }
    }
}

pub proof fn lemma_unordered_bounded(l: CSTNode, r: CSTNode, c: MatchingConfiguration)
    requires
        within_matching_limits(l, r),
        l is NonTerminal,
        r is NonTerminal,
    ensures
        all_bounded(spec_unordered_matchings(l, r, c), tree_size(l) * tree_size(r)),
    decreases l, 6nat, 0nat, 0nat,
{
    if c.spec_all_children_labeled(l) && c.spec_all_children_labeled(r) {
        lemma_unique_label_bounded(l, r, c);
    } else {
        lemma_assignment_bounded(l, r, c);
    }
}

/// The sum of unique-label matching grows by at most the size of the left
/// child times the sizes of the right children it has been paired with.
pub proof fn lemma_unique_label_state_bounded(
    l: CSTNode,
    r: CSTNode,
    c: MatchingConfiguration,
    i: nat,
    j: nat,
)
    requires
        within_matching_limits(l, r),
        l is NonTerminal,
        r is NonTerminal,
        i <= nchildren(l),
        j <= nchildren(r),
        j > 0 ==> i < nchildren(l),
    ensures
        unique_label_state(l, r, c, i, j).0 <= forest_size(l.spec_children().take(i as int))
            * forest_size(r.spec_children()) + (if j > 0 {
            tree_size(l.spec_children()[i as int]) * forest_size(
                r.spec_children().take(j as int),
            )
        } else {
            0
        }),
        all_bounded(unique_label_state(l, r, c, i, j).1, tree_size(l) * tree_size(r)),
    decreases l, 4nat, i, j,
{
    let ls = l.spec_children();
    let rs = r.spec_children();
    let p = tree_size(l) * tree_size(r);
    lemma_limits_facts(l, r);
    let g = forest_size(rs) as int;
    if j == 0 {
        if i == 0 {
            assert(ls.take(0) =~= Seq::<CSTNode>::empty());
            assert(0 <= 0 * g);
        } else {
            lemma_unique_label_state_bounded(l, r, c, (i - 1) as nat, nchildren(r));
            lemma_forest_take_all(rs);
            lemma_forest_take_step(ls, i as int);
            let fi = forest_size(ls.take(i as int)) as int;
            let fi1 = forest_size(ls.take(i - 1)) as int;
            let a = tree_size(ls[i - 1]) as int;
            let prev = unique_label_state(l, r, c, (i - 1) as nat, nchildren(r));
            assert(unique_label_state(l, r, c, i, j) == prev);
            assert(prev.0 <= fi1 * g + a * g) by {
                if nchildren(r) > 0 {
                    assert(rs.take(nchildren(r) as int) =~= rs);
                } else {
                    assert(g == 0);
                    assert(a * g == 0) by (nonlinear_arith)
                        requires
                            g == 0,
                    ;
                }
            }
            assert(fi1 * g + a * g == fi * g) by (nonlinear_arith)
                requires
                    fi == fi1 + a,
            ;
        }
    } else {
        lemma_unique_label_state_bounded(l, r, c, i, (j - 1) as nat);
        let st = unique_label_state(l, r, c, i, (j - 1) as nat);
        lemma_child_score_bounded(l, r, c, i as int, j - 1);
        let a = ls[i as int];
        let b = rs[j - 1];
        let cm = spec_matchings(a, b, c);
        let sa = tree_size(a) as int;
        let sb = tree_size(b) as int;
        lemma_child_limits(l, r, i as int, j - 1);
        lemma_lookup_bounded(cm, a.spec_id(), b.spec_id(), tree_size(a) * tree_size(b));
        assert(all_bounded(cm, p)) by {
            assert forall|k: int| 0 <= k < cm.len() implies #[trigger] cm[k].entry.score <= p by {
                assert(cm[k].entry.score <= tree_size(a) * tree_size(b));
            }
        }
        lemma_extend_bounded(st.1, cm, p);
        lemma_forest_take_step(rs, j as int);
        let gj = forest_size(rs.take(j as int)) as int;
        let gj1 = forest_size(rs.take(j - 1)) as int;
        assert(rs.take(0) =~= Seq::<CSTNode>::empty());
        assert(sa * gj1 + sa * sb == sa * gj) by (nonlinear_arith)
            requires
                gj == gj1 + sb,
        ;
        assert(0 <= sa * gj1) by (nonlinear_arith)
            requires
                0 <= sa,
                0 <= gj1,
        ;
        assert(st.0 <= forest_size(ls.take(i as int)) * g + sa * gj1) by {
            if j - 1 == 0 {
                assert(gj1 == 0);
                assert(sa * gj1 == 0) by (nonlinear_arith)
                    requires
                        gj1 == 0,
                ;
            }
        }
        let next = unique_label_state(l, r, c, i, j);
        assert(next == unique_label_step(l, r, c, st, i as int, j - 1));
        match lookup(cm, a.spec_id(), b.spec_id()) {
            Some(e) => {
                assert(e.score <= sa * sb);
            },
            None => {},
        }
    }
}

pub proof fn lemma_unique_label_bounded(l: CSTNode, r: CSTNode, c: MatchingConfiguration)
    requires
        within_matching_limits(l, r),
        l is NonTerminal,
        r is NonTerminal,
    ensures
        all_bounded(spec_unique_label_matchings(l, r, c), tree_size(l) * tree_size(r)),
        unique_label_state(l, r, c, nchildren(l), 0).0 + 1 <= tree_size(l) * tree_size(r),
    decreases l, 5nat, 0nat, 0nat,
{
    let ls = l.spec_children();
    let rs = r.spec_children();
    lemma_unique_label_state_bounded(l, r, c, nchildren(l), 0);
    lemma_forest_take_all(ls);
    lemma_limits_facts(l, r);
    let fl = forest_size(ls) as int;
    let fr = forest_size(rs) as int;
    assert(fl * fr + 1 <= (1 + fl) * (1 + fr)) by (nonlinear_arith)
        requires
            0 <= fl,
            0 <= fr,
    ;
    let st = unique_label_state(l, r, c, nchildren(l), 0);
    let root: nat = if l.spec_kind() == r.spec_kind() {
        1
    } else {
        0
    };
    lemma_insert_bounded(
        st.1,
        record_for(
            l,
            r,
            crate::matching::matchings::MatchingEntry {
                score: (st.0 + root) as usize,
                is_perfect_match: crate::model::spec_contents(l) == crate::model::spec_contents(r),
            },
        ),
        tree_size(l) * tree_size(r),
    );
}

/// What the weight table holds, and bounds on it.
pub proof fn lemma_weights_facts(l: CSTNode, r: CSTNode, c: MatchingConfiguration)
    requires
        within_matching_limits(l, r),
        l is NonTerminal,
        r is NonTerminal,
    ensures
        assignment_weights(l, r, c).len() == assignment_size(l, r),
        assignment_size(l, r) <= tree_size(l) + tree_size(r),
        forall|i: int|
            0 <= i < assignment_size(l, r) ==> #[trigger] assignment_weights(l, r, c)[i].len()
                == assignment_size(l, r),
        forall|i: int, j: int|
            0 <= i < nchildren(l) && 0 <= j < nchildren(r) ==> #[trigger] assignment_weights(
                l,
                r,
                c,
            )[i][j] == child_score(l, r, c, i, j) && child_score(l, r, c, i, j) <= tree_size(
                l.spec_children()[i],
            ) * tree_size(r.spec_children()[j]),
        forall|i: int, j: int|
            0 <= i < assignment_size(l, r) && 0 <= j < assignment_size(l, r) && !(i < nchildren(l)
                && j < nchildren(r)) ==> #[trigger] assignment_weights(l, r, c)[i][j] == 0,
        forall|i: int, j: int|
            0 <= i < assignment_size(l, r) && 0 <= j < assignment_size(l, r) ==> 0
                <= #[trigger] assignment_weights(l, r, c)[i][j] && 4 * assignment_size(l, r)
                * assignment_weights(l, r, c)[i][j] <= i128::MAX,
    decreases l, 4nat, 0nat, 0nat,
{
    let w = assignment_weights(l, r, c);
    let size = assignment_size(l, r);
    let m = nchildren(l);
    let n = nchildren(r);
    lemma_limits_facts(l, r);
    if m > 0 {
        lemma_child_size(l, 0);
    }
    if n > 0 {
        lemma_child_size(r, 0);
    }
    assert(m <= tree_size(l)) by {
        crate::model::lemma_forest_size_count(l.spec_children());
    }
    assert(n <= tree_size(r)) by {
        crate::model::lemma_forest_size_count(r.spec_children());
    }
    let s = (tree_size(l) + tree_size(r)) as int;
    assert(tree_size(l) * tree_size(r) <= s * s);
    assert forall|i: int, j: int| 0 <= i < m && 0 <= j < n implies #[trigger] w[i][j]
        == child_score(l, r, c, i, j) && child_score(l, r, c, i, j) <= tree_size(
        l.spec_children()[i],
    ) * tree_size(r.spec_children()[j]) && child_score(l, r, c, i, j) <= s * s by {
        lemma_child_score_bounded(l, r, c, i, j);
        lemma_child_limits(l, r, i, j);
        assert(child_score(l, r, c, i, j) <= i128::MAX);
        assert(w[i] == Seq::new(
            size,
            |jj: int|
                if i < nchildren(l) && jj < nchildren(r) {
                    child_score(l, r, c, i, jj) as i128
                } else {
                    0i128
                },
        ));
    }
    assert forall|i: int, j: int|
        0 <= i < size && 0 <= j < size && !(i < m && j < n) implies #[trigger] w[i][j] == 0 by {
        assert(w[i] == Seq::new(
            size,
            |jj: int|
                if i < nchildren(l) && jj < nchildren(r) {
                    child_score(l, r, c, i, jj) as i128
                } else {
                    0i128
                },
        ));
    }
    assert forall|i: int, j: int| 0 <= i < size && 0 <= j < size implies 0 <= #[trigger] w[i][j]
        && 4 * size * w[i][j] <= i128::MAX by {
        if i < m && j < n {
            let v = w[i][j] as int;
            assert(v <= s * s);
            assert(4 * size * v <= 4 * s * s * s) by (nonlinear_arith)
                requires
                    0 <= v <= s * s,
                    0 <= size <= s,
            ;
        } else {
            assert(w[i][j] == 0);
        }
    }
}

/// The total weight of an assignment is at most the product of the forest
/// sizes.
pub proof fn lemma_assignment_value_bound(
    l: CSTNode,
    r: CSTNode,
    c: MatchingConfiguration,
    a: Seq<usize>,
    k: nat,
)
    requires
        within_matching_limits(l, r),
        l is NonTerminal,
        r is NonTerminal,
        is_assignment(a, assignment_size(l, r), assignment_size(l, r)),
        k <= assignment_size(l, r),
    ensures
        0 <= assignment_value(assignment_weights(l, r, c), a, k),
        assignment_value(assignment_weights(l, r, c), a, k) <= forest_size(
            l.spec_children().take(if k <= nchildren(l) {
                k as int
            } else {
                nchildren(l) as int
            }),
        ) * forest_size(r.spec_children()),
    decreases l, 4nat, k + 1, 0nat,
{
    let ls = l.spec_children();
    let rs = r.spec_children();
    let m = nchildren(l);
    let w = assignment_weights(l, r, c);
    lemma_weights_facts(l, r, c);
    let g = forest_size(rs) as int;
    if k == 0 {
        assert(ls.take(0) =~= Seq::<CSTNode>::empty());
        assert(0 <= 0 * g);
    } else {
        lemma_assignment_value_bound(l, r, c, a, (k - 1) as nat);
        let i = k - 1;
        let j = a[i] as int;
        let prev = assignment_value(w, a, (k - 1) as nat);
        if i < m && j < nchildren(r) {
            let sa = tree_size(ls[i]) as int;
            let sb = tree_size(rs[j]) as int;
            lemma_forest_size_member(rs, j);
            lemma_forest_take_step(ls, k as int);
            let fk = forest_size(ls.take(k as int)) as int;
            let fk1 = forest_size(ls.take(k - 1)) as int;
            assert(sa * sb <= sa * g) by (nonlinear_arith)
                requires
                    0 <= sa,
                    0 <= sb <= g,
            ;
            assert(fk1 * g + sa * g == fk * g) by (nonlinear_arith)
                requires
                    fk == fk1 + sa,
            ;
        } else if i < m {
            lemma_forest_take_step(ls, k as int);
            let sa = tree_size(ls[i]) as int;
            let fk = forest_size(ls.take(k as int)) as int;
            let fk1 = forest_size(ls.take(k - 1)) as int;
            assert(fk1 * g <= fk * g) by (nonlinear_arith)
                requires
                    fk == fk1 + sa,
                    0 <= sa,
                    0 <= g,
            ;
        }
    }
}

pub proof fn lemma_assignment_fold_bounded(
    l: CSTNode,
    r: CSTNode,
    c: MatchingConfiguration,
    w: Seq<Seq<i128>>,
    a: Seq<usize>,
    k: nat,
)
    requires
        within_matching_limits(l, r),
    ensures
        all_bounded(assignment_fold(l, r, c, w, a, k), tree_size(l) * tree_size(r)),
    decreases l, 4nat, k, 0nat,
{
    if k > 0 {
        lemma_assignment_fold_bounded(l, r, c, w, a, (k - 1) as nat);
        let i = k - 1;
        let j = a[i] as int;
        if i < nchildren(l) && j < nchildren(r) && w[i][j] > 0 {
            let p = tree_size(l) * tree_size(r);
            lemma_child_limits(l, r, i, j);
            lemma_matchings_bounded(l.spec_children()[i], r.spec_children()[j], c);
            lemma_extend_bounded(
                assignment_fold(l, r, c, w, a, (k - 1) as nat),
                spec_matchings(l.spec_children()[i], r.spec_children()[j], c),
                p,
            );
        }
    }
}

pub proof fn lemma_assignment_bounded(l: CSTNode, r: CSTNode, c: MatchingConfiguration)
    requires
        within_matching_limits(l, r),
        l is NonTerminal,
        r is NonTerminal,
    ensures
        all_bounded(spec_assignment_matchings(l, r, c), tree_size(l) * tree_size(r)),
    decreases l, 5nat, 0nat, 0nat,
{
    if l.spec_kind() == r.spec_kind() {
        let w = assignment_weights(l, r, c);
        let a = kuhn_munkres_assignment(w);
        let size = assignment_size(l, r);
        lemma_limits_facts(l, r);
        lemma_assignment_fold_bounded(l, r, c, w, a, a.len());
        if is_assignment(a, size, size) {
            lemma_weights_facts(l, r, c);
            lemma_assignment_value_bound(l, r, c, a, size);
            let ls = l.spec_children();
            let rs = r.spec_children();
            let m = nchildren(l);
            let t = if size <= m {
                size as int
            } else {
                m as int
            };
            lemma_forest_size_prefix_le(ls, t);
            let ft = forest_size(ls.take(t)) as int;
            let fl = forest_size(ls) as int;
            let fr = forest_size(rs) as int;
            assert(ft * fr + 1 <= (1 + fl) * (1 + fr)) by (nonlinear_arith)
                requires
                    0 <= ft <= fl,
                    0 <= fr,
            ;
            assert(tree_size(l) == 1 + fl);
            assert(tree_size(r) == 1 + fr);
            let total = assignment_value(w, a, a.len());
            assert(a.len() == size);
            assert(0 <= total <= ft * fr);
            let p = tree_size(l) * tree_size(r);
            lemma_insert_bounded(
                assignment_fold(l, r, c, w, a, a.len()),
                record_for(
                    l,
                    r,
                    crate::matching::matchings::MatchingEntry {
                        score: (total + 1) as usize,
                        is_perfect_match: crate::model::spec_contents(l)
                            == crate::model::spec_contents(r),
                    },
                ),
                p,
            );
        }
    }
}

} // verus!
