//! The table of the ordered matching is the best order-preserving pairing
//! of children.
use crate::matching::matching_configuration::MatchingConfiguration;
use crate::matching::spec::{child_score, nchildren, ordered_table};
use crate::model::CSTNode;
use vstd::prelude::*;

verus! {

/// A pairing of some of the first `i` left children with some of the first
/// `j` right children, listed so that both sides strictly increase: no
/// child is used twice and no two pairs cross.
pub open spec fn is_noncrossing(p: Seq<(int, int)>, i: int, j: int) -> bool {
    &&& forall|k: int| 0 <= k < p.len() ==> 0 <= (#[trigger] p[k]).0 < i && 0 <= p[k].1 < j
    &&& forall|k: int, l: int|
        0 <= k < l < p.len() ==> (#[trigger] p[k]).0 < (#[trigger] p[l]).0 && p[k].1 < p[l].1
}

/// The total score of the pairs of children of a pairing.
pub open spec fn pairing_score(
    left: CSTNode,
    right: CSTNode,
    cfg: MatchingConfiguration,
    p: Seq<(int, int)>,
) -> nat
    decreases p.len(),
{
    if p.len() == 0 {
        0
    } else {
        pairing_score(left, right, cfg, p.drop_last()) + child_score(
            left,
            right,
            cfg,
            p.last().0,
            p.last().1,
        )
    }
}

/// The pairing that the table's choices trace back from cell `(i, j)`.
pub open spec fn best_pairing(
    left: CSTNode,
    right: CSTNode,
    cfg: MatchingConfiguration,
    i: nat,
    j: nat,
) -> Seq<(int, int)>
    decreases i + j,
{
    if i == 0 || j == 0 || i > nchildren(left) || j > nchildren(right) {
        Seq::empty()
    } else {
        let a = ordered_table(left, right, cfg, i, (j - 1) as nat);
        let b = ordered_table(left, right, cfg, (i - 1) as nat, j);
        let c = ordered_table(left, right, cfg, (i - 1) as nat, (j - 1) as nat) + child_score(
            left,
            right,
            cfg,
            i - 1,
            j - 1,
        );
        if a >= b && a >= c {
            best_pairing(left, right, cfg, i, (j - 1) as nat)
        } else if b >= c {
            best_pairing(left, right, cfg, (i - 1) as nat, j)
        } else {
            best_pairing(left, right, cfg, (i - 1) as nat, (j - 1) as nat).push((i - 1, j - 1))
        }
    }
}

proof fn lemma_table_bounds_pairings(
    left: CSTNode,
    right: CSTNode,
    cfg: MatchingConfiguration,
    p: Seq<(int, int)>,
    i: nat,
    j: nat,
)
    requires
        i <= nchildren(left),
        j <= nchildren(right),
        is_noncrossing(p, i as int, j as int),
    ensures
        pairing_score(left, right, cfg, p) <= ordered_table(left, right, cfg, i, j),
    decreases i + j,
{
    if p.len() > 0 {
        let n = p.len() - 1;
        let (a, b) = p[n];
        assert(forall|k: int| 0 <= k < n ==> p[k].0 < a && p[k].1 < b) by {
            assert forall|k: int| 0 <= k < n implies p[k].0 < a && p[k].1 < b by {
                assert(p[k].0 < p[n].0);
            }
        }
        if a < i - 1 {
            lemma_table_bounds_pairings(left, right, cfg, p, (i - 1) as nat, j);
        } else if b < j - 1 {
            lemma_table_bounds_pairings(left, right, cfg, p, i, (j - 1) as nat);
        } else {
            let q = p.drop_last();
            assert forall|k: int, l: int| 0 <= k < l < q.len() implies (#[trigger] q[k]).0 < (
            #[trigger] q[l]).0 && q[k].1 < q[l].1 by {
                assert(q[k] == p[k] && q[l] == p[l]);
            }
            assert forall|k: int| 0 <= k < q.len() implies 0 <= (#[trigger] q[k]).0 < i - 1 && 0
                <= q[k].1 < j - 1 by {
                assert(q[k] == p[k]);
            }
            lemma_table_bounds_pairings(left, right, cfg, q, (i - 1) as nat, (j - 1) as nat);
        }
    }
}

proof fn lemma_best_pairing(left: CSTNode, right: CSTNode, cfg: MatchingConfiguration, i: nat, j: nat)
    requires
        i <= nchildren(left),
        j <= nchildren(right),
    ensures
        is_noncrossing(best_pairing(left, right, cfg, i, j), i as int, j as int),
        pairing_score(left, right, cfg, best_pairing(left, right, cfg, i, j)) == ordered_table(
            left,
            right,
            cfg,
            i,
            j,
        ),
    decreases i + j,
{
    if i > 0 && j > 0 {
        let a = ordered_table(left, right, cfg, i, (j - 1) as nat);
        let b = ordered_table(left, right, cfg, (i - 1) as nat, j);
        let c = ordered_table(left, right, cfg, (i - 1) as nat, (j - 1) as nat) + child_score(
            left,
            right,
            cfg,
            i - 1,
            j - 1,
        );
        if a >= b && a >= c {
            lemma_best_pairing(left, right, cfg, i, (j - 1) as nat);
        } else if b >= c {
            lemma_best_pairing(left, right, cfg, (i - 1) as nat, j);
        } else {
            lemma_best_pairing(left, right, cfg, (i - 1) as nat, (j - 1) as nat);
            let q = best_pairing(left, right, cfg, (i - 1) as nat, (j - 1) as nat);
            let p = q.push((i - 1, j - 1));
            assert(p.drop_last() =~= q);
            assert forall|k: int, l: int| 0 <= k < l < p.len() implies (#[trigger] p[k]).0 < (
            #[trigger] p[l]).0 && p[k].1 < p[l].1 by {
                if l < q.len() {
                    assert(p[k] == q[k] && p[l] == q[l]);
                } else {
                    assert(p[k] == q[k]);
                }
            }
            assert forall|k: int| 0 <= k < p.len() implies 0 <= (#[trigger] p[k]).0 < i && 0
                <= p[k].1 < j by {
                if k < q.len() {
                    assert(p[k] == q[k]);
                }
            }
        }
    }
}

/// The table of the ordered matching holds, for the first `i` children of
/// the left node and the first `j` of the right one, the best total score
/// of an order-preserving pairing of them: no such pairing scores more,
/// and one scores exactly that much.
pub proof fn lemma_ordered_table_is_best(
    left: CSTNode,
    right: CSTNode,
    cfg: MatchingConfiguration,
    i: nat,
    j: nat,
)
    requires
        i <= nchildren(left),
        j <= nchildren(right),
    ensures
        forall|p: Seq<(int, int)>|
            is_noncrossing(p, i as int, j as int) ==> #[trigger] pairing_score(left, right, cfg, p)
                <= ordered_table(left, right, cfg, i, j),
        exists|p: Seq<(int, int)>|
            is_noncrossing(p, i as int, j as int) && #[trigger] pairing_score(left, right, cfg, p)
                == ordered_table(left, right, cfg, i, j),
{
    assert forall|p: Seq<(int, int)>| is_noncrossing(p, i as int, j as int) implies #[trigger] pairing_score(
        left,
        right,
        cfg,
        p,
    ) <= ordered_table(left, right, cfg, i, j) by {
        lemma_table_bounds_pairings(left, right, cfg, p, i, j);
    }
    lemma_best_pairing(left, right, cfg, i, j);
    let w = best_pairing(left, right, cfg, i, j);
    assert(is_noncrossing(w, i as int, j as int) && pairing_score(left, right, cfg, w)
        == ordered_table(left, right, cfg, i, j));
}

} // verus!
