//! The result of matching two trees: for pairs of nodes, how well they match.
//! A pair is unordered: the entry for `(a, b)` is also the entry for `(b, a)`.
use crate::model::CSTNode;
use vstd::prelude::*;

verus! {

/// How well two nodes match.
#[derive(Clone, Copy, Debug, PartialEq, Eq, Structural)]
pub struct MatchingEntry {
    pub score: usize,
    pub is_perfect_match: bool,
}

impl Default for MatchingEntry {
    /// An entry of score zero that is not perfect.
    fn default() -> (res: Self)
        ensures
            res == (MatchingEntry { score: 0, is_perfect_match: false }),
    {
        MatchingEntry { score: 0, is_perfect_match: false }
    }
}

/// One stored pair of node identifiers with its entry.
#[derive(Clone, Copy, Debug, PartialEq, Eq, Structural)]
pub struct MatchingRecord {
    pub left: u128,
    pub right: u128,
    pub entry: MatchingEntry,
}

/// The node that a node is matched with, found by `Matchings::find_matching_for`.
#[derive(Clone, Copy, Debug, PartialEq, Eq, Structural)]
pub struct Matching {
    pub matching_node: u128,
    pub score: usize,
    pub is_perfect_match: bool,
}

/// A set of matching entries keyed by unordered pairs of node identifiers,
/// kept in insertion order.
#[derive(Clone, Debug)]
pub struct Matchings {
    matching_entries: Vec<MatchingRecord>,
}

/// The record stands for the unordered pair `{a, b}`.
pub open spec fn same_key(r: MatchingRecord, a: u128, b: u128) -> bool {
    (r.left == a && r.right == b) || (r.left == b && r.right == a)
}

/// The record relates the node `a` with some node.
pub open spec fn mentions(r: MatchingRecord, a: u128) -> bool {
    r.left == a || r.right == a
}

/// The first index whose record stands for `{a, b}`.
pub open spec fn find_key(s: Seq<MatchingRecord>, a: u128, b: u128) -> Option<int>
    decreases s.len(),
{
    if s.len() == 0 {
        None
    } else {
        match find_key(s.drop_last(), a, b) {
            Some(i) => Some(i),
            None => if same_key(s.last(), a, b) {
                Some(s.len() - 1)
            } else {
                None
            },
        }
    }
}

/// The entry stored for the unordered pair `{a, b}`.
pub open spec fn lookup(s: Seq<MatchingRecord>, a: u128, b: u128) -> Option<MatchingEntry> {
    match find_key(s, a, b) {
        Some(i) => Some(s[i].entry),
        None => None,
    }
}

/// The score stored for `{a, b}`, or zero when there is none.
pub open spec fn lookup_score(s: Seq<MatchingRecord>, a: u128, b: u128) -> nat {
    match lookup(s, a, b) {
        Some(e) => e.score as nat,
        None => 0,
    }
}

/// Storing an entry: an existing pair keeps its place and takes the new
/// entry, a new pair goes to the end.
pub open spec fn spec_insert(s: Seq<MatchingRecord>, r: MatchingRecord) -> Seq<MatchingRecord> {
    match find_key(s, r.left, r.right) {
        Some(i) => s.update(i, MatchingRecord { left: s[i].left, right: s[i].right, entry: r.entry }),
        None => s.push(r),
    }
}

/// Storing every record of `t`, in order.
pub open spec fn spec_extend(s: Seq<MatchingRecord>, t: Seq<MatchingRecord>) -> Seq<MatchingRecord>
    decreases t.len(),
{
    if t.len() == 0 {
        s
    } else {
        spec_insert(spec_extend(s, t.drop_last()), t.last())
    }
}

/// The first index whose record mentions `a`.
pub open spec fn find_node(s: Seq<MatchingRecord>, a: u128) -> Option<int>
    decreases s.len(),
{
    if s.len() == 0 {
        None
    } else {
        match find_node(s.drop_last(), a) {
            Some(i) => Some(i),
            None => if mentions(s.last(), a) {
                Some(s.len() - 1)
            } else {
                None
            },
        }
    }
}

/// What `find_matching_for` gives for the node `a`: the other node of the
/// first record that mentions `a`, with its entry.
pub open spec fn spec_find_matching(s: Seq<MatchingRecord>, a: u128) -> Option<Matching> {
    match find_node(s, a) {
        Some(i) => Some(
            Matching {
                matching_node: if s[i].left == a {
                    s[i].right
                } else {
                    s[i].left
                },
                score: s[i].entry.score,
                is_perfect_match: s[i].entry.is_perfect_match,
            },
        ),
        None => None,
    }
}

proof fn lemma_find_key_prefix(s: Seq<MatchingRecord>, a: u128, b: u128, i: int)
    requires
        0 <= i < s.len(),
    ensures
        find_key(s.take(i + 1), a, b) == (match find_key(s.take(i), a, b) {
            Some(k) => Some(k),
            None => if same_key(s[i], a, b) {
                Some(i)
            } else {
                None
            },
        }),
{
    assert(s.take(i + 1).drop_last() =~= s.take(i));
}

pub proof fn lemma_find_key_bounds(s: Seq<MatchingRecord>, a: u128, b: u128)
    ensures
        find_key(s, a, b) matches Some(i) ==> 0 <= i < s.len() && same_key(s[i], a, b),
        find_key(s, a, b) is None ==> forall|k: int| 0 <= k < s.len() ==> !same_key(#[trigger] s[k], a, b),
    decreases s.len(),
{
    if s.len() > 0 {
        lemma_find_key_bounds(s.drop_last(), a, b);
        assert forall|k: int| 0 <= k < s.drop_last().len() implies s.drop_last()[k] == s[k] by {}
    }
}

proof fn lemma_find_node_prefix(s: Seq<MatchingRecord>, a: u128, i: int)
    requires
        0 <= i < s.len(),
    ensures
        find_node(s.take(i + 1), a) == (match find_node(s.take(i), a) {
            Some(k) => Some(k),
            None => if mentions(s[i], a) {
                Some(i)
            } else {
                None
            },
        }),
{
    assert(s.take(i + 1).drop_last() =~= s.take(i));
}

proof fn lemma_find_node_bounds(s: Seq<MatchingRecord>, a: u128)
    ensures
        find_node(s, a) matches Some(i) ==> 0 <= i < s.len() && mentions(s[i], a),
    decreases s.len(),
{
    if s.len() > 0 {
        lemma_find_node_bounds(s.drop_last(), a);
    }
}

impl View for Matchings {
    type V = Seq<MatchingRecord>;

    closed spec fn view(&self) -> Seq<MatchingRecord> {
        self.matching_entries@
    }
}

impl Matchings {
    /// No entries.
    pub fn empty() -> (res: Self)
        ensures
            res@ == Seq::<MatchingRecord>::empty(),
    {
        Matchings { matching_entries: Vec::new() }
    }

    /// The given records, in the given order.
    pub fn new(matching_entries: Vec<MatchingRecord>) -> (res: Self)
        ensures
            res@ == matching_entries@,
    {
        Matchings { matching_entries }
    }

    /// A single entry for the pair `(left, right)`.
    pub fn from_single(left: u128, right: u128, entry: MatchingEntry) -> (res: Self)
        ensures
            res@ == seq![MatchingRecord { left, right, entry }],
    {
        let mut v = Vec::new();
        v.push(MatchingRecord { left, right, entry });
        Matchings { matching_entries: v }
    }

    /// A copy of these matchings.
    pub fn duplicate(&self) -> (res: Matchings)
        ensures
            res@ == self@,
    {
        let mut v: Vec<MatchingRecord> = Vec::new();
        let mut i: usize = 0;
        while i < self.matching_entries.len()
            invariant
                i <= self@.len(),
                v@ == self@.take(i as int),
            decreases self@.len() - i,
        {
            v.push(self.matching_entries[i]);
            i = i + 1;
            assert(v@ =~= self@.take(i as int));
        }
        assert(self@.take(i as int) =~= self@);
        Matchings { matching_entries: v }
    }

    /// The position of the record for `{a, b}`.
    fn position_of(&self, a: u128, b: u128) -> (res: Option<usize>)
        ensures
            res matches Some(i) ==> find_key(self@, a, b) == Some(i as int),
            res is None ==> find_key(self@, a, b) is None,
    {
        let mut i: usize = 0;
        while i < self.matching_entries.len()
            invariant
                i <= self@.len(),
                find_key(self@.take(i as int), a, b) is None,
            decreases self@.len() - i,
        {
            let r = self.matching_entries[i];
            proof {
                lemma_find_key_prefix(self@, a, b, i as int);
            }
            if (r.left == a && r.right == b) || (r.left == b && r.right == a) {
                proof {
                    assert(self@.take(i as int + 1) == self@.take(i + 1));
                    lemma_find_key_extend_found(self@, a, b, i as int);
                }
                return Some(i);
            }
            i = i + 1;
        }
        assert(self@.take(i as int) =~= self@);
        None
    }

    /// Stores `entry` for `{left, right}`, replacing what was stored for it.
    pub fn insert(&mut self, left: u128, right: u128, entry: MatchingEntry)
        ensures
            final(self)@ == spec_insert(old(self)@, MatchingRecord { left, right, entry }),
    {
        match self.position_of(left, right) {
            Some(i) => {
                proof {
                    lemma_find_key_bounds(self@, left, right);
                }
                let r = self.matching_entries[i];
                self.matching_entries.set(
                    i,
                    MatchingRecord { left: r.left, right: r.right, entry },
                );
            },
            None => {
                self.matching_entries.push(MatchingRecord { left, right, entry });
            },
        }
    }

    /// Stores every entry of `other`, in order.
    pub fn extend(&mut self, other: Matchings)
        ensures
            final(self)@ == spec_extend(old(self)@, other@),
    {
        let mut i: usize = 0;
        while i < other.matching_entries.len()
            invariant
                i <= other@.len(),
                self@ == spec_extend(old(self)@, other@.take(i as int)),
            decreases other@.len() - i,
        {
            let r = other.matching_entries[i];
            proof {
                let t = other@.take(i + 1);
                assert(t.drop_last() =~= other@.take(i as int));
                assert(t.last() == r);
            }
            self.insert(r.left, r.right, r.entry);
            i = i + 1;
        }
        assert(other@.take(i as int) =~= other@);
    }

    /// The entry stored for the pair of the two nodes.
    pub fn get_matching_entry(&self, left: &CSTNode, right: &CSTNode) -> (res: Option<
        MatchingEntry,
    >)
        ensures
            res == lookup(self@, left.spec_id(), right.spec_id()),
    {
        match self.position_of(left.id(), right.id()) {
            Some(i) => {
                proof {
                    lemma_find_key_bounds(self@, left.spec_id(), right.spec_id());
                }
                Some(self.matching_entries[i].entry)
            },
            None => None,
        }
    }

    /// The node matched with `a_node`: the other node of the first entry
    /// that mentions it.
    pub fn find_matching_for(&self, a_node: &CSTNode) -> (res: Option<Matching>)
        ensures
            res == spec_find_matching(self@, a_node.spec_id()),
    {
        let a = a_node.id();
        let mut i: usize = 0;
        while i < self.matching_entries.len()
            invariant
                i <= self@.len(),
                a == a_node.spec_id(),
                find_node(self@.take(i as int), a) is None,
            decreases self@.len() - i,
        {
            let r = self.matching_entries[i];
            proof {
                lemma_find_node_prefix(self@, a, i as int);
            }
            if r.left == a || r.right == a {
                proof {
                    lemma_find_node_extend_found(self@, a, i as int);
                    assert(r == self@[i as int]);
                }
                let matching_node = if r.left == a {
                    r.right
                } else {
                    r.left
                };
                return Some(
                    Matching {
                        matching_node,
                        score: r.entry.score,
                        is_perfect_match: r.entry.is_perfect_match,
                    },
                );
            }
            i = i + 1;
        }
        assert(self@.take(i as int) =~= self@);
        None
    }

    /// Whether the two nodes are matched with each other.
    pub fn has_bidirectional_matching(&self, left: &CSTNode, right: &CSTNode) -> (res: bool)
        ensures
            res == find_key(self@, left.spec_id(), right.spec_id()) is Some,
    {
        self.position_of(left.id(), right.id()).is_some()
    }
}

/// Once a prefix holds the key, every longer prefix finds the same index.
proof fn lemma_find_key_extend_found(s: Seq<MatchingRecord>, a: u128, b: u128, i: int)
    requires
        0 <= i < s.len(),
        find_key(s.take(i + 1), a, b) == Some(i),
    ensures
        find_key(s, a, b) == Some(i),
    decreases s.len(),
{
    if s.len() > i + 1 {
        let t = s.drop_last();
        assert(t.take(i + 1) =~= s.take(i + 1));
        lemma_find_key_extend_found(t, a, b, i);
    } else {
        assert(s.take(i + 1) =~= s);
    }
}

proof fn lemma_find_node_extend_found(s: Seq<MatchingRecord>, a: u128, i: int)
    requires
        0 <= i < s.len(),
        find_node(s.take(i + 1), a) == Some(i),
    ensures
        find_node(s, a) == Some(i),
    decreases s.len(),
{
    if s.len() > i + 1 {
        let t = s.drop_last();
        assert(t.take(i + 1) =~= s.take(i + 1));
        lemma_find_node_extend_found(t, a, i);
    } else {
        assert(s.take(i + 1) =~= s);
    }
}

/// The key of a record does not depend on the order of the two nodes.
proof fn lemma_find_key_symmetric(s: Seq<MatchingRecord>, a: u128, b: u128)
    ensures
        find_key(s, a, b) == find_key(s, b, a),
    decreases s.len(),
{
    if s.len() > 0 {
        lemma_find_key_symmetric(s.drop_last(), a, b);
    }
}

/// Looking a pair up gives the same entry in either order.
pub proof fn lemma_lookup_symmetric(s: Seq<MatchingRecord>, a: u128, b: u128)
    ensures
        lookup(s, a, b) == lookup(s, b, a),
{
    lemma_find_key_symmetric(s, a, b);
}

/// Replacing the entry of a record keeps every record's key where it was.
proof fn lemma_find_key_update(s: Seq<MatchingRecord>, i: int, e: MatchingEntry, c: u128, d: u128)
    requires
        0 <= i < s.len(),
    ensures
        find_key(
            s.update(i, MatchingRecord { left: s[i].left, right: s[i].right, entry: e }),
            c,
            d,
        ) == find_key(s, c, d),
    decreases s.len(),
{
    let t = s.update(i, MatchingRecord { left: s[i].left, right: s[i].right, entry: e });
    if i < s.len() - 1 {
        assert(t.drop_last() =~= s.drop_last().update(
            i,
            MatchingRecord { left: s[i].left, right: s[i].right, entry: e },
        ));
        lemma_find_key_update(s.drop_last(), i, e, c, d);
    } else {
        assert(t.drop_last() =~= s.drop_last());
    }
}

/// After storing an entry for a pair, looking the pair up gives that entry.
pub proof fn lemma_insert_then_lookup(s: Seq<MatchingRecord>, r: MatchingRecord)
    ensures
        lookup(spec_insert(s, r), r.left, r.right) == Some(r.entry),
        lookup(spec_insert(s, r), r.right, r.left) == Some(r.entry),
{
    lemma_find_key_bounds(s, r.left, r.right);
    match find_key(s, r.left, r.right) {
        Some(i) => {
            lemma_find_key_update(s, i, r.entry, r.left, r.right);
        },
        None => {
            assert(s.push(r).drop_last() =~= s);
        },
    }
    lemma_lookup_symmetric(spec_insert(s, r), r.left, r.right);
}

/// Storing an entry for a pair leaves the entries of every other pair as
/// they were.
pub proof fn lemma_insert_keeps_others(s: Seq<MatchingRecord>, r: MatchingRecord, c: u128, d: u128)
    requires
        !same_key(r, c, d),
    ensures
        lookup(spec_insert(s, r), c, d) == lookup(s, c, d),
{
    lemma_find_key_bounds(s, r.left, r.right);
    lemma_find_key_bounds(s, c, d);
    match find_key(s, r.left, r.right) {
        Some(i) => {
            lemma_find_key_update(s, i, r.entry, c, d);
            let t = spec_insert(s, r);
            lemma_find_key_bounds(t, c, d);
            match find_key(s, c, d) {
                Some(k) => {
                    if k == i {
                        assert(same_key(s[i], r.left, r.right));
                        assert(same_key(s[i], c, d));
                        assert(false);
                    }
                },
                None => {},
            }
        },
        None => {
            assert(s.push(r).drop_last() =~= s);
        },
    }
}

} // verus!
