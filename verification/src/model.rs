//! The concrete syntax tree that parsing produces and that matching and
//! merging work on.
use vstd::prelude::*;

verus! {

broadcast use vstd::std_specs::vec::group_vec_axioms, vstd::seq::group_seq_axioms;

/// A position in a source file.
#[derive(Clone, Copy, Debug, Default, PartialEq, Eq, PartialOrd, Ord, Hash)]
pub struct Point {
    pub row: usize,
    pub column: usize,
}

/// The languages the tool knows how to parse, match and merge.
#[derive(Clone, Copy, Debug, PartialEq, Eq)]
pub enum Language {
    Java,
}

/// A leaf of the tree.
#[derive(Debug, Clone)]
pub struct Terminal {
    pub id: u128,
    pub kind: String,
    pub value: String,
    pub start_position: Point,
    pub end_position: Point,
    pub is_block_end_delimiter: bool,
}

/// An inner node of the tree.
#[derive(Debug)]
pub struct NonTerminal {
    pub id: u128,
    pub kind: String,
    pub children: Vec<CSTNode>,
    pub start_position: Point,
    pub end_position: Point,
    pub are_children_unordered: bool,
}

/// A node of the concrete syntax tree. Two nodes denote the same node when
/// they carry the same identifier.
#[derive(Debug)]
pub enum CSTNode {
    Terminal(Terminal),
    NonTerminal(NonTerminal),
}

impl CSTNode {
    pub open spec fn spec_id(self) -> u128 {
        match self {
            CSTNode::Terminal(t) => t.id,
            CSTNode::NonTerminal(n) => n.id,
        }
    }

    pub open spec fn spec_kind(self) -> Seq<char> {
        match self {
            CSTNode::Terminal(t) => t.kind@,
            CSTNode::NonTerminal(n) => n.kind@,
        }
    }

    /// The children of a node; a terminal has none.
    pub open spec fn spec_children(self) -> Seq<CSTNode> {
        match self {
            CSTNode::Terminal(_) => Seq::empty(),
            CSTNode::NonTerminal(n) => n.children@,
        }
    }

    pub open spec fn spec_start(self) -> Point {
        match self {
            CSTNode::Terminal(t) => t.start_position,
            CSTNode::NonTerminal(n) => n.start_position,
        }
    }

    pub open spec fn spec_end(self) -> Point {
        match self {
            CSTNode::Terminal(t) => t.end_position,
            CSTNode::NonTerminal(n) => n.end_position,
        }
    }

    pub open spec fn spec_unordered(self) -> bool {
        match self {
            CSTNode::Terminal(_) => false,
            CSTNode::NonTerminal(n) => n.are_children_unordered,
        }
    }

    /// The node's identifier.
    pub fn id(&self) -> (res: u128)
        ensures
            res == self.spec_id(),
    {
        match self {
            CSTNode::Terminal(t) => t.id,
            CSTNode::NonTerminal(n) => n.id,
        }
    }

    /// The node's kind in the grammar.
    pub fn kind(&self) -> (res: &str)
        ensures
            res@ == self.spec_kind(),
    {
        match self {
            CSTNode::Terminal(t) => t.kind.as_str(),
            CSTNode::NonTerminal(n) => n.kind.as_str(),
        }
    }

    /// Whether the node is of the given kind.
    pub fn has_kind(&self, kind: &str) -> (res: bool)
        ensures
            res == (self.spec_kind() == kind@),
    {
        let wanted = String::from_str(kind);
        match self {
            CSTNode::Terminal(t) => t.kind == wanted,
            CSTNode::NonTerminal(n) => n.kind == wanted,
        }
    }

    /// Whether both nodes are of the same kind.
    pub fn same_kind(&self, other: &CSTNode) -> (res: bool)
        ensures
            res == (self.spec_kind() == other.spec_kind()),
    {
        let mine = match self {
            CSTNode::Terminal(t) => &t.kind,
            CSTNode::NonTerminal(n) => &n.kind,
        };
        let theirs = match other {
            CSTNode::Terminal(t) => &t.kind,
            CSTNode::NonTerminal(n) => &n.kind,
        };
        *mine == *theirs
    }

    /// Where the node starts in the text.
    pub fn start_position(&self) -> (res: Point)
        ensures
            res == self.spec_start(),
    {
        match self {
            CSTNode::Terminal(t) => t.start_position,
            CSTNode::NonTerminal(n) => n.start_position,
        }
    }

    /// Where the node ends in the text.
    pub fn end_position(&self) -> (res: Point)
        ensures
            res == self.spec_end(),
    {
        match self {
            CSTNode::Terminal(t) => t.end_position,
            CSTNode::NonTerminal(n) => n.end_position,
        }
    }

    /// The text of the tree (see `spec_contents`).
    pub fn contents(&self) -> (res: String)
        ensures
            res@ == spec_contents(*self),
        decreases self,
    {
        match self {
            CSTNode::Terminal(t) => t.contents(),
            CSTNode::NonTerminal(n) => n.contents(),
        }
    }

    /// Whether the node's children may come in any order.
    pub fn are_children_unordered(&self) -> (res: bool)
        ensures
            res == self.spec_unordered(),
    {
        match self {
            CSTNode::Terminal(_) => false,
            CSTNode::NonTerminal(n) => n.are_children_unordered,
        }
    }
}

/// The textual contents of a tree: a terminal's value, and for an inner node
/// the contents of each child, each preceded by one space.
pub open spec fn spec_contents(node: CSTNode) -> Seq<char>
    decreases node,
{
    match node {
        CSTNode::Terminal(t) => t.value@,
        CSTNode::NonTerminal(n) => forest_contents(n.children@),
    }
}

pub open spec fn forest_contents(s: Seq<CSTNode>) -> Seq<char>
    decreases s,
{
    if s.len() == 0 {
        Seq::empty()
    } else {
        forest_contents(s.drop_last()) + seq![' '] + spec_contents(s.last())
    }
}

/// The number of nodes in a tree.
pub open spec fn tree_size(node: CSTNode) -> nat
    decreases node,
{
    match node {
        CSTNode::Terminal(_) => 1,
        CSTNode::NonTerminal(n) => 1 + forest_size(n.children@),
    }
}

pub open spec fn forest_size(s: Seq<CSTNode>) -> nat
    decreases s,
{
    if s.len() == 0 {
        0
    } else {
        forest_size(s.drop_last()) + tree_size(s.last())
    }
}

/// A prefix of a forest is no larger than the forest.
pub proof fn lemma_forest_size_prefix(s: Seq<CSTNode>, i: int)
    requires
        0 <= i <= s.len(),
    ensures
        forest_size(s.take(i)) <= forest_size(s),
    decreases s.len(),
{
    if i < s.len() {
        assert(s.drop_last().take(i) =~= s.take(i));
        lemma_forest_size_prefix(s.drop_last(), i);
    } else {
        assert(s.take(i) =~= s);
    }
}

/// A forest has at least as many nodes as trees.
pub proof fn lemma_forest_size_count(s: Seq<CSTNode>)
    ensures
        s.len() <= forest_size(s),
    decreases s.len(),
{
    if s.len() > 0 {
        lemma_forest_size_count(s.drop_last());
        assert(tree_size(s.last()) >= 1);
    }
}

/// Every tree of a forest is no larger than the forest.
pub proof fn lemma_forest_size_member(s: Seq<CSTNode>, i: int)
    requires
        0 <= i < s.len(),
    ensures
        tree_size(s[i]) <= forest_size(s),
        forest_size(s.take(i)) + tree_size(s[i]) <= forest_size(s),
    decreases s.len(),
{
    if i < s.len() - 1 {
        assert(s.drop_last().take(i) =~= s.take(i));
        lemma_forest_size_member(s.drop_last(), i);
    } else {
        assert(s.drop_last() =~= s.take(i));
    }
}

impl CSTNode {
    /// The number of nodes in the tree.
    pub fn get_tree_size(&self) -> (res: usize)
        requires
            tree_size(*self) <= usize::MAX,
        ensures
            res == tree_size(*self),
        decreases self,
    {
        match self {
            CSTNode::Terminal(_) => 1,
            CSTNode::NonTerminal(n) => n.get_tree_size(),
        }
    }
}

impl NonTerminal {
    /// The number of nodes in the tree rooted here.
    pub fn get_tree_size(&self) -> (res: usize)
        requires
            1 + forest_size(self.children@) <= usize::MAX,
        ensures
            res == 1 + forest_size(self.children@),
        decreases self,
    {
        let mut total: usize = 1;
        let mut i: usize = 0;
        while i < self.children.len()
            invariant
                i <= self.children@.len(),
                1 + forest_size(self.children@) <= usize::MAX,
                total == 1 + forest_size(self.children@.take(i as int)),
            decreases self.children.len() - i,
        {
            proof {
                lemma_forest_size_member(self.children@, i as int);
                let t = self.children@.take(i + 1);
                assert(t.drop_last() =~= self.children@.take(i as int));
                assert(t.last() == self.children@[i as int]);
            }
            let part = self.children[i].get_tree_size();
            total = total + part;
            i = i + 1;
        }
        assert(self.children@.take(i as int) =~= self.children@);
        total
    }
}

impl Default for Terminal {
    /// A leaf with identifier zero, empty kind and value, at the origin.
    fn default() -> (res: Self)
        ensures
            res.id == 0,
            res.kind@ == Seq::<char>::empty(),
            res.value@ == Seq::<char>::empty(),
            res.start_position == (Point { row: 0, column: 0 }),
            res.end_position == (Point { row: 0, column: 0 }),
            !res.is_block_end_delimiter,
    {
        Terminal {
            id: 0,
            kind: String::new(),
            value: String::new(),
            start_position: Point { row: 0, column: 0 },
            end_position: Point { row: 0, column: 0 },
            is_block_end_delimiter: false,
        }
    }
}

impl Default for NonTerminal {
    /// An inner node with identifier zero, empty kind and no children, at
    /// the origin, with ordered children.
    fn default() -> (res: Self)
        ensures
            res.id == 0,
            res.kind@ == Seq::<char>::empty(),
            res.children@ == Seq::<CSTNode>::empty(),
            res.start_position == (Point { row: 0, column: 0 }),
            res.end_position == (Point { row: 0, column: 0 }),
            !res.are_children_unordered,
    {
        NonTerminal {
            id: 0,
            kind: String::new(),
            children: Vec::new(),
            start_position: Point { row: 0, column: 0 },
            end_position: Point { row: 0, column: 0 },
            are_children_unordered: false,
        }
    }
}

impl NonTerminal {
    /// The inner node of a node; a leaf has none.
    pub fn try_from(node: &CSTNode) -> (res: Result<&NonTerminal, &'static str>)
        ensures
            match node {
                CSTNode::NonTerminal(n) => res == Ok::<&NonTerminal, &'static str>(n),
                CSTNode::Terminal(_) => res matches Err(e) && e@
                    == "Cannot convert terminal to non-terminal"@,
            },
    {
        match node {
            CSTNode::NonTerminal(n) => Ok(n),
            CSTNode::Terminal(_) => Err("Cannot convert terminal to non-terminal"),
        }
    }
}

impl Terminal {
    /// The leaf's value.
    pub fn contents(&self) -> (res: String)
        ensures
            res@ == self.value@,
    {
        self.value.clone()
    }
}

impl NonTerminal {
    /// The contents of the children, each preceded by one space.
    pub fn contents(&self) -> (res: String)
        ensures
            res@ == forest_contents(self.children@),
        decreases self,
    {
        let mut acc = String::new();
        let mut i: usize = 0;
        while i < self.children.len()
            invariant
                i <= self.children.len(),
                acc@ == forest_contents(self.children@.take(i as int)),
            decreases self.children.len() - i,
        {
            let part = self.children[i].contents();
            proof {
                reveal_strlit(" ");
                let t = self.children@.take(i + 1);
                assert(t.drop_last() =~= self.children@.take(i as int));
                assert(t.last() == self.children@[i as int]);
            }
            acc.append(" ");
            acc.append(part.as_str());
            i = i + 1;
        }
        assert(self.children@.take(i as int) =~= self.children@);
        acc
    }
}

} // verus!
