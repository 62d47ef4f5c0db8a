//! The tree that merging produces: nodes taken from the parents, merged
//! nodes, and conflicts between what the two parents hold.
use crate::model::{CSTNode, Terminal};
use vstd::prelude::*;

verus! {

broadcast use vstd::std_specs::vec::group_vec_axioms, vstd::seq::group_seq_axioms;

/// A node of a merged tree.
#[derive(Debug, PartialEq, Eq)]
pub enum MergedCSTNode {
    Terminal { kind: String, value: String },
    NonTerminal { kind: String, children: Vec<MergedCSTNode> },
    Conflict { left: Option<Box<MergedCSTNode>>, right: Option<Box<MergedCSTNode>> },
}

/// The mathematical value of a merged tree.
pub enum MergedTree {
    Terminal { kind: Seq<char>, value: Seq<char> },
    NonTerminal { kind: Seq<char>, children: Seq<MergedTree> },
    Conflict { left: Option<Box<MergedTree>>, right: Option<Box<MergedTree>> },
}

impl MergedCSTNode {
    pub open spec fn tree(self) -> MergedTree
        decreases self,
    {
        match self {
            MergedCSTNode::Terminal { kind, value } => MergedTree::Terminal {
                kind: kind@,
                value: value@,
            },
            MergedCSTNode::NonTerminal { kind, children } => MergedTree::NonTerminal {
                kind: kind@,
                children: trees(children@),
            },
            MergedCSTNode::Conflict { left, right } => MergedTree::Conflict {
                left: match left {
                    Some(b) => Some(Box::new((*b).tree())),
                    None => None,
                },
                right: match right {
                    Some(b) => Some(Box::new((*b).tree())),
                    None => None,
                },
            },
        }
    }
}

impl View for MergedCSTNode {
    type V = MergedTree;

    open spec fn view(&self) -> MergedTree {
        self.tree()
    }
}

/// The values of a sequence of merged trees.
pub open spec fn trees(s: Seq<MergedCSTNode>) -> Seq<MergedTree>
    decreases s,
{
    if s.len() == 0 {
        Seq::empty()
    } else {
        trees(s.drop_last()).push(s.last().tree())
    }
}

pub proof fn lemma_trees_push(s: Seq<MergedCSTNode>, x: MergedCSTNode)
    ensures
        trees(s.push(x)) == trees(s).push(x.tree()),
        trees(s).len() == s.len(),
    decreases s.len(),
{
    assert(s.push(x).drop_last() =~= s);
    lemma_trees_len(s);
}

pub proof fn lemma_trees_len(s: Seq<MergedCSTNode>)
    ensures
        trees(s).len() == s.len(),
    decreases s.len(),
{
    if s.len() > 0 {
        lemma_trees_len(s.drop_last());
    }
}

pub proof fn lemma_trees_index(s: Seq<MergedCSTNode>, i: int)
    requires
        0 <= i < s.len(),
    ensures
        trees(s).len() == s.len(),
        trees(s)[i] == s[i].tree(),
    decreases s.len(),
{
    lemma_trees_len(s);
    if i < s.len() - 1 {
        lemma_trees_index(s.drop_last(), i);
    }
}

/// The merged value of a node taken as it is from one of the trees.
pub open spec fn tree_of(node: CSTNode) -> MergedTree
    decreases node,
{
    match node {
        CSTNode::Terminal(t) => MergedTree::Terminal { kind: t.kind@, value: t.value@ },
        CSTNode::NonTerminal(n) => MergedTree::NonTerminal {
            kind: n.kind@,
            children: forest_of(n.children@),
        },
    }
}

pub open spec fn forest_of(s: Seq<CSTNode>) -> Seq<MergedTree>
    decreases s,
{
    if s.len() == 0 {
        Seq::empty()
    } else {
        forest_of(s.drop_last()).push(tree_of(s.last()))
    }
}

/// Whether the tree holds a conflict anywhere.
pub open spec fn spec_has_conflict(t: MergedTree) -> bool
    decreases t,
{
    match t {
        MergedTree::Terminal { .. } => false,
        MergedTree::NonTerminal { children, .. } => forest_has_conflict(children),
        MergedTree::Conflict { .. } => true,
    }
}

pub open spec fn forest_has_conflict(s: Seq<MergedTree>) -> bool
    decreases s,
{
    if s.len() == 0 {
        false
    } else {
        forest_has_conflict(s.drop_last()) || spec_has_conflict(s.last())
    }
}

/// Every conflict in the tree holds at least one side.
pub open spec fn well_formed(t: MergedTree) -> bool
    decreases t,
{
    match t {
        MergedTree::Terminal { .. } => true,
        MergedTree::NonTerminal { children, .. } => forest_well_formed(children),
        MergedTree::Conflict { left, right } => {
            &&& (left is Some || right is Some)
            &&& match left {
                Some(b) => well_formed(*b),
                None => true,
            }
            &&& match right {
                Some(b) => well_formed(*b),
                None => true,
            }
        },
    }
}

pub open spec fn forest_well_formed(s: Seq<MergedTree>) -> bool
    decreases s,
{
    if s.len() == 0 {
        true
    } else {
        forest_well_formed(s.drop_last()) && well_formed(s.last())
    }
}

/// The text of a merged tree: a terminal's value; the children of an inner
/// node, each preceded by one space; a conflict between markers, with the
/// left side before the separator and the right side after it.
pub open spec fn spec_display(t: MergedTree) -> Seq<char>
    decreases t,
{
    match t {
        MergedTree::Terminal { value, .. } => value,
        MergedTree::NonTerminal { children, .. } => forest_display(children),
        MergedTree::Conflict { left, right } => match (left, right) {
            (Some(l), Some(r)) => "<<<<<<<<< "@ + spec_display(*l) + " ========= "@ + spec_display(
                *r,
            ) + " >>>>>>>>>"@,
            (Some(l), None) => "<<<<<<<<< "@ + spec_display(*l) + " ========= >>>>>>>>>"@,
            (None, Some(r)) => "<<<<<<<<< ========= "@ + spec_display(*r) + " >>>>>>>>>"@,
            (None, None) => Seq::empty(),
        },
    }
}

pub open spec fn forest_display(s: Seq<MergedTree>) -> Seq<char>
    decreases s,
{
    if s.len() == 0 {
        Seq::empty()
    } else {
        forest_display(s.drop_last()) + seq![' '] + spec_display(s.last())
    }
}

impl MergedCSTNode {
    /// The merged node of a leaf taken as it is.
    pub fn from_terminal(terminal: &Terminal) -> (res: MergedCSTNode)
        ensures
            res@ == (MergedTree::Terminal { kind: terminal.kind@, value: terminal.value@ }),
    {
        MergedCSTNode::Terminal { kind: terminal.kind.clone(), value: terminal.value.clone() }
    }

    /// The merged tree of a node taken as it is from one of the trees.
    pub fn from(node: &CSTNode) -> (res: MergedCSTNode)
        ensures
            res@ == tree_of(*node),
        decreases node,
    {
        match node {
            CSTNode::Terminal(t) => MergedCSTNode::from_terminal(t),
            CSTNode::NonTerminal(n) => {
                let mut children: Vec<MergedCSTNode> = Vec::new();
                let mut i: usize = 0;
                while i < n.children.len()
                    invariant
                        *node == CSTNode::NonTerminal(*n),
                        i <= n.children@.len(),
                        trees(children@) == forest_of(n.children@.take(i as int)),
                    decreases n.children@.len() - i,
                {
                    proof {
                        assert(decreases_to!(*node => node->NonTerminal_0));
                        assert(decreases_to!(*n => n.children));
                        assert(decreases_to!(n.children => n.children@));
                        assert(decreases_to!(n.children@ => n.children@[i as int]));
                    }
                    let c = MergedCSTNode::from(&n.children[i]);
                    proof {
                        lemma_trees_push(children@, c);
                        let t = n.children@.take(i + 1);
                        assert(t.drop_last() =~= n.children@.take(i as int));
                    }
                    children.push(c);
                    i = i + 1;
                }
                assert(n.children@.take(i as int) =~= n.children@);
                MergedCSTNode::NonTerminal { kind: n.kind.clone(), children }
            },
        }
    }

    /// Whether the merged tree holds a conflict anywhere.
    pub fn has_conflict(&self) -> (res: bool)
        ensures
            res == spec_has_conflict(self@),
        decreases self,
    {
        match self {
            MergedCSTNode::Terminal { .. } => false,
            MergedCSTNode::Conflict { .. } => true,
            MergedCSTNode::NonTerminal { kind, children } => {
                let mut i: usize = 0;
                while i < children.len()
                    invariant
                        *self == (MergedCSTNode::NonTerminal { kind: *kind, children: *children }),
                        i <= children@.len(),
                        !forest_has_conflict(trees(children@.take(i as int))),
                    decreases children@.len() - i,
                {
                    let ghost t = children@.take(i + 1);
                    let ghost tt = trees(children@.take(i as int));
                    let ghost x = children@[i as int].tree();
                    proof {
                        assert(t =~= children@.take(i as int).push(children@[i as int]));
                        lemma_trees_push(children@.take(i as int), children@[i as int]);
                        assert(tt.push(x).drop_last() =~= tt);
                        lemma_trees_len(children@);
                    }
                    proof {
                        assert(decreases_to!(*self => self->children));
                        assert(decreases_to!(*children => children@));
                        assert(decreases_to!(children@ => children@[i as int]));
                    }
                    if children[i].has_conflict() {
                        proof {
                            assert(forest_has_conflict(trees(t)));
                            lemma_trees_take(children@, i + 1);
                            lemma_forest_conflict_prefix(trees(children@), i + 1);
                        }
                        return true;
                    }
                    i = i + 1;
                }
                assert(children@.take(i as int) =~= children@);
                false
            },
        }
    }

    /// The text of the merged tree, with conflict markers around conflicts.
    pub fn to_string(&self) -> (res: String)
        requires
            well_formed(self@),
        ensures
            res@ == spec_display(self@),
        decreases self,
    {
        match self {
            MergedCSTNode::Terminal { value, .. } => value.clone(),
            MergedCSTNode::NonTerminal { kind, children } => {
                let mut acc = String::new();
                let mut i: usize = 0;
                while i < children.len()
                    invariant
                        *self == (MergedCSTNode::NonTerminal { kind: *kind, children: *children }),
                        i <= children@.len(),
                        forest_well_formed(trees(children@)),
                        acc@ == forest_display(trees(children@.take(i as int))),
                    decreases children@.len() - i,
                {
                    proof {
                        lemma_trees_index(children@, i as int);
                        lemma_forest_well_formed_index(trees(children@), i as int);
                        let t = children@.take(i + 1);
                        let tt = trees(children@.take(i as int));
                        let x = children@[i as int].tree();
                        assert(t =~= children@.take(i as int).push(children@[i as int]));
                        lemma_trees_push(children@.take(i as int), children@[i as int]);
                        assert(tt.push(x).drop_last() =~= tt);
                        reveal_strlit(" ");
                    }
                    proof {
                        assert(decreases_to!(*self => self->children));
                        assert(decreases_to!(*children => children@));
                        assert(decreases_to!(children@ => children@[i as int]));
                    }
                    let part = children[i].to_string();
                    acc.append(" ");
                    acc.append(part.as_str());
                    i = i + 1;
                }
                assert(children@.take(i as int) =~= children@);
                acc
            },
            MergedCSTNode::Conflict { left, right } => {
                proof {
                    reveal_strlit("<<<<<<<<< ");
                    reveal_strlit(" ========= ");
                    reveal_strlit(" >>>>>>>>>");
                    reveal_strlit(" ========= >>>>>>>>>");
                    reveal_strlit("<<<<<<<<< ========= ");
                }
                match (left, right) {
                    (Some(l), Some(r)) => {
                        let mut acc = String::from_str("<<<<<<<<< ");
                        let ls = l.to_string();
                        acc.append(ls.as_str());
                        acc.append(" ========= ");
                        let rs = r.to_string();
                        acc.append(rs.as_str());
                        acc.append(" >>>>>>>>>");
                        acc
                    },
                    (Some(l), None) => {
                        let mut acc = String::from_str("<<<<<<<<< ");
                        let ls = l.to_string();
                        acc.append(ls.as_str());
                        acc.append(" ========= >>>>>>>>>");
                        acc
                    },
                    (None, Some(r)) => {
                        let mut acc = String::from_str("<<<<<<<<< ========= ");
                        let rs = r.to_string();
                        acc.append(rs.as_str());
                        acc.append(" >>>>>>>>>");
                        acc
                    },
                    (None, None) => String::new(),
                }
            },
        }
    }
}

pub proof fn lemma_trees_take(s: Seq<MergedCSTNode>, i: int)
    requires
        0 <= i <= s.len(),
    ensures
        trees(s.take(i)) == trees(s).take(i),
    decreases s.len(),
{
    lemma_trees_len(s);
    if i < s.len() {
        assert(s.drop_last().take(i) =~= s.take(i));
        lemma_trees_take(s.drop_last(), i);
        assert(trees(s).drop_last() =~= trees(s.drop_last()));
        assert(trees(s).take(i) =~= trees(s.drop_last()).take(i));
    } else {
        assert(s.take(i) =~= s);
        assert(trees(s).take(i) =~= trees(s));
    }
}

/// A conflict in a prefix is a conflict in the whole sequence.
pub proof fn lemma_forest_conflict_prefix(s: Seq<MergedTree>, i: int)
    requires
        0 <= i <= s.len(),
        forest_has_conflict(s.take(i)),
    ensures
        forest_has_conflict(s),
    decreases s.len(),
{
    if i < s.len() {
        assert(s.drop_last().take(i) =~= s.take(i));
        lemma_forest_conflict_prefix(s.drop_last(), i);
    } else {
        assert(s.take(i) =~= s);
    }
}

pub proof fn lemma_forest_well_formed_index(s: Seq<MergedTree>, i: int)
    requires
        0 <= i < s.len(),
        forest_well_formed(s),
    ensures
        well_formed(s[i]),
    decreases s.len(),
{
    if i < s.len() - 1 {
        lemma_forest_well_formed_index(s.drop_last(), i);
    }
}

} // verus!
