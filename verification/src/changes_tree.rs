//! A summary tree of declarations, and the tree of changes made to it.
use vstd::prelude::*;

verus! {

broadcast use vstd::std_specs::vec::group_vec_axioms, vstd::seq::group_seq_axioms;

/// A declaration: its kind, its name, its text, and the declarations in it.
#[derive(PartialEq, Eq, Debug, Hash)]
pub struct ASTNode {
    pub kind: String,
    pub identifier: String,
    pub body: String,
    pub children: Vec<ASTNode>,
}

/// What happened to a declaration.
#[derive(PartialEq, Eq, Debug, Clone, Copy, Structural)]
pub enum Modification {
    Unchanged,
    Added,
    Removed,
    Changed,
}

/// A declaration with what happened to it, and the same for the
/// declarations in it.
#[derive(PartialEq, Debug)]
pub struct ChangesTreeNode<'a> {
    pub kind: &'a str,
    pub identifier: &'a str,
    pub body: &'a str,
    pub modification: Modification,
    pub children: Vec<ChangesTreeNode<'a>>,
}

/// `res` is `node` with every declaration in it, at every depth, marked
/// with `m`.
pub open spec fn marked(node: ASTNode, res: ChangesTreeNode, m: Modification) -> bool
    decreases node,
{
    &&& res.kind@ == node.kind@
    &&& res.identifier@ == node.identifier@
    &&& res.body@ == node.body@
    &&& res.modification == m
    &&& forest_marked(node.children@, res.children@, m)
}

pub open spec fn forest_marked(s: Seq<ASTNode>, r: Seq<ChangesTreeNode>, m: Modification) -> bool
    decreases s,
{
    &&& s.len() == r.len()
    &&& if s.len() == 0 {
        true
    } else {
        forest_marked(s.drop_last(), r.drop_last(), m) && marked(s.last(), r.last(), m)
    }
}

/// Marks the declaration and all in it with the given modification.
fn of_modification<'a>(node: &'a ASTNode, m: Modification) -> (res: ChangesTreeNode<'a>)
    ensures
        marked(*node, res, m),
    decreases node,
{
    let mut children: Vec<ChangesTreeNode<'a>> = Vec::new();
    let mut i: usize = 0;
    while i < node.children.len()
        invariant
            i <= node.children@.len(),
            forest_marked(node.children@.take(i as int), children@, m),
        decreases node.children@.len() - i,
    {
        proof {
            assert(decreases_to!(*node => node.children));
            assert(decreases_to!(node.children => node.children@));
            assert(decreases_to!(node.children@ => node.children@[i as int]));
        }
        let c = of_modification(&node.children[i], m);
        let ghost before = children@;
        children.push(c);
        proof {
            let t = node.children@.take(i + 1);
            assert(t.drop_last() =~= node.children@.take(i as int));
            assert(children@.drop_last() =~= before);
        }
        i = i + 1;
    }
    assert(node.children@.take(i as int) =~= node.children@);
    ChangesTreeNode {
        kind: node.kind.as_str(),
        identifier: node.identifier.as_str(),
        body: node.body.as_str(),
        modification: m,
        children,
    }
}

impl<'a> ChangesTreeNode<'a> {
    /// The declaration and all in it, marked as added.
    pub fn of_added(node: &'a ASTNode) -> (res: ChangesTreeNode<'a>)
        ensures
            marked(*node, res, Modification::Added),
    {
        of_modification(node, Modification::Added)
    }

    /// The declaration and all in it, marked as removed.
    pub fn of_removed(node: &'a ASTNode) -> (res: ChangesTreeNode<'a>)
        ensures
            marked(*node, res, Modification::Removed),
    {
        of_modification(node, Modification::Removed)
    }

    /// The declaration and all in it, marked as unchanged.
    pub fn of_unchanged(node: &'a ASTNode) -> (res: ChangesTreeNode<'a>)
        ensures
            marked(*node, res, Modification::Unchanged),
    {
        of_modification(node, Modification::Unchanged)
    }
}

} // verus!
