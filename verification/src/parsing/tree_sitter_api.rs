//! The parts of `tree_sitter`, `tree_sitter_java` and `uuid` that parsing
//! uses. A syntax tree of `tree_sitter` comes out as plain records, one per
//! node in preorder, from which the library builds its own tree.
use tree_sitter::Parser;
use vstd::prelude::*;

verus! {

/// A node of a `tree_sitter` syntax tree, as plain values: its kind, the
/// row and column of its start point and of its end point, its first byte
/// and the byte after its last, and how many children it has. The children
/// of a node follow it in the preorder list, each with its own subtree.
pub struct SyntaxRecord(
    pub String,
    pub usize,
    pub usize,
    pub usize,
    pub usize,
    pub usize,
    pub usize,
    pub usize,
);

/// The view of a record: kind, start, end, byte range and child count.
pub type RecordView = (Seq<char>, (usize, usize), (usize, usize), (usize, usize), usize);

impl View for SyntaxRecord {
    type V = RecordView;

    open spec fn view(&self) -> RecordView {
        (self.0@, (self.1, self.2), (self.3, self.4), (self.5, self.6), self.7)
    }
}

pub open spec fn records_view(records: Seq<SyntaxRecord>) -> Seq<RecordView> {
    records.map_values(|r: SyntaxRecord| r@)
}

/// What parsing a text with the Java grammar gives: nothing when the parser
/// refuses the grammar, `Some(None)` when the parser gives no tree, and
/// otherwise the nodes of the tree in preorder.
pub open spec fn parse_view(res: Option<Option<Vec<SyntaxRecord>>>) -> Option<
    Option<Seq<RecordView>>,
> {
    match res {
        None => None,
        Some(None) => Some(None),
        Some(Some(v)) => Some(Some(records_view(v@))),
    }
}

/// The outcome of parsing a text with the grammar of `tree_sitter_java`
/// (see `parse_java`).
pub uninterp spec fn java_syntax_tree(text: Seq<char>) -> Option<
    Option<Seq<(Seq<char>, (usize, usize), (usize, usize), (usize, usize), usize)>>,
>;

/// A fresh `tree_sitter::Parser` given `tree_sitter_java::language()` by
/// `Parser::set_language` (`None` when that is refused), then
/// `Parser::parse` on the text (`Some(None)` when it gives no tree), and
/// the tree walked with a `TreeCursor` in preorder, every node written out
/// by `kind`, `start_position`, `end_position`, `start_byte`, `end_byte`
/// and `child_count`. Claimed: the outcome is one function of the text,
/// named `java_syntax_tree` (the parser is made here, with no timeout and
/// no cancellation flag). What the grammar makes of a text is not claimed.
#[verifier::external_body]
pub(crate) fn parse_java(text: &str) -> (res: Option<Option<Vec<SyntaxRecord>>>)
    ensures
        parse_view(res) == java_syntax_tree(text@),
{
    let mut parser = Parser::new();
    parser.set_language(tree_sitter_java::language()).ok()?;
    let tree = match parser.parse(text, None) { Some(t) => t, None => return Some(None) };
    let (mut records, mut cursor) = (Vec::new(), tree.walk());
    loop {
        let n = cursor.node();
        let (s, e) = (n.start_position(), n.end_position());
        records.push(SyntaxRecord(n.kind().into(), s.row, s.column, e.row, e.column, n.start_byte(), n.end_byte(), n.child_count()));
        if cursor.goto_first_child() { continue; }
        while !cursor.goto_next_sibling() {
            if !cursor.goto_parent() { return Some(Some(records)); }
        }
    }
}

/// `uuid::Uuid::new_v4`, as a number: a random identifier. Nothing is
/// claimed of it; in particular not that it differs from earlier ones.
#[verifier::external_body]
pub(crate) fn fresh_id() -> (res: u128) {
    uuid::Uuid::new_v4().as_u128()
}

} // verus!
