//! Parsing source text into the concrete syntax tree of this library.
pub mod tree_sitter_api;

use crate::model::{CSTNode, Language, NonTerminal, Point, Terminal};
use crate::parsing::tree_sitter_api::{
    fresh_id, java_syntax_tree, parse_java, records_view, RecordView, SyntaxRecord,
};
use crate::parsing_handlers::{handled_by, ParsingHandler, ParsingHandlers};
use vstd::prelude::*;
use vstd::string::StringSliceAdditionalSpecFns;
use vstd::utf8::{
    decode_utf8, encode_utf8, encode_utf8_decode_utf8, encode_utf8_valid_utf8, is_char_boundary, is_char_boundary_iff_not_is_continuation_byte,
    is_char_boundary_start_end_of_seq, valid_utf8, valid_utf8_split,
};

verus! {

broadcast use vstd::std_specs::vec::group_vec_axioms, vstd::seq::group_seq_axioms;

/// How to parse a language: its grammar, the kinds below which the tree is
/// not followed, the kinds whose children may come in any order, the kinds
/// of the leaves that close a block, and the rewrites applied afterwards.
pub struct ParserConfiguration {
    pub language: Language,
    pub stop_compilation_at: Vec<String>,
    pub kinds_with_unordered_children: Vec<String>,
    pub block_end_delimiters: Vec<String>,
    pub handlers: ParsingHandlers,
}

/// Whether the kind is in the list.
pub open spec fn listed(list: Seq<String>, kind: Seq<char>) -> bool {
    exists|i: int| 0 <= i < list.len() && (#[trigger] list[i])@ == kind
}

fn is_listed(list: &Vec<String>, kind: &str) -> (res: bool)
    ensures
        res == listed(list@, kind@),
{
    let wanted = String::from_str(kind);
    let mut i: usize = 0;
    while i < list.len()
        invariant
            i <= list@.len(),
            wanted@ == kind@,
            forall|k: int| 0 <= k < i ==> (#[trigger] list@[k])@ != kind@,
        decreases list@.len() - i,
    {
        if list[i] == wanted {
            return true;
        }
        i = i + 1;
    }
    false
}

pub open spec fn views(list: Seq<String>) -> Seq<Seq<char>> {
    list.map_values(|s: String| s@)
}

impl ParserConfiguration {
    /// The configuration of a language. For Java: no kind stops the tree;
    /// the bodies of interfaces, classes and enums have unordered children;
    /// `}` closes a block; import declarations are gathered.
    /// This is the configuration of the language (see `from`).
    pub open spec fn configures(&self, language: Language) -> bool {
        &&& self.language == language
        &&& language == Language::Java ==> {
            &&& views(self.stop_compilation_at@) == Seq::<Seq<char>>::empty()
            &&& views(self.kinds_with_unordered_children@) == seq![
                "interface_body"@,
                "class_body"@,
                "enum_body_declarations"@,
            ]
            &&& views(self.block_end_delimiters@) == seq!["}"@]
            &&& self.handlers@ == seq![ParsingHandler::TweakImportDeclarations]
        }
    }

    /// The configuration of a language.
    pub fn from(language: Language) -> (res: Self)
        ensures
            res.configures(language),
    {
        match language {
            Language::Java => {
                let mut unordered: Vec<String> = Vec::new();
                unordered.push(String::from_str("interface_body"));
                unordered.push(String::from_str("class_body"));
                unordered.push(String::from_str("enum_body_declarations"));
                let mut delimiters: Vec<String> = Vec::new();
                delimiters.push(String::from_str("}"));
                let res = ParserConfiguration {
                    language,
                    stop_compilation_at: Vec::new(),
                    kinds_with_unordered_children: unordered,
                    block_end_delimiters: delimiters,
                    handlers: ParsingHandlers::from(language),
                };
                assert(views(res.stop_compilation_at@) =~= Seq::<Seq<char>>::empty());
                assert(views(res.kinds_with_unordered_children@) =~= seq![
                    "interface_body"@,
                    "class_body"@,
                    "enum_body_declarations"@,
                ]);
                assert(views(res.block_end_delimiters@) =~= seq!["}"@]);
                res
            },
        }
    }
}

/// Whether `start..end` is a range of the text's bytes whose ends both fall
/// between characters.
pub open spec fn is_char_range(bytes: Seq<u8>, start: int, end: int) -> bool {
    &&& 0 <= start <= end <= bytes.len()
    &&& is_char_boundary(bytes, start)
    &&& is_char_boundary(bytes, end)
}

/// A cut at a character boundary of a prefix that itself ends at a
/// character boundary is a character boundary of the whole text, and the
/// other way round.
proof fn lemma_prefix_char_boundary(bytes: Seq<u8>, end: int, start: int)
    requires
        valid_utf8(bytes),
        0 <= start <= end <= bytes.len(),
        is_char_boundary(bytes, end),
    ensures
        is_char_boundary(bytes.subrange(0, end), start) == is_char_boundary(bytes, start),
{
    let head = bytes.subrange(0, end);
    valid_utf8_split(bytes, end);
    is_char_boundary_start_end_of_seq(head);
    if start < end {
        assert(head[start] == bytes[start]);
        is_char_boundary_iff_not_is_continuation_byte(head, start);
        is_char_boundary_iff_not_is_continuation_byte(bytes, start);
    } else {
        assert(head.len() == end);
    }
}

/// The piece of the text between two byte offsets, when both fall between
/// characters; nothing otherwise.
fn byte_slice<'a>(src: &'a str, start: usize, end: usize) -> (res: Option<&'a str>)
    ensures
        res is Some <==> is_char_range(src.spec_bytes(), start as int, end as int),
        res matches Some(piece) ==> start <= end <= src.spec_bytes().len() && piece.spec_bytes()
            == src.spec_bytes().subrange(start as int, end as int),
{
    proof {
        encode_utf8_valid_utf8(src@);
    }
    if start > end || end > src.as_bytes().len() {
        return None;
    }
    if !src.is_char_boundary(end) {
        return None;
    }
    let (head, _) = src.split_at(end);
    proof {
        lemma_prefix_char_boundary(src.spec_bytes(), end as int, start as int);
    }
    if !head.is_char_boundary(start) {
        return None;
    }
    let (_, piece) = head.split_at(start);
    proof {
        assert(piece.spec_bytes() =~= src.spec_bytes().subrange(start as int, end as int));
    }
    Some(piece)
}


/// A tree as parsing reads it, without the identifiers of its nodes.
pub enum Reading {
    Leaf { kind: Seq<char>, value: Seq<char>, start: Point, end: Point, block_end: bool },
    Inner {
        kind: Seq<char>,
        children: Seq<Reading>,
        start: Point,
        end: Point,
        unordered: bool,
    },
}

/// The reading of a tree: the tree with its identifiers left out.
pub open spec fn erase(t: CSTNode) -> Reading
    decreases t,
{
    match t {
        CSTNode::Terminal(x) => Reading::Leaf {
            kind: x.kind@,
            value: x.value@,
            start: x.start_position,
            end: x.end_position,
            block_end: x.is_block_end_delimiter,
        },
        CSTNode::NonTerminal(n) => Reading::Inner {
            kind: n.kind@,
            children: erase_forest(n.children@),
            start: n.start_position,
            end: n.end_position,
            unordered: n.are_children_unordered,
        },
    }
}

pub open spec fn erase_forest(s: Seq<CSTNode>) -> Seq<Reading>
    decreases s,
{
    if s.len() == 0 {
        Seq::empty()
    } else {
        erase_forest(s.drop_last()).push(erase(s.last()))
    }
}

pub open spec fn point_of(p: (usize, usize)) -> Point {
    Point { row: p.0, column: p.1 }
}

/// Where the subtree of the record at `pos` ends in the preorder list;
/// nothing when the list ends first, or when a child's subtree would end
/// before it starts.
pub open spec fn subtree_end(recs: Seq<RecordView>, pos: int) -> Option<int>
    decreases recs.len() - pos, 0nat,
{
    if pos < 0 || pos >= recs.len() {
        None
    } else {
        forest_end(recs, pos + 1, recs[pos].4 as nat)
    }
}

/// Where `count` consecutive subtrees starting at `pos` end.
pub open spec fn forest_end(recs: Seq<RecordView>, pos: int, count: nat) -> Option<int>
    decreases recs.len() - pos, count + 1,
{
    if count == 0 {
        Some(pos)
    } else if pos < 0 || pos >= recs.len() {
        None
    } else {
        match subtree_end(recs, pos) {
            Some(next) => if next <= pos || next > recs.len() {
                None
            } else {
                forest_end(recs, next, (count - 1) as nat)
            },
            None => None,
        }
    }
}

/// Reads the node whose record is at `pos`: a node without children, or of
/// a kind that stops the tree, is a leaf whose value is the text of its
/// byte range (which must fall between characters), and that closes a
/// block when its kind is listed so; any other node has its children read
/// in order, and unordered children when its kind is listed so. Gives the
/// reading and the position after the node's subtree.
pub open spec fn read_node(
    recs: Seq<RecordView>,
    pos: int,
    src: Seq<u8>,
    cfg: ParserConfiguration,
) -> Option<(Reading, int)>
    decreases recs.len() - pos, 0nat,
{
    if pos < 0 || pos >= recs.len() {
        None
    } else {
        let r = recs[pos];
        if r.4 == 0 || listed(cfg.stop_compilation_at@, r.0) {
            match subtree_end(recs, pos) {
                None => None,
                Some(next) => if is_char_range(src, r.3.0 as int, r.3.1 as int) {
                    Some(
                        (
                            Reading::Leaf {
                                kind: r.0,
                                value: decode_utf8(src.subrange(r.3.0 as int, r.3.1 as int)),
                                start: point_of(r.1),
                                end: point_of(r.2),
                                block_end: listed(cfg.block_end_delimiters@, r.0),
                            },
                            next,
                        ),
                    )
                } else {
                    None
                },
            }
        } else {
            match read_forest(recs, pos + 1, r.4 as nat, src, cfg) {
                None => None,
                Some((children, next)) => Some(
                    (
                        Reading::Inner {
                            kind: r.0,
                            children,
                            start: point_of(r.1),
                            end: point_of(r.2),
                            unordered: listed(cfg.kinds_with_unordered_children@, r.0),
                        },
                        next,
                    ),
                ),
            }
        }
    }
}

/// Reads `count` consecutive nodes starting at `pos`.
pub open spec fn read_forest(
    recs: Seq<RecordView>,
    pos: int,
    count: nat,
    src: Seq<u8>,
    cfg: ParserConfiguration,
) -> Option<(Seq<Reading>, int)>
    decreases recs.len() - pos, count + 1,
{
    if count == 0 {
        Some((Seq::empty(), pos))
    } else if pos < 0 || pos >= recs.len() {
        None
    } else {
        match read_node(recs, pos, src, cfg) {
            None => None,
            Some((t, next)) => if next <= pos || next > recs.len() {
                None
            } else {
                match read_forest(recs, next, (count - 1) as nat, src, cfg) {
                    None => None,
                    Some((rest, end)) => Some((seq![t] + rest, end)),
                }
            },
        }
    }
}

pub open spec fn prepend(acc: Seq<Reading>, o: Option<(Seq<Reading>, int)>) -> Option<
    (Seq<Reading>, int),
> {
    match o {
        Some((rest, end)) => Some((acc + rest, end)),
        None => None,
    }
}

/// The position after the subtree of the record at `pos`.
fn skip_subtree(records: &Vec<SyntaxRecord>, pos: usize) -> (res: Option<usize>)
    ensures
        match subtree_end(records_view(records@), pos as int) {
            Some(next) => res matches Some(n) && n == next,
            None => res is None,
        },
    decreases records@.len() - pos,
{
    let ghost recs = records_view(records@);
    if pos >= records.len() {
        return None;
    }
    let count = records[pos].7;
    let mut cur: usize = pos + 1;
    let mut i: usize = 0;
    while i < count
        invariant
            recs == records_view(records@),
            pos < records@.len(),
            pos < cur <= records@.len(),
            count == recs[pos as int].4,
            i <= count,
            forest_end(recs, pos + 1, count as nat) == forest_end(
                recs,
                cur as int,
                (count - i) as nat,
            ),
        decreases count - i,
    {
        if cur >= records.len() {
            return None;
        }
        match skip_subtree(records, cur) {
            Some(n) => {
                if n <= cur || n > records.len() {
                    return None;
                }
                cur = n;
            },
            None => {
                return None;
            },
        }
        i = i + 1;
    }
    Some(cur)
}

/// Reads the node whose record is at `pos` and all below it (see
/// `read_node`); every node read gets a fresh identifier. Gives the node
/// and the position after its subtree.
fn explore_node(
    records: &Vec<SyntaxRecord>,
    pos: usize,
    src: &str,
    config: &ParserConfiguration,
) -> (res: Option<(CSTNode, usize)>)
    ensures
        match read_node(records_view(records@), pos as int, src.spec_bytes(), *config) {
            Some((r, next)) => res matches Some((t, n)) && n == next && erase(t) == r,
            None => res is None,
        },
    decreases records@.len() - pos,
{
    let ghost recs = records_view(records@);
    let ghost bytes = src.spec_bytes();
    if pos >= records.len() {
        return None;
    }
    let record = &records[pos];
    assert(recs[pos as int] == record@);
    let kind = record.0.as_str();
    if record.7 == 0 || is_listed(&config.stop_compilation_at, kind) {
        let next = match skip_subtree(records, pos) {
            Some(n) => n,
            None => {
                return None;
            },
        };
        let piece = match byte_slice(src, record.5, record.6) {
            Some(p) => p,
            None => {
                return None;
            },
        };
        let value = piece.to_owned();
        proof {
            encode_utf8_decode_utf8(value@);
            assert(encode_utf8(value@) == bytes.subrange(
                record.5 as int,
                record.6 as int,
            ));
        }
        let t = CSTNode::Terminal(
            Terminal {
                id: fresh_id(),
                kind: kind.to_owned(),
                value,
                start_position: Point { row: record.1, column: record.2 },
                end_position: Point { row: record.3, column: record.4 },
                is_block_end_delimiter: is_listed(&config.block_end_delimiters, kind),
            },
        );
        return Some((t, next));
    }
    let count = record.7;
    let mut children: Vec<CSTNode> = Vec::new();
    let mut cur: usize = pos + 1;
    let mut i: usize = 0;
    proof {
        assert(children@ =~= Seq::<CSTNode>::empty());
        if let Some((rest, end)) = read_forest(recs, pos + 1, count as nat, bytes, *config) {
            assert(Seq::<Reading>::empty() + rest =~= rest);
        }
    }
    while i < count
        invariant
            recs == records_view(records@),
            bytes == src.spec_bytes(),
            pos < records@.len(),
            pos < cur <= records@.len(),
            count == recs[pos as int].4,
            !(count == 0 || listed(config.stop_compilation_at@, recs[pos as int].0)),
            i <= count,
            read_forest(recs, pos + 1, count as nat, bytes, *config) == prepend(
                erase_forest(children@),
                read_forest(recs, cur as int, (count - i) as nat, bytes, *config),
            ),
        decreases count - i,
    {
        let ghost before = children@;
        let ghost rest_before = read_forest(recs, cur as int, (count - i) as nat, bytes, *config);
        if cur >= records.len() {
            proof {
                assert(rest_before is None);
            }
            return None;
        }
        match explore_node(records, cur, src, config) {
            Some((c, n)) => {
                if n <= cur || n > records.len() {
                    proof {
                        assert(rest_before is None);
                    }
                    return None;
                }
                children.push(c);
                proof {
                    assert(children@.drop_last() =~= before);
                    let tail = read_forest(recs, n as int, (count - i - 1) as nat, bytes, *config);
                    if let Some((rest, end)) = tail {
                        assert(erase_forest(before) + (seq![erase(c)] + rest) =~= erase_forest(
                            children@,
                        ) + rest);
                    }
                }
                cur = n;
            },
            None => {
                proof {
                    assert(rest_before is None);
                }
                return None;
            },
        }
        i = i + 1;
    }
    proof {
        assert(erase_forest(children@) + Seq::<Reading>::empty() =~= erase_forest(children@));
    }
    let t = CSTNode::NonTerminal(
        NonTerminal {
            id: fresh_id(),
            kind: kind.to_owned(),
            children,
            start_position: Point { row: record.1, column: record.2 },
            end_position: Point { row: record.3, column: record.4 },
            are_children_unordered: is_listed(&config.kinds_with_unordered_children, kind),
        },
    );
    Some((t, cur))
}
/// What parsing a text gives before the rewrites: the reading of the tree
/// that the Java grammar gives for the text, read from its root, or the
/// message of the failure.
pub open spec fn spec_parse_outcome(text: Seq<char>, cfg: ParserConfiguration) -> Result<
    Reading,
    Seq<char>,
> {
    match java_syntax_tree(text) {
        None => Err("There was an error while setting the parser language"@),
        Some(None) => Err("It was not possible to parse the tree."@),
        Some(Some(recs)) => match read_node(recs, 0, encode_utf8(text), cfg) {
            Some((r, _)) => Ok(r),
            None => Err("It was not possible to read the syntax tree."@),
        },
    }
}

/// The trees that parsing the text gives: a tree whose reading is the
/// text's reading, under fresh identifiers, with the rewrites applied.
pub open spec fn parses_to(t: CSTNode, text: Seq<char>, cfg: ParserConfiguration) -> bool {
    &&& spec_parse_outcome(text, cfg) is Ok
    &&& exists|read: CSTNode|
        erase(read) == spec_parse_outcome(text, cfg)->Ok_0 && #[trigger] handled_by(
            cfg.handlers@,
            read,
            t,
        )
}

/// Parses the text with the configuration's grammar and applies its
/// rewrites. Fails when the grammar cannot be set, when the parser gives
/// no tree, or when the tree cannot be read (a byte range that does not
/// fall between characters).
pub fn parse_string(src: &str, config: &ParserConfiguration) -> (res: Result<CSTNode, &'static str>)
    ensures
        match spec_parse_outcome(src@, *config) {
            Ok(_) => res matches Ok(t) && parses_to(t, src@, *config),
            Err(m) => res matches Err(e) && e@ == m,
        },
{
    let parsed = match config.language {
        Language::Java => parse_java(src),
    };
    let records = match parsed {
        None => {
            return Err("There was an error while setting the parser language");
        },
        Some(None) => {
            return Err("It was not possible to parse the tree.");
        },
        Some(Some(records)) => records,
    };
    let read = match explore_node(&records, 0, src, config) {
        Some((t, _)) => t,
        None => {
            return Err("It was not possible to read the syntax tree.");
        },
    };
    let ghost read_view = read;
    let res = config.handlers.run(read);
    assert(handled_by(config.handlers@, read_view, res));
    Ok(res)
}

} // verus!
