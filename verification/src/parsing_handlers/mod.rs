//! Rewrites applied to a freshly parsed tree before it is matched.
use crate::model::{CSTNode, Language, NonTerminal, Terminal};
use vstd::prelude::*;

verus! {

broadcast use vstd::std_specs::vec::group_vec_axioms, vstd::seq::group_seq_axioms;

/// A rewrite of a parsed tree.
#[derive(Clone, Copy, Debug, PartialEq, Eq, Structural)]
pub enum ParsingHandler {
    /// Gathers the import declarations of a program under one node.
    TweakImportDeclarations,
    /// Drops every comment from the tree.
    RemoveBlockComments,
}

/// The rewrites a language applies, in order.
pub struct ParsingHandlers {
    handlers: Vec<ParsingHandler>,
}

impl View for ParsingHandlers {
    type V = Seq<ParsingHandler>;

    closed spec fn view(&self) -> Seq<ParsingHandler> {
        self.handlers@
    }
}

pub open spec fn is_import(n: CSTNode) -> bool {
    n.spec_kind() == "import_declaration"@
}

pub open spec fn is_comment(n: CSTNode) -> bool {
    n.spec_kind() == "block_comment"@ || n.spec_kind() == "line_comment"@
}

/// The index of the first import declaration.
pub open spec fn first_import(s: Seq<CSTNode>) -> Option<int>
    decreases s.len(),
{
    if s.len() == 0 {
        None
    } else {
        match first_import(s.drop_last()) {
            Some(i) => Some(i),
            None => if is_import(s.last()) {
                Some(s.len() - 1)
            } else {
                None
            },
        }
    }
}

/// The index of the last import declaration.
pub open spec fn last_import(s: Seq<CSTNode>) -> Option<int>
    decreases s.len(),
{
    if s.len() == 0 {
        None
    } else if is_import(s.last()) {
        Some(s.len() - 1)
    } else {
        last_import(s.drop_last())
    }
}

/// The import declarations, in order.
pub open spec fn imports_of(s: Seq<CSTNode>) -> Seq<CSTNode>
    decreases s.len(),
{
    if s.len() == 0 {
        Seq::empty()
    } else if is_import(s.last()) {
        imports_of(s.drop_last()).push(s.last())
    } else {
        imports_of(s.drop_last())
    }
}

/// `res` is `root` with its import declarations gathered: a program with
/// imports keeps what comes before the first import and after the last
/// one, and between them one unordered node of kind `import_declarations`
/// that holds all the imports and spans from the first to the last; any
/// other tree is left as it is.
pub open spec fn tweaked(root: CSTNode, res: CSTNode) -> bool {
    let s = root.spec_children();
    if root.spec_kind() != "program"@ || root is Terminal || first_import(s) is None {
        res == root
    } else {
        let f = first_import(s)->0;
        let l = last_import(s)->0;
        &&& res is NonTerminal
        &&& res.spec_id() == root.spec_id()
        &&& res.spec_kind() == root.spec_kind()
        &&& res->NonTerminal_0.start_position == root->NonTerminal_0.start_position
        &&& res->NonTerminal_0.end_position == root->NonTerminal_0.end_position
        &&& res.spec_unordered() == root.spec_unordered()
        &&& res.spec_children().len() == f + 1 + (s.len() - l - 1)
        &&& res.spec_children().subrange(0, f) == s.subrange(0, f)
        &&& res.spec_children().subrange(f + 1, res.spec_children().len() as int) == s.subrange(
            l + 1,
            s.len() as int,
        )
        &&& res.spec_children()[f] is NonTerminal
        &&& {
            let imp = res.spec_children()[f]->NonTerminal_0;
            &&& imp.kind@ == "import_declarations"@
            &&& imp.children@ == imports_of(s)
            &&& imp.start_position == s[f].spec_start()
            &&& imp.end_position == s[l].spec_end()
            &&& imp.are_children_unordered
        }
    }
}

/// `res` is `orig` without its comments, at every depth.
pub open spec fn stripped(orig: CSTNode, res: CSTNode) -> bool
    decreases orig,
{
    match (orig, res) {
        (CSTNode::Terminal(a), CSTNode::Terminal(b)) => a == b,
        (CSTNode::NonTerminal(a), CSTNode::NonTerminal(b)) => {
            &&& a.id == b.id
            &&& a.kind == b.kind
            &&& a.start_position == b.start_position
            &&& a.end_position == b.end_position
            &&& a.are_children_unordered == b.are_children_unordered
            &&& forest_stripped(a.children@, b.children@)
        },
        _ => false,
    }
}

pub open spec fn forest_stripped(o: Seq<CSTNode>, r: Seq<CSTNode>) -> bool
    decreases o,
{
    if o.len() == 0 {
        r.len() == 0
    } else if is_comment(o.last()) {
        forest_stripped(o.drop_last(), r)
    } else {
        &&& r.len() > 0
        &&& stripped(o.last(), r.last())
        &&& forest_stripped(o.drop_last(), r.drop_last())
    }
}

/// `output` is what the rewrites `hs`, applied in order, make of `input`.
pub open spec fn handled_by(hs: Seq<ParsingHandler>, input: CSTNode, output: CSTNode) -> bool
    decreases hs.len(),
{
    if hs.len() == 0 {
        output == input
    } else {
        exists|mid: CSTNode|
            handled_by(hs.drop_last(), input, mid) && #[trigger] applied(hs.last(), mid, output)
    }
}

pub open spec fn applied(h: ParsingHandler, input: CSTNode, output: CSTNode) -> bool {
    match h {
        ParsingHandler::TweakImportDeclarations => tweaked(input, output),
        ParsingHandler::RemoveBlockComments => stripped(input, output),
    }
}

/// The position of the first import declaration.
fn find_first_import(children: &Vec<CSTNode>) -> (res: Option<usize>)
    ensures
        match res {
            Some(k) => first_import(children@) == Some(k as int),
            None => first_import(children@) is None,
        },
{
    let mut i: usize = 0;
    while i < children.len()
        invariant
            i <= children@.len(),
            first_import(children@.take(i as int)) is None,
        decreases children@.len() - i,
    {
        proof {
            reveal_strlit("import_declaration");
            let t = children@.take(i + 1);
            assert(t.drop_last() =~= children@.take(i as int));
        }
        if children[i].has_kind("import_declaration") {
            proof {
                lemma_first_import_extend(children@, i as int);
            }
            return Some(i);
        }
        i = i + 1;
    }
    assert(children@.take(i as int) =~= children@);
    None
}

proof fn lemma_first_import_extend(s: Seq<CSTNode>, i: int)
    requires
        0 <= i < s.len(),
        first_import(s.take(i + 1)) == Some(i),
    ensures
        first_import(s) == Some(i),
    decreases s.len(),
{
    if s.len() > i + 1 {
        assert(s.drop_last().take(i + 1) =~= s.take(i + 1));
        lemma_first_import_extend(s.drop_last(), i);
    } else {
        assert(s.take(i + 1) =~= s);
    }
}

/// The position of the last import declaration.
fn find_last_import(children: &Vec<CSTNode>) -> (res: Option<usize>)
    ensures
        match res {
            Some(k) => last_import(children@) == Some(k as int),
            None => last_import(children@) is None,
        },
{
    let mut i: usize = children.len();
    assert(children@.take(i as int) =~= children@);
    while i > 0
        invariant
            i <= children@.len(),
            last_import(children@) == last_import(children@.take(i as int)),
        decreases i,
    {
        proof {
            reveal_strlit("import_declaration");
            let t = children@.take(i as int);
            assert(t.drop_last() =~= children@.take(i - 1));
            assert(t.last() == children@[i - 1]);
        }
        if children[i - 1].has_kind("import_declaration") {
            return Some(i - 1);
        }
        i = i - 1;
    }
    assert(children@.take(0) =~= Seq::<CSTNode>::empty());
    None
}

proof fn lemma_first_last_import(s: Seq<CSTNode>)
    ensures
        first_import(s) is None <==> last_import(s) is None,
        first_import(s) matches Some(f) ==> 0 <= f < s.len() && is_import(s[f]) && (forall|k: int|
            0 <= k < f ==> !is_import(#[trigger] s[k])),
        last_import(s) matches Some(l) ==> 0 <= l < s.len() && is_import(s[l]) && (forall|k: int|
            l < k < s.len() ==> !is_import(#[trigger] s[k])),
        first_import(s) is Some ==> first_import(s)->0 <= last_import(s)->0,
        first_import(s) is None ==> imports_of(s) == Seq::<CSTNode>::empty(),
        first_import(s) is None ==> forall|k: int| 0 <= k < s.len() ==> !is_import(#[trigger] s[k]),
    decreases s.len(),
{
    if s.len() > 0 {
        lemma_first_last_import(s.drop_last());
        assert forall|k: int| 0 <= k < s.len() - 1 implies s.drop_last()[k] == s[k] by {}
    }
}

/// The import declarations among `s[from..to]`, when every import of `s`
/// lies in that range.
proof fn lemma_imports_of_range(s: Seq<CSTNode>, k: int)
    requires
        0 <= k <= s.len(),
    ensures
        imports_of(s.take(k)) + imports_of(s.skip(k)) == imports_of(s),
    decreases s.len() - k,
{
    if k < s.len() {
        lemma_imports_of_range(s, k + 1);
        assert(s.take(k + 1).drop_last() =~= s.take(k));
        assert(s.take(k + 1).last() == s[k]);
        lemma_imports_of_prepend(s.skip(k));
        assert(s.skip(k).drop_first() =~= s.skip(k + 1));
        assert(s.skip(k)[0] == s[k]);
    } else {
        assert(s.take(k) =~= s);
        assert(s.skip(k) =~= Seq::<CSTNode>::empty());
    }
}

proof fn lemma_imports_of_prepend(s: Seq<CSTNode>)
    requires
        s.len() > 0,
    ensures
        imports_of(s) == (if is_import(s[0]) {
            seq![s[0]] + imports_of(s.drop_first())
        } else {
            imports_of(s.drop_first())
        }),
    decreases s.len(),
{
    if s.len() > 1 {
        lemma_imports_of_prepend(s.drop_last());
        assert(s.drop_last().drop_first() =~= s.drop_first().drop_last());
        assert(s.drop_first().last() == s.last());
        assert(s.drop_last()[0] == s[0]);
    } else {
        assert(s.drop_first() =~= Seq::<CSTNode>::empty());
        assert(s.drop_last() =~= Seq::<CSTNode>::empty());
    }
}

/// Gathers the import declarations of a program under one unordered node
/// of kind `import_declarations` (see `tweaked`).
pub fn tweak_import_declarations(root: CSTNode) -> (res: CSTNode)
    ensures
        tweaked(root, res),
{
    let ghost orig = root;
    if !root.has_kind("program") {
        proof {
            reveal_strlit("program");
        }
        return root;
    }
    proof {
        reveal_strlit("program");
    }
    match root {
        CSTNode::Terminal(t) => {
            assert(orig == CSTNode::Terminal(t));
            assert(tweaked(orig, CSTNode::Terminal(t)));
            CSTNode::Terminal(t)
        },
        CSTNode::NonTerminal(program) => {
            let first = match find_first_import(&program.children) {
                Some(k) => k,
                None => {
                    return CSTNode::NonTerminal(program);
                },
            };
            proof {
                lemma_first_last_import(program.children@);
            }
            let last = match find_last_import(&program.children) {
                Some(k) => k,
                None => {
                    return CSTNode::NonTerminal(program);
                },
            };
            let imports_start = program.children[first].start_position();
            let imports_end = program.children[last].end_position();
            let ghost s = program.children@;
            let ghost program_view = program;
            let NonTerminal { id, kind, children, start_position, end_position, are_children_unordered } =
                program;
            let mut rest = children;
            let mut prefix: Vec<CSTNode> = Vec::new();
            let mut imports: Vec<CSTNode> = Vec::new();
            let mut suffix: Vec<CSTNode> = Vec::new();
            let mut idx: usize = 0;
            let n = rest.len();
            while rest.len() > 0
                invariant
                    n == s.len(),
                    are_children_unordered == program_view.are_children_unordered,
                    idx <= n,
                    first_import(s) == Some(first as int),
                    last_import(s) == Some(last as int),
                    first <= last < n,
                    rest@ == s.subrange(idx as int, n as int),
                    prefix@ == s.subrange(0, if idx < first {
                        idx as int
                    } else {
                        first as int
                    }),
                    suffix@ == (if idx > last + 1 {
                        s.subrange(last + 1, idx as int)
                    } else {
                        Seq::<CSTNode>::empty()
                    }),
                    imports@ == imports_of(s.take(idx as int)),
                decreases rest@.len(),
            {
                let c = rest.remove(0);
                proof {
                    reveal_strlit("import_declaration");
                    lemma_first_last_import(s);
                    assert(c == s[idx as int]);
                    assert(s.take(idx + 1).drop_last() =~= s.take(idx as int));
                    assert(s.take(idx + 1).last() == s[idx as int]);
                }
                if idx < first {
                    prefix.push(c);
                    proof {
                        assert(prefix@ =~= s.subrange(0, idx + 1));
                    }
                } else if idx > last {
                    suffix.push(c);
                    proof {
                        assert(suffix@ =~= s.subrange(last + 1, idx + 1));
                    }
                } else if c.has_kind("import_declaration") {
                    imports.push(c);
                }
                idx = idx + 1;
                proof {
                    assert(rest@ =~= s.subrange(idx as int, n as int));
                }
            }
            assert(idx == n);
            proof {
                lemma_first_last_import(s);
                assert(s.take(n as int) =~= s);
                if last + 1 == n {
                    assert(suffix@ =~= s.subrange(last + 1, n as int));
                }
            }
            let gathered = CSTNode::NonTerminal(
                NonTerminal {
                    id: crate::parsing::tree_sitter_api::fresh_id(),
                    kind: String::from_str("import_declarations"),
                    children: imports,
                    start_position: imports_start,
                    end_position: imports_end,
                    are_children_unordered: true,
                },
            );
            let mut new_children = prefix;
            new_children.push(gathered);
            let mut tail = suffix;
            new_children.append(&mut tail);
            proof {
                reveal_strlit("import_declarations");
            }
            let res = CSTNode::NonTerminal(
                NonTerminal {
                    id,
                    kind,
                    children: new_children,
                    start_position,
                    end_position,
                    are_children_unordered,
                },
            );
            proof {
                let f = first as int;
                let l = last as int;
                let rs = res.spec_children();
                assert(orig.spec_children() == s);
                assert(rs.len() == f + 1 + (s.len() - l - 1));
                assert(rs.subrange(0, f) =~= s.subrange(0, f));
                assert(rs.subrange(f + 1, rs.len() as int) =~= s.subrange(l + 1, s.len() as int));
                assert(rs[f] is NonTerminal);
                let imp = rs[f]->NonTerminal_0;
                assert(imp.children@ == imports_of(s));
                assert(imp.start_position == s[f].spec_start());
                assert(imp.end_position == s[l].spec_end());
            }
            res
        },
    }
}

/// Drops every block and line comment from the tree, at every depth.
pub fn remove_block_comments(root: CSTNode) -> (res: CSTNode)
    ensures
        stripped(root, res),
    decreases root,
{
    let ghost orig = root;
    match root {
        CSTNode::Terminal(t) => CSTNode::Terminal(t),
        CSTNode::NonTerminal(nt) => {
            let ghost s = nt.children@;
            let NonTerminal { id, kind, children, start_position, end_position, are_children_unordered } =
                nt;
            let mut rest = children;
            let mut kept: Vec<CSTNode> = Vec::new();
            let n = rest.len();
            let mut idx: usize = 0;
            while rest.len() > 0
                invariant
                    orig == root,
                    orig == CSTNode::NonTerminal(nt),
                    s == nt.children@,
                    n == s.len(),
                    idx <= n,
                    rest@ == s.subrange(idx as int, n as int),
                    forest_stripped(s.take(idx as int), kept@),
                decreases rest@.len(),
            {
                let c = rest.remove(0);
                proof {
                    reveal_strlit("block_comment");
                    reveal_strlit("line_comment");
                    assert(c == s[idx as int]);
                    assert(s.take(idx + 1).drop_last() =~= s.take(idx as int));
                    assert(s.take(idx + 1).last() == s[idx as int]);
                    assert(decreases_to!(orig => orig->NonTerminal_0));
                    assert(decreases_to!(orig->NonTerminal_0 => orig->NonTerminal_0.children));
                    assert(decreases_to!(orig->NonTerminal_0.children => s));
                    assert(decreases_to!(s => s[idx as int]));
                    assert(decreases_to!(orig => c));
                }
                if !(c.has_kind("block_comment") || c.has_kind("line_comment")) {
                    let ghost before = kept@;
                    let r = remove_block_comments(c);
                    kept.push(r);
                    proof {
                        assert(kept@.drop_last() =~= before);
                    }
                }
                idx = idx + 1;
                proof {
                    assert(rest@ =~= s.subrange(idx as int, n as int));
                }
            }
            assert(s.take(n as int) =~= s);
            CSTNode::NonTerminal(
                NonTerminal { id, kind, children: kept, start_position, end_position, are_children_unordered },
            )
        },
    }
}

impl ParsingHandlers {
    /// The given rewrites, in order.
    pub fn new(handlers: Vec<ParsingHandler>) -> (res: Self)
        ensures
            res@ == handlers@,
    {
        ParsingHandlers { handlers }
    }

    /// Applies the rewrites to the tree, in order.
    pub fn run(&self, root: CSTNode) -> (res: CSTNode)
        ensures
            handled_by(self@, root, res),
    {
        let mut acc = root;
        let mut i: usize = 0;
        while i < self.handlers.len()
            invariant
                i <= self@.len(),
                handled_by(self@.take(i as int), root, acc),
            decreases self@.len() - i,
        {
            let ghost before = acc;
            acc = match self.handlers[i] {
                ParsingHandler::TweakImportDeclarations => tweak_import_declarations(acc),
                ParsingHandler::RemoveBlockComments => remove_block_comments(acc),
            };
            proof {
                let t = self@.take(i + 1);
                assert(t.drop_last() =~= self@.take(i as int));
                assert(t.last() == self@[i as int]);
                assert(applied(t.last(), before, acc));
            }
            i = i + 1;
        }
        assert(self@.take(i as int) =~= self@);
        acc
    }

    /// The rewrites of a language.
    pub fn from(language: Language) -> (res: Self)
        ensures
            language == Language::Java ==> res@ == seq![ParsingHandler::TweakImportDeclarations],
    {
        match language {
            Language::Java => get_default_java_parsing_handlers(),
        }
    }
}

/// The rewrites for Java: gathering the import declarations.
pub fn get_default_java_parsing_handlers() -> (res: ParsingHandlers)
    ensures
        res@ == seq![ParsingHandler::TweakImportDeclarations],
{
    let mut handlers: Vec<ParsingHandler> = Vec::new();
    handlers.push(ParsingHandler::TweakImportDeclarations);
    ParsingHandlers::new(handlers)
}

/// The tree holds no comment below any inner node.
pub open spec fn comment_free(t: CSTNode) -> bool
    decreases t,
{
    match t {
        CSTNode::Terminal(_) => true,
        CSTNode::NonTerminal(n) => forest_comment_free(n.children@),
    }
}

pub open spec fn forest_comment_free(s: Seq<CSTNode>) -> bool
    decreases s,
{
    if s.len() == 0 {
        true
    } else {
        forest_comment_free(s.drop_last()) && !is_comment(s.last()) && comment_free(s.last())
    }
}

/// Removing comments leaves no comment anywhere below the root.
pub proof fn lemma_stripped_comment_free(orig: CSTNode, res: CSTNode)
    requires
        stripped(orig, res),
    ensures
        comment_free(res),
    decreases orig,
{
    match (orig, res) {
        (CSTNode::NonTerminal(a), CSTNode::NonTerminal(b)) => {
            lemma_forest_stripped_comment_free(a.children@, b.children@);
        },
        _ => {},
    }
}

proof fn lemma_forest_stripped_comment_free(o: Seq<CSTNode>, r: Seq<CSTNode>)
    requires
        forest_stripped(o, r),
    ensures
        forest_comment_free(r),
    decreases o,
{
    if o.len() > 0 {
        if is_comment(o.last()) {
            lemma_forest_stripped_comment_free(o.drop_last(), r);
        } else {
            lemma_forest_stripped_comment_free(o.drop_last(), r.drop_last());
            lemma_stripped_comment_free(o.last(), r.last());
            lemma_stripped_keeps_kind(o.last(), r.last());
        }
    }
}

proof fn lemma_stripped_keeps_kind(orig: CSTNode, res: CSTNode)
    requires
        stripped(orig, res),
    ensures
        res.spec_kind() == orig.spec_kind(),
{
}

proof fn lemma_no_first_import(s: Seq<CSTNode>)
    requires
        forall|k: int| 0 <= k < s.len() ==> !is_import(#[trigger] s[k]),
    ensures
        first_import(s) is None,
    decreases s.len(),
{
    if s.len() > 0 {
        assert forall|k: int| 0 <= k < s.len() - 1 implies !is_import(
            #[trigger] s.drop_last()[k],
        ) by {
            assert(s.drop_last()[k] == s[k]);
        }
        lemma_no_first_import(s.drop_last());
    }
}

/// Gathering the imports a second time changes nothing.
pub proof fn lemma_tweak_idempotent(root: CSTNode, once: CSTNode, twice: CSTNode)
    requires
        tweaked(root, once),
        tweaked(once, twice),
    ensures
        twice == once,
{
    let s = root.spec_children();
    if root.spec_kind() != "program"@ || root is Terminal || first_import(s) is None {
    } else {
        lemma_first_last_import(s);
        let f = first_import(s)->0;
        let l = last_import(s)->0;
        let c = once.spec_children();
        assert forall|k: int| 0 <= k < c.len() implies !is_import(#[trigger] c[k]) by {
            if k < f {
                assert(c[k] == c.subrange(0, f)[k]);
                assert(c[k] == s[k]);
            } else if k == f {
                reveal_strlit("import_declarations");
                reveal_strlit("import_declaration");
                assert(c[k].spec_kind() == "import_declarations"@);
                assert("import_declarations"@.len() != "import_declaration"@.len());
            } else {
                let j = k - (f + 1);
                assert(c[k] == c.subrange(f + 1, c.len() as int)[j]);
                assert(c[k] == s[l + 1 + j]);
            }
        }
        lemma_no_first_import(c);
    }
}

} // verus!
