//! Matching scores for Java declarations: two declarations match when they
//! declare the same thing.
use crate::matching_handlers::{handler_key_index, MatchingHandler, MatchingHandlers};
use crate::model::{spec_contents, CSTNode, NonTerminal, Terminal};
use vstd::prelude::*;

verus! {

/// The index of the first node of the given kind.
pub open spec fn first_of_kind(s: Seq<CSTNode>, kind: Seq<char>) -> Option<int>
    decreases s.len(),
{
    if s.len() == 0 {
        None
    } else {
        match first_of_kind(s.drop_last(), kind) {
            Some(i) => Some(i),
            None => if s.last().spec_kind() == kind {
                Some(s.len() - 1)
            } else {
                None
            },
        }
    }
}

proof fn lemma_first_of_kind_step(s: Seq<CSTNode>, kind: Seq<char>, i: int)
    requires
        0 <= i < s.len(),
    ensures
        first_of_kind(s.take(i + 1), kind) == (match first_of_kind(s.take(i), kind) {
            Some(k) => Some(k),
            None => if s[i].spec_kind() == kind {
                Some(i)
            } else {
                None
            },
        }),
{
    assert(s.take(i + 1).drop_last() =~= s.take(i));
}

proof fn lemma_first_of_kind_found(s: Seq<CSTNode>, kind: Seq<char>, i: int)
    requires
        0 <= i < s.len(),
        first_of_kind(s.take(i + 1), kind) == Some(i),
    ensures
        first_of_kind(s, kind) == Some(i),
    decreases s.len(),
{
    if s.len() > i + 1 {
        assert(s.drop_last().take(i + 1) =~= s.take(i + 1));
        lemma_first_of_kind_found(s.drop_last(), kind, i);
    } else {
        assert(s.take(i + 1) =~= s);
    }
}

proof fn lemma_first_of_kind_bounds(s: Seq<CSTNode>, kind: Seq<char>)
    ensures
        first_of_kind(s, kind) matches Some(i) ==> 0 <= i < s.len() && s[i].spec_kind() == kind,
    decreases s.len(),
{
    if s.len() > 0 {
        lemma_first_of_kind_bounds(s.drop_last(), kind);
    }
}

/// The first node of the given kind among `node_children`.
pub fn find_child_of_kind<'a>(node_children: &'a Vec<CSTNode>, kind: &str) -> (res: Option<
    &'a CSTNode,
>)
    ensures
        match first_of_kind(node_children@, kind@) {
            Some(i) => res == Some(&node_children@[i]),
            None => res is None,
        },
{
    let mut i: usize = 0;
    while i < node_children.len()
        invariant
            i <= node_children@.len(),
            first_of_kind(node_children@.take(i as int), kind@) is None,
        decreases node_children@.len() - i,
    {
        proof {
            lemma_first_of_kind_step(node_children@, kind@, i as int);
        }
        if node_children[i].has_kind(kind) {
            proof {
                lemma_first_of_kind_found(node_children@, kind@, i as int);
            }
            return Some(&node_children[i]);
        }
        i = i + 1;
    }
    assert(node_children@.take(i as int) =~= node_children@);
    None
}

/// The value of the first identifier among the children, when it is a leaf.
pub open spec fn spec_identifier(s: Seq<CSTNode>) -> Option<Seq<char>> {
    match first_of_kind(s, "identifier"@) {
        Some(i) => match s[i] {
            CSTNode::Terminal(t) => Some(t.value@),
            CSTNode::NonTerminal(_) => None,
        },
        None => None,
    }
}

/// The first child of kind `identifier`, when it is a leaf.
pub fn find_identifier<'a>(node_children: &'a Vec<CSTNode>) -> (res: Option<&'a Terminal>)
    ensures
        match first_of_kind(node_children@, "identifier"@) {
            Some(i) => match node_children@[i] {
                CSTNode::Terminal(t) => res == Some(&t),
                CSTNode::NonTerminal(_) => res is None,
            },
            None => res is None,
        },
{
    match find_child_of_kind(node_children, "identifier") {
        Some(node) => match node {
            CSTNode::Terminal(terminal) => Some(terminal),
            CSTNode::NonTerminal(_) => None,
        },
        None => None,
    }
}

/// The first child of kind `variable_declarator`, when it is an inner node.
fn find_variable_declarator<'a>(node_children: &'a Vec<CSTNode>) -> (res: Option<&'a NonTerminal>)
    ensures
        match first_of_kind(node_children@, "variable_declarator"@) {
            Some(i) => match node_children@[i] {
                CSTNode::NonTerminal(n) => res == Some(&n),
                CSTNode::Terminal(_) => res is None,
            },
            None => res is None,
        },
{
    match find_child_of_kind(node_children, "variable_declarator") {
        Some(node) => match node {
            CSTNode::NonTerminal(non_terminal) => Some(non_terminal),
            CSTNode::Terminal(_) => None,
        },
        None => None,
    }
}

/// The contents of the first child of the given kind.
pub open spec fn child_contents_of_kind(s: Seq<CSTNode>, kind: Seq<char>) -> Option<Seq<char>> {
    match first_of_kind(s, kind) {
        Some(i) => Some(spec_contents(s[i])),
        None => None,
    }
}

/// Class-like declarations match when both name the same identifier.
pub open spec fn spec_class_like_score(left: CSTNode, right: CSTNode) -> nat {
    match (left, right) {
        (CSTNode::NonTerminal(l), CSTNode::NonTerminal(r)) => {
            let a = child_contents_of_kind(l.children@, "identifier"@);
            let b = child_contents_of_kind(r.children@, "identifier"@);
            if a is Some && a == b {
                1
            } else {
                0
            }
        },
        _ => 0,
    }
}

fn child_contents(node_children: &Vec<CSTNode>, kind: &str) -> (res: Option<String>)
    ensures
        match child_contents_of_kind(node_children@, kind@) {
            Some(c) => res matches Some(s) && s@ == c,
            None => res is None,
        },
{
    proof {
        lemma_first_of_kind_bounds(node_children@, kind@);
    }
    match find_child_of_kind(node_children, kind) {
        Some(node) => Some(node.contents()),
        None => None,
    }
}

/// Both are present and equal.
fn same_present_string(a: &Option<String>, b: &Option<String>) -> (res: bool)
    ensures
        res == (a is Some && b is Some && a->0@ == b->0@),
{
    match (a, b) {
        (Some(x), Some(y)) => *x == *y,
        _ => false,
    }
}

/// One when two class-like declarations have the same name, zero otherwise.
pub fn compute_matching_score_for_class_like_declaration(left: &CSTNode, right: &CSTNode) -> (res:
    usize)
    ensures
        res == spec_class_like_score(*left, *right),
{
    match (left, right) {
        (CSTNode::NonTerminal(l), CSTNode::NonTerminal(r)) => {
            let identifier_left = child_contents(&l.children, "identifier");
            let identifier_right = child_contents(&r.children, "identifier");
            if same_present_string(&identifier_left, &identifier_right) {
                1
            } else {
                0
            }
        },
        (_, _) => 0,
    }
}

/// The identifier of a field: the first identifier inside its first
/// variable declarator.
pub open spec fn spec_field_identifier(s: Seq<CSTNode>) -> Option<Seq<char>> {
    match first_of_kind(s, "variable_declarator"@) {
        Some(i) => match s[i] {
            CSTNode::NonTerminal(n) => spec_identifier(n.children@),
            CSTNode::Terminal(_) => None,
        },
        None => None,
    }
}

/// Field declarations match when they declare the same identifier.
pub open spec fn spec_field_score(left: CSTNode, right: CSTNode) -> nat {
    match (left, right) {
        (CSTNode::NonTerminal(l), CSTNode::NonTerminal(r)) => {
            let a = spec_field_identifier(l.children@);
            let b = spec_field_identifier(r.children@);
            if a is Some && a == b {
                1
            } else {
                0
            }
        },
        _ => 0,
    }
}

fn field_identifier(node_children: &Vec<CSTNode>) -> (res: Option<String>)
    ensures
        match spec_field_identifier(node_children@) {
            Some(c) => res matches Some(s) && s@ == c,
            None => res is None,
        },
{
    match find_variable_declarator(node_children) {
        Some(declarator) => match find_identifier(&declarator.children) {
            Some(terminal) => Some(terminal.value.clone()),
            None => None,
        },
        None => None,
    }
}

/// One when two field declarations declare the same variable, zero otherwise.
pub fn compute_matching_score_for_field_declaration(left: &CSTNode, right: &CSTNode) -> (res:
    usize)
    ensures
        res == spec_field_score(*left, *right),
{
    match (left, right) {
        (CSTNode::NonTerminal(l), CSTNode::NonTerminal(r)) => {
            let identifier_left = field_identifier(&l.children);
            let identifier_right = field_identifier(&r.children);
            if same_present_string(&identifier_left, &identifier_right) {
                1
            } else {
                0
            }
        },
        (_, _) => 0,
    }
}

/// Imports match when their contents are equal.
pub open spec fn spec_import_score(left: CSTNode, right: CSTNode) -> nat {
    if spec_contents(left) == spec_contents(right) {
        1
    } else {
        0
    }
}

/// One when two import declarations have the same contents, zero otherwise.
pub fn compute_matching_score_for_import_declaration(left: &CSTNode, right: &CSTNode) -> (res:
    usize)
    ensures
        res == spec_import_score(*left, *right),
{
    if left.contents() == right.contents() {
        1
    } else {
        0
    }
}

/// A child that is a formal parameter with at least one child.
pub open spec fn is_typed_parameter(node: CSTNode) -> bool {
    node.spec_kind() == "formal_parameter"@ && node is NonTerminal && node.spec_children().len() > 0
}

/// The contents of the first child of every typed formal parameter, in order.
pub open spec fn spec_parameter_types(s: Seq<CSTNode>) -> Seq<Seq<char>>
    decreases s.len(),
{
    if s.len() == 0 {
        Seq::empty()
    } else if is_typed_parameter(s.last()) {
        spec_parameter_types(s.drop_last()).push(spec_contents(s.last().spec_children()[0]))
    } else {
        spec_parameter_types(s.drop_last())
    }
}

/// The argument types of a formal parameter list.
pub open spec fn spec_argument_types(node: CSTNode) -> Seq<Seq<char>> {
    match node {
        CSTNode::Terminal(_) => Seq::empty(),
        CSTNode::NonTerminal(n) => spec_parameter_types(n.children@),
    }
}

fn extract_argument_types_from_formal_parameters(node: &CSTNode) -> (res: Vec<String>)
    ensures
        res@.map_values(|s: String| s@) == spec_argument_types(*node),
{
    match node {
        CSTNode::Terminal(_) => Vec::new(),
        CSTNode::NonTerminal(non_terminal) => {
            let mut types: Vec<String> = Vec::new();
            let mut i: usize = 0;
            while i < non_terminal.children.len()
                invariant
                    i <= non_terminal.children@.len(),
                    types@.map_values(|s: String| s@) == spec_parameter_types(
                        non_terminal.children@.take(i as int),
                    ),
                decreases non_terminal.children@.len() - i,
            {
                let child = &non_terminal.children[i];
                proof {
                    let t = non_terminal.children@.take(i + 1);
                    assert(t.drop_last() =~= non_terminal.children@.take(i as int));
                    assert(t.last() == non_terminal.children@[i as int]);
                }
                if child.has_kind("formal_parameter") {
                    match child {
                        CSTNode::NonTerminal(parameter) => {
                            if parameter.children.len() > 0 {
                                let c = parameter.children[0].contents();
                                let ghost before = types@;
                                types.push(c);
                                proof {
                                    assert(types@.map_values(|s: String| s@) =~= before.map_values(
                                        |s: String| s@,
                                    ).push(c@));
                                }
                            }
                        },
                        CSTNode::Terminal(_) => {},
                    }
                }
                i = i + 1;
            }
            assert(non_terminal.children@.take(i as int) =~= non_terminal.children@);
            types
        },
    }
}

/// The argument types of the first parameter list among the children.
pub open spec fn spec_method_arguments(s: Seq<CSTNode>) -> Option<Seq<Seq<char>>> {
    match first_of_kind(s, "formal_parameters"@) {
        Some(i) => Some(spec_argument_types(s[i])),
        None => None,
    }
}

/// Methods and constructors match when they have the same identifier and
/// the same argument types, so that overloads stay apart.
pub open spec fn spec_method_score(left: CSTNode, right: CSTNode) -> nat {
    match (left, right) {
        (CSTNode::NonTerminal(l), CSTNode::NonTerminal(r)) => {
            let a = child_contents_of_kind(l.children@, "identifier"@);
            let b = child_contents_of_kind(r.children@, "identifier"@);
            let ta = spec_method_arguments(l.children@);
            let tb = spec_method_arguments(r.children@);
            if a is Some && a == b && ta is Some && ta == tb {
                1
            } else {
                0
            }
        },
        _ => 0,
    }
}

/// The formal parameters among the children that have a child (their
/// type), in order.
pub open spec fn typed_parameters(s: Seq<CSTNode>) -> Seq<CSTNode> {
    s.filter(|c: CSTNode| is_typed_parameter(c))
}

/// The argument types of a parameter list have one entry per formal
/// parameter that has a child, in the order of the parameters, and the
/// `k`-th entry is the text of the first child (the type) of the `k`-th
/// such parameter.
pub proof fn lemma_argument_types_one_per_parameter(s: Seq<CSTNode>)
    ensures
        spec_parameter_types(s).len() == typed_parameters(s).len(),
        forall|k: int|
            0 <= k < typed_parameters(s).len() ==> #[trigger] spec_parameter_types(s)[k]
                == spec_contents(typed_parameters(s)[k].spec_children()[0]),
    decreases s.len(),
{
    if s.len() > 0 {
        lemma_argument_types_one_per_parameter(s.drop_last());
        reveal(Seq::filter);
        assert(typed_parameters(s) == if is_typed_parameter(s.last()) {
            typed_parameters(s.drop_last()).push(s.last())
        } else {
            typed_parameters(s.drop_last())
        });
        assert forall|k: int| 0 <= k < typed_parameters(s).len() implies #[trigger] spec_parameter_types(s)[k]
            == spec_contents(typed_parameters(s)[k].spec_children()[0]) by {
            if k < typed_parameters(s.drop_last()).len() {
                assert(spec_parameter_types(s.drop_last())[k] == spec_contents(
                    typed_parameters(s.drop_last())[k].spec_children()[0],
                ));
            }
        }
    }
}

/// The parameter list of a declaration: its first child of kind
/// `formal_parameters`.
pub open spec fn parameter_list(n: CSTNode) -> Option<CSTNode> {
    match first_of_kind(n.spec_children(), "formal_parameters"@) {
        Some(i) => Some(n.spec_children()[i]),
        None => None,
    }
}

/// The types of the typed parameters of a parameter list, one per typed
/// parameter in order, read off the parameters themselves.
pub open spec fn declared_types(list: CSTNode) -> Seq<Seq<char>> {
    let t = typed_parameters(list.spec_children());
    Seq::new(t.len(), |k: int| spec_contents(t[k].spec_children()[0]))
}

/// Overloads stay apart and equal signatures match: two method or
/// constructor declarations that both have a parameter list score zero
/// when their lists declare different types (a different number of typed
/// parameters, or a different type at some position), and score one when
/// they have the same identifier and the same types at every position.
pub proof fn lemma_method_score_by_parameter_types(left: CSTNode, right: CSTNode)
    requires
        parameter_list(left) is Some,
        parameter_list(right) is Some,
    ensures
        declared_types(parameter_list(left)->0) != declared_types(parameter_list(right)->0)
            ==> spec_method_score(left, right) == 0,
        declared_types(parameter_list(left)->0) == declared_types(parameter_list(right)->0)
            && child_contents_of_kind(left.spec_children(), "identifier"@) is Some
            && child_contents_of_kind(left.spec_children(), "identifier"@)
            == child_contents_of_kind(right.spec_children(), "identifier"@) ==> spec_method_score(
            left,
            right,
        ) == 1,
{
    let pl = parameter_list(left)->0;
    let pr = parameter_list(right)->0;
    lemma_argument_types_one_per_parameter(pl.spec_children());
    lemma_argument_types_one_per_parameter(pr.spec_children());
    assert(spec_argument_types(pl) =~= declared_types(pl));
    assert(spec_argument_types(pr) =~= declared_types(pr));
    assert(left is NonTerminal);
    assert(right is NonTerminal);
}

fn method_arguments(node_children: &Vec<CSTNode>) -> (res: Option<Vec<String>>)
    ensures
        match spec_method_arguments(node_children@) {
            Some(t) => res matches Some(v) && v@.map_values(|s: String| s@) == t,
            None => res is None,
        },
{
    proof {
        lemma_first_of_kind_bounds(node_children@, "formal_parameters"@);
    }
    match find_child_of_kind(node_children, "formal_parameters") {
        Some(node) => Some(extract_argument_types_from_formal_parameters(node)),
        None => None,
    }
}

/// Both lists are present and hold equal strings.
fn same_present_list(a: &Option<Vec<String>>, b: &Option<Vec<String>>) -> (res: bool)
    ensures
        res == (a is Some && b is Some && a->0@.map_values(|s: String| s@) == b->0@.map_values(
            |s: String| s@,
        )),
{
    match (a, b) {
        (Some(x), Some(y)) => {
            let ghost vx = x@.map_values(|s: String| s@);
            let ghost vy = y@.map_values(|s: String| s@);
            if x.len() != y.len() {
                assert(vx.len() != vy.len());
                return false;
            }
            let mut i: usize = 0;
            while i < x.len()
                invariant
                    a is Some && b is Some,
                    a->0@ == x@,
                    b->0@ == y@,
                    x.len() == y.len(),
                    i <= x.len(),
                    vx == x@.map_values(|s: String| s@),
                    vy == y@.map_values(|s: String| s@),
                    forall|k: int| 0 <= k < i ==> vx[k] == vy[k],
                decreases x.len() - i,
            {
                if !(x[i] == y[i]) {
                    assert(vx[i as int] == x@[i as int]@);
                    assert(vy[i as int] == y@[i as int]@);
                    assert(vx[i as int] != vy[i as int]);
                    return false;
                }
                i = i + 1;
            }
            assert(vx =~= vy);
            true
        },
        _ => false,
    }
}

/// One when two method or constructor declarations have the same name and
/// the same parameter types, zero otherwise.
pub fn compute_matching_score_for_method_declaration(left: &CSTNode, right: &CSTNode) -> (res:
    usize)
    ensures
        res == spec_method_score(*left, *right),
{
    match (left, right) {
        (CSTNode::NonTerminal(l), CSTNode::NonTerminal(r)) => {
            let identifier_left = child_contents(&l.children, "identifier");
            let identifier_right = child_contents(&r.children, "identifier");
            let type_of_left_arguments = method_arguments(&l.children);
            let type_of_right_arguments = method_arguments(&r.children);
            let identifiers_are_equal = same_present_string(&identifier_left, &identifier_right);
            let arguments_are_equal = same_present_list(
                &type_of_left_arguments,
                &type_of_right_arguments,
            );
            if identifiers_are_equal && arguments_are_equal {
                1
            } else {
                0
            }
        },
        (_, _) => 0,
    }
}

/// The handlers for Java: fields by their identifier, methods and
/// constructors by identifier and argument types.
pub fn get_default_java_matching_handlers() -> (res: MatchingHandlers)
    ensures
        res@ == seq![
            ("field_declaration"@, MatchingHandler::FieldDeclaration),
            ("method_declaration"@, MatchingHandler::MethodDeclaration),
            ("constructor_declaration"@, MatchingHandler::MethodDeclaration),
        ],
{
    let mut matching_handlers = MatchingHandlers::new();
    proof {
        reveal_strlit("field_declaration");
        reveal_strlit("method_declaration");
        reveal_strlit("constructor_declaration");
        assert("field_declaration"@.len() != "method_declaration"@.len());
        assert("field_declaration"@.len() != "constructor_declaration"@.len());
        assert("method_declaration"@.len() != "constructor_declaration"@.len());
        assert("field_declaration"@ != "method_declaration"@);
        assert("field_declaration"@ != "constructor_declaration"@);
        assert("method_declaration"@ != "constructor_declaration"@);
    }
    matching_handlers.register("field_declaration", MatchingHandler::FieldDeclaration);
    assert(matching_handlers@ =~= seq![("field_declaration"@, MatchingHandler::FieldDeclaration)]);
    let ghost s1 = matching_handlers@;
    assert(s1.drop_last().len() == 0);
    assert(s1.last().0 == "field_declaration"@);
    assert(handler_key_index(s1.drop_last(), "method_declaration"@) is None);
    assert(handler_key_index(s1, "method_declaration"@) is None);
    matching_handlers.register("method_declaration", MatchingHandler::MethodDeclaration);
    assert(matching_handlers@ =~= seq![
        ("field_declaration"@, MatchingHandler::FieldDeclaration),
        ("method_declaration"@, MatchingHandler::MethodDeclaration),
    ]);
    let ghost s2 = matching_handlers@;
    assert(s2.drop_last() =~= s1);
    assert(s2.last().0 == "method_declaration"@);
    assert(handler_key_index(s1.drop_last(), "constructor_declaration"@) is None);
    assert(handler_key_index(s1, "constructor_declaration"@) is None);
    assert(handler_key_index(s2, "constructor_declaration"@) is None);
    matching_handlers.register("constructor_declaration", MatchingHandler::MethodDeclaration);
    assert(matching_handlers@ =~= seq![
        ("field_declaration"@, MatchingHandler::FieldDeclaration),
        ("method_declaration"@, MatchingHandler::MethodDeclaration),
        ("constructor_declaration"@, MatchingHandler::MethodDeclaration),
    ]);
    matching_handlers
}

} // verus!
