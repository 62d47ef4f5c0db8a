use generic_merge::matching_handlers::java::{
    compute_matching_score_for_class_like_declaration, compute_matching_score_for_field_declaration,
    compute_matching_score_for_import_declaration, compute_matching_score_for_method_declaration,
    find_identifier, get_default_java_matching_handlers,
};
use generic_merge::matching_handlers::{MatchingHandler, MatchingHandlers};
use generic_merge::model::{CSTNode, Language, NonTerminal, Terminal};

fn leaf(kind: &str, value: &str) -> CSTNode {
    CSTNode::Terminal(Terminal {
        kind: String::from(kind),
        value: String::from(value),
        ..Default::default()
    })
}

fn inner(kind: &str, children: Vec<CSTNode>) -> CSTNode {
    CSTNode::NonTerminal(NonTerminal {
        kind: String::from(kind),
        children,
        ..Default::default()
    })
}

fn make_class_like_declaration(identifier: &str) -> CSTNode {
    inner("class_declaration", vec![leaf("identifier", identifier)])
}

#[test]
fn classes_with_the_same_name_match_with_score_one() {
    let result = compute_matching_score_for_class_like_declaration(
        &make_class_like_declaration("ABC"),
        &make_class_like_declaration("ABC"),
    );
    assert_eq!(1, result);
}

#[test]
fn classes_of_different_names_do_not_match() {
    let result = compute_matching_score_for_class_like_declaration(
        &make_class_like_declaration("ABC"),
        &make_class_like_declaration("DEF"),
    );
    assert_eq!(0, result);
}

fn make_field_declarator_node_with_identifier(identifier: &str) -> CSTNode {
    inner(
        "field_declaration",
        vec![
            inner("modifiers", vec![leaf("private", "private")]),
            leaf("type_identifier", "String"),
            inner("variable_declarator", vec![leaf("identifier", identifier)]),
            leaf(";", ";"),
        ],
    )
}

#[test]
fn it_returns_one_if_nodes_have_the_same_identifier() {
    let left = make_field_declarator_node_with_identifier("an_identifier");
    let right = make_field_declarator_node_with_identifier("an_identifier");
    let matching_score = compute_matching_score_for_field_declaration(&left, &right);
    assert_eq!(1, matching_score);
}

#[test]
fn it_returns_zero_if_nodes_have_different_identifiers() {
    let left = make_field_declarator_node_with_identifier("an_identifier_a");
    let right = make_field_declarator_node_with_identifier("an_identifier_b");
    let matching_score = compute_matching_score_for_field_declaration(&left, &right);
    assert_eq!(0, matching_score);
}

fn make_import_of_resource(resource: &str) -> CSTNode {
    inner(
        "import_declaration",
        vec![inner(
            "scoped_identifier",
            resource.split('.').map(|part| leaf("identifier", part)).collect(),
        )],
    )
}

#[test]
fn imports_of_the_same_resource_matches_with_one() {
    let result = compute_matching_score_for_import_declaration(
        &make_import_of_resource("java.util.array"),
        &make_import_of_resource("java.util.array"),
    );
    assert_eq!(1, result);
}

#[test]
fn imports_of_different_resources_matches_with_zero() {
    let result = compute_matching_score_for_import_declaration(
        &make_import_of_resource("java.util.array"),
        &make_import_of_resource("java.util.list"),
    );
    assert_eq!(0, result);
}

#[test]
fn imports_with_asterisks_do_match_if_they_are_equal() {
    let node = inner(
        "import_declaration",
        vec![
            leaf("identifier", "AST"),
            leaf(".", "."),
            leaf("asterisk", "*"),
        ],
    );
    let result = compute_matching_score_for_import_declaration(&node, &node);
    assert_eq!(1, result);
}

fn make_method_declaration_node(identifier: &str, parameter: CSTNode) -> CSTNode {
    inner(
        "method_declaration",
        vec![
            inner("modifiers", vec![leaf("public", "public")]),
            leaf("void_type", "void"),
            leaf("identifier", identifier),
            inner("formal_parameters", vec![leaf("(", "("), parameter, leaf(")", ")")]),
            inner("block", vec![leaf("{", "{"), leaf("}", "}")]),
        ],
    )
}

fn make_method_parameter(a_type: &str, identifier: &str) -> CSTNode {
    inner(
        "formal_parameter",
        vec![leaf("type_identifier", a_type), leaf("identifier", identifier)],
    )
}

#[test]
fn it_returns_one_if_methods_have_the_same_identifier() {
    let left = make_method_declaration_node("an_identifier", make_method_parameter("String", "name"));
    let right =
        make_method_declaration_node("an_identifier", make_method_parameter("String", "name"));
    let matching_score = compute_matching_score_for_method_declaration(&left, &right);
    assert_eq!(1, matching_score);
}

#[test]
fn it_returns_zero_if_methods_have_different_identifiers() {
    let left =
        make_method_declaration_node("an_identifier_a", make_method_parameter("String", "name"));
    let right =
        make_method_declaration_node("an_identifier_b", make_method_parameter("String", "name"));
    let matching_score = compute_matching_score_for_method_declaration(&left, &right);
    assert_eq!(0, matching_score);
}

#[test]
fn it_returns_one_if_methods_have_equal_identifiers_and_equal_parameters_list() {
    let left = make_method_declaration_node("an_identifier", make_method_parameter("String", "name"));
    let right = make_method_declaration_node(
        "an_identifier",
        make_method_parameter("String", "another_name"),
    );
    let matching_score = compute_matching_score_for_method_declaration(&left, &right);
    assert_eq!(1, matching_score);
}

#[test]
fn it_returns_zero_if_methods_have_equal_identifiers_but_different_parameters_list() {
    let parameter_left = make_method_parameter("String", "name");
    let parameter_right = make_method_parameter("int", "another_name");
    let left = make_method_declaration_node("an_identifier", parameter_left);
    let right = make_method_declaration_node("an_identifier", parameter_right);
    let matching_score = compute_matching_score_for_method_declaration(&left, &right);
    assert_eq!(0, matching_score);
}

#[test]
fn the_identifier_is_the_first_identifier_child() {
    let children = vec![leaf("type_identifier", "T"), leaf("identifier", "x"), leaf("identifier", "y")];
    assert_eq!(find_identifier(&children).unwrap().value, "x");
    let none: Vec<CSTNode> = vec![leaf("type_identifier", "T")];
    assert!(find_identifier(&none).is_none());
}

#[test]
fn handlers_score_only_nodes_of_their_kind() {
    let handlers = get_default_java_matching_handlers();
    let left = make_field_declarator_node_with_identifier("a");
    let right = make_field_declarator_node_with_identifier("a");
    assert_eq!(handlers.compute_matching_score(&left, &right), Some(1));
    let other = make_class_like_declaration("a");
    assert_eq!(handlers.compute_matching_score(&left, &other), Some(0));
    let unknown = inner("block", vec![]);
    assert_eq!(handlers.compute_matching_score(&unknown, &unknown), None);
    let constructors = MatchingHandlers::from(Language::Java);
    let ctor = inner(
        "constructor_declaration",
        vec![
            leaf("identifier", "Main"),
            inner("formal_parameters", vec![leaf("(", "("), leaf(")", ")")]),
        ],
    );
    assert_eq!(constructors.compute_matching_score(&ctor, &ctor), Some(1));
}

#[test]
fn a_registered_handler_replaces_the_one_of_the_same_kind() {
    let mut handlers = MatchingHandlers::new();
    let left = make_class_like_declaration("A");
    let right = make_class_like_declaration("B");
    assert_eq!(handlers.compute_matching_score(&left, &right), None);
    handlers.register("class_declaration", MatchingHandler::ClassLikeDeclaration);
    assert_eq!(handlers.compute_matching_score(&left, &right), Some(0));
    handlers.register("class_declaration", MatchingHandler::ImportDeclaration);
    assert_eq!(handlers.compute_matching_score(&left, &left), Some(1));
}
