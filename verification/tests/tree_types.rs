use generic_merge::changes_tree::{ASTNode, ChangesTreeNode, Modification};
use generic_merge::model::{CSTNode, NonTerminal, Point, Terminal};
use generic_merge::unordered_pair::UnorderedPair;

#[test]
fn i_can_create_an_ast_node() {
    let result = ASTNode {
        kind: String::from("class_declaration"),
        identifier: String::from("Main"),
        body: String::from("public class Main { public static void main(){} }"),
        children: vec![],
    };
    assert_eq!(result.kind, "class_declaration");
    assert_eq!(result.identifier, "Main");
    assert_eq!(
        result.body,
        "public class Main { public static void main(){} }"
    );
    assert_eq!(result.children.len(), 0);
}

#[test]
fn i_can_create_an_ast_node_with_children() {
    let result = ASTNode {
        kind: String::from("class_declaration"),
        identifier: String::from("Main"),
        body: String::from("public class Main { public static void main(){} }"),
        children: vec![ASTNode {
            kind: String::from("method_declaration"),
            identifier: String::from("main"),
            body: String::from("public static void main(){}"),
            children: vec![],
        }],
    };
    assert_eq!(result.kind, "class_declaration");
    assert_eq!(result.identifier, "Main");
    assert_eq!(
        result.body,
        "public class Main { public static void main(){} }"
    );
    assert_eq!(result.children.len(), 1);
}

#[test]
fn if_both_have_same_order_they_are_equal() {
    let left = "This is a value";
    let right = "This is another value";
    assert_eq!(UnorderedPair(left, right), UnorderedPair(left, right))
}

#[test]
fn does_not_take_order_into_account_for_equality() {
    let left = "This is a value";
    let right = "This is another value";
    assert_eq!(UnorderedPair(left, right), UnorderedPair(right, left))
}

#[test]
fn a_new_pair_holds_the_smaller_value_first() {
    let pair = UnorderedPair::new(7u64, 3u64);
    assert_eq!(pair.0, 3);
    assert_eq!(pair.1, 7);
    assert_eq!(UnorderedPair::new(3u64, 7u64), pair);
}

#[test]
fn pairs_with_different_values_are_not_equal() {
    assert_ne!(UnorderedPair(1u64, 2u64), UnorderedPair(1u64, 3u64));
}

fn sample_tree() -> ASTNode {
    ASTNode {
        kind: String::from("class_declaration"),
        identifier: String::from("Main"),
        body: String::from("public class Main { void a(){} }"),
        children: vec![ASTNode {
            kind: String::from("method_declaration"),
            identifier: String::from("a"),
            body: String::from("void a(){}"),
            children: vec![],
        }],
    }
}

fn assert_marked(node: &ASTNode, changes: &ChangesTreeNode, modification: Modification) {
    assert_eq!(changes.kind, node.kind);
    assert_eq!(changes.identifier, node.identifier);
    assert_eq!(changes.body, node.body);
    assert_eq!(changes.modification, modification);
    assert_eq!(changes.children.len(), node.children.len());
    for (child, change) in node.children.iter().zip(changes.children.iter()) {
        assert_marked(child, change, modification);
    }
}

#[test]
fn every_node_of_an_added_tree_is_marked_as_added() {
    let tree = sample_tree();
    let changes = ChangesTreeNode::of_added(&tree);
    assert_marked(&tree, &changes, Modification::Added);
}

#[test]
fn every_node_of_a_removed_tree_is_marked_as_removed() {
    let tree = sample_tree();
    let changes = ChangesTreeNode::of_removed(&tree);
    assert_marked(&tree, &changes, Modification::Removed);
}

#[test]
fn every_node_of_an_unchanged_tree_is_marked_as_unchanged() {
    let tree = sample_tree();
    let changes = ChangesTreeNode::of_unchanged(&tree);
    assert_marked(&tree, &changes, Modification::Unchanged);
    assert_eq!(changes.children[0].identifier, "a");
}

#[test]
fn the_contents_of_a_tree_put_a_space_before_every_child() {
    let tree = CSTNode::NonTerminal(NonTerminal {
        kind: String::from("block"),
        children: vec![
            CSTNode::Terminal(Terminal {
                kind: String::from("{"),
                value: String::from("{"),
                ..Default::default()
            }),
            CSTNode::Terminal(Terminal {
                kind: String::from("}"),
                value: String::from("}"),
                ..Default::default()
            }),
        ],
        ..Default::default()
    });
    assert_eq!(tree.contents(), " { }");
    assert_eq!(tree.get_tree_size(), 3);
}

#[test]
fn only_an_inner_node_converts_to_a_non_terminal() {
    let leaf = CSTNode::Terminal(Terminal {
        id: 4,
        kind: String::from("identifier"),
        value: String::from("x"),
        start_position: Point { row: 1, column: 2 },
        end_position: Point { row: 1, column: 3 },
        is_block_end_delimiter: false,
    });
    assert_eq!(
        NonTerminal::try_from(&leaf).unwrap_err(),
        "Cannot convert terminal to non-terminal"
    );
    let inner = CSTNode::NonTerminal(NonTerminal {
        id: 5,
        kind: String::from("program"),
        ..Default::default()
    });
    assert_eq!(NonTerminal::try_from(&inner).unwrap().id, 5);
    assert_eq!(leaf.start_position(), Point { row: 1, column: 2 });
    assert_eq!(leaf.end_position(), Point { row: 1, column: 3 });
    assert_eq!(leaf.id(), 4);
    assert_eq!(inner.kind(), "program");
}
