use generic_merge::matching::calculate_matchings;
use generic_merge::matching::matching_configuration::MatchingConfiguration;
use generic_merge::matching::matchings::{Matching, MatchingEntry, MatchingRecord, Matchings};
use generic_merge::matching::ordered::ordered_tree_matching;
use generic_merge::matching::unordered::unordered_tree_matching;
use generic_merge::model::{CSTNode, Language, NonTerminal, Point, Terminal};
use generic_merge::parsing::{parse_string, ParserConfiguration};

fn terminal(id: u128, kind: &str, value: &str, row: usize, column: usize) -> CSTNode {
    CSTNode::Terminal(Terminal {
        id,
        kind: String::from(kind),
        value: String::from(value),
        start_position: Point { row, column: 0 },
        end_position: Point { row, column },
        is_block_end_delimiter: false,
    })
}

fn non_terminal(id: u128, kind: &str, children: Vec<CSTNode>) -> CSTNode {
    CSTNode::NonTerminal(NonTerminal {
        id,
        kind: String::from(kind),
        are_children_unordered: false,
        start_position: Point { row: 0, column: 0 },
        end_position: Point { row: 0, column: 7 },
        children,
    })
}

fn java() -> MatchingConfiguration {
    MatchingConfiguration::from(Language::Java)
}

fn entry(score: usize, is_perfect_match: bool) -> MatchingEntry {
    MatchingEntry { score, is_perfect_match }
}

#[test]
fn two_terminal_nodes_matches_with_a_score_of_one_if_they_have_the_same_kind_and_value() {
    let left = terminal(1, "kind", "value", 0, 5);
    let right = terminal(2, "kind", "value", 0, 5);
    let matchings = calculate_matchings(&left, &right, &java());
    assert_eq!(Some(entry(1, true)), matchings.get_matching_entry(&left, &right))
}

#[test]
fn two_terminal_nodes_have_a_match_with_score_zero_if_they_have_different_value() {
    let left = terminal(1, "kind", "value_a", 0, 7);
    let right = terminal(2, "kind", "value_b", 0, 7);
    let matchings = calculate_matchings(&left, &right, &java());
    assert_eq!(Some(entry(0, false)), matchings.get_matching_entry(&left, &right))
}

#[test]
fn two_terminal_nodes_have_a_match_with_score_zero_if_they_have_different_kind() {
    let left = terminal(1, "kind_a", "value", 0, 5);
    let right = terminal(2, "kind_b", "value", 0, 5);
    let matchings = calculate_matchings(&left, &right, &java());
    assert_eq!(Some(entry(0, false)), matchings.get_matching_entry(&left, &right))
}

#[test]
fn two_terminal_nodes_have_a_match_with_score_zero_if_they_have_different_kind_and_value() {
    let left = terminal(1, "kind_a", "value_a", 0, 7);
    let right = terminal(2, "kind_b", "value_a", 0, 7);
    let matchings = calculate_matchings(&left, &right, &java());
    assert_eq!(Some(entry(0, false)), matchings.get_matching_entry(&left, &right))
}

#[test]
fn a_terminal_and_a_non_terminal_match_with_score_zero() {
    let left = terminal(1, "kind", "value", 0, 5);
    let right = non_terminal(2, "kind", vec![]);
    let matchings = calculate_matchings(&left, &right, &java());
    assert_eq!(Some(entry(0, false)), matchings.get_matching_entry(&left, &right))
}

#[test]
fn returns_none_if_a_matching_for_the_node_is_not_found() {
    let a_node = terminal(1, "kind", "value", 0, 5);
    assert_eq!(None, Matchings::empty().find_matching_for(&a_node))
}

#[test]
fn returns_some_match_if_a_matching_for_the_node_is_found() {
    let a_node = terminal(1, "kind", "value", 0, 5);
    let matchings = Matchings::new(vec![MatchingRecord { left: 1, right: 1, entry: entry(1, true) }]);
    assert_eq!(
        Some(Matching { matching_node: 1, score: 1, is_perfect_match: true }),
        matchings.find_matching_for(&a_node)
    )
}

#[test]
fn a_stored_entry_is_found_for_the_pair_in_either_order() {
    let a = terminal(1, "kind", "a", 0, 1);
    let b = terminal(2, "kind", "b", 0, 1);
    let c = terminal(3, "kind", "c", 0, 1);
    let mut matchings = Matchings::empty();
    matchings.insert(1, 2, entry(3, false));
    assert_eq!(Some(entry(3, false)), matchings.get_matching_entry(&a, &b));
    assert_eq!(Some(entry(3, false)), matchings.get_matching_entry(&b, &a));
    matchings.insert(2, 1, entry(4, true));
    assert_eq!(Some(entry(4, true)), matchings.get_matching_entry(&a, &b));
    assert_eq!(None, matchings.get_matching_entry(&a, &c));
    assert!(matchings.has_bidirectional_matching(&b, &a));
    assert!(!matchings.has_bidirectional_matching(&a, &c));
    assert_eq!(
        Some(Matching { matching_node: 1, score: 4, is_perfect_match: true }),
        matchings.find_matching_for(&b)
    );
}

#[test]
fn it_matches_deep_nodes_as_well() {
    let child = || terminal(10, "kind_b", "value_b", 1, 7);
    let left = non_terminal(1, "kind_a", vec![child()]);
    let right = non_terminal(2, "kind_a", vec![child()]);
    let matchings = ordered_tree_matching(&left, &right, &java());
    assert_eq!(Some(entry(1, true)), matchings.get_matching_entry(&child(), &child()))
}

#[test]
fn if_no_match_is_found_it_returns_none() {
    let left_child = terminal(10, "kind_b", "value_b", 0, 7);
    let right_child = terminal(11, "kind_c", "value_c", 1, 7);
    let left = non_terminal(1, "kind_a", vec![terminal(10, "kind_b", "value_b", 0, 7)]);
    let right = non_terminal(2, "kind_a", vec![terminal(11, "kind_c", "value_c", 1, 7)]);
    let matchings = ordered_tree_matching(&left, &right, &java());
    assert_eq!(None, matchings.get_matching_entry(&left_child, &right_child))
}

#[test]
fn the_matching_between_two_subtrees_is_the_sum_of_the_matchings_plus_the_root() {
    let common_child = || terminal(10, "kind_b", "value_b", 0, 7);
    let unique_right_child = terminal(11, "kind_c", "value_c", 0, 7);
    let left = non_terminal(1, "kind_a", vec![common_child()]);
    let right = non_terminal(2, "kind_a", vec![common_child(), unique_right_child]);
    let matchings = ordered_tree_matching(&left, &right, &java());
    assert_eq!(Some(entry(2, false)), matchings.get_matching_entry(&left, &right))
}

#[test]
fn perfect_matching_deep_nodes() {
    let common_child = || terminal(10, "kind_b", "value_b", 0, 7);
    let left = non_terminal(1, "kind_a", vec![common_child()]);
    let right = non_terminal(2, "kind_a", vec![common_child()]);
    let matchings = ordered_tree_matching(&left, &right, &java());
    assert_eq!(Some(entry(2, true)), matchings.get_matching_entry(&left, &right))
}

#[test]
fn perfect_matching_deeper_nodes() {
    let intermediate = || non_terminal(20, "intermediate", vec![terminal(10, "kind_b", "value_b", 0, 7)]);
    let left = non_terminal(1, "kind_a", vec![intermediate()]);
    let right = non_terminal(2, "kind_a", vec![intermediate()]);
    let matchings = ordered_tree_matching(&left, &right, &java());
    assert_eq!(
        Some(entry(2, true)),
        matchings.get_matching_entry(&intermediate(), &intermediate())
    );
    assert_eq!(Some(entry(3, true)), matchings.get_matching_entry(&left, &right))
}

#[test]
fn roots_of_different_kinds_are_not_matched_in_order() {
    let left = non_terminal(1, "kind_a", vec![terminal(10, "k", "v", 0, 1)]);
    let right = non_terminal(2, "kind_b", vec![terminal(11, "k", "v", 0, 1)]);
    let matchings = ordered_tree_matching(&left, &right, &java());
    assert_eq!(None, matchings.get_matching_entry(&left, &right));
}

fn unordered(id: u128, kind: &str, children: Vec<CSTNode>) -> CSTNode {
    CSTNode::NonTerminal(NonTerminal {
        id,
        kind: String::from(kind),
        are_children_unordered: true,
        start_position: Point { row: 0, column: 0 },
        end_position: Point { row: 0, column: 7 },
        children,
    })
}

fn method(id: u128, name: &str) -> CSTNode {
    non_terminal(
        id,
        "method_declaration",
        vec![
            terminal(id + 1, "identifier", name, 0, 1),
            non_terminal(
                id + 2,
                "formal_parameters",
                vec![terminal(id + 3, "(", "(", 0, 1), terminal(id + 4, ")", ")", 0, 1)],
            ),
        ],
    )
}

#[test]
fn unordered_children_with_labels_are_matched_whatever_their_order() {
    let left = unordered(1, "class_body", vec![method(10, "a"), method(20, "b")]);
    let right = unordered(2, "class_body", vec![method(30, "b"), method(40, "a")]);
    let matchings = calculate_matchings(&left, &right, &java());
    let root = matchings.get_matching_entry(&left, &right).unwrap();
    assert_eq!(root.score, 11);
    assert!(!root.is_perfect_match);
    assert_eq!(
        Some(entry(5, true)),
        matchings.get_matching_entry(&method(10, "a"), &method(40, "a"))
    );
    assert_eq!(None, matchings.get_matching_entry(&method(10, "a"), &method(30, "b")));
    let same = unordered_tree_matching(&left, &left, &java());
    assert!(same.get_matching_entry(&left, &left).unwrap().is_perfect_match);
}

#[test]
fn unordered_children_without_labels_are_paired_by_the_best_assignment() {
    let left = unordered(
        1,
        "block",
        vec![terminal(10, "x", "1", 0, 1), terminal(11, "y", "2", 0, 1)],
    );
    let right = unordered(
        2,
        "block",
        vec![terminal(20, "y", "2", 0, 1), terminal(21, "x", "1", 0, 1)],
    );
    let matchings = calculate_matchings(&left, &right, &java());
    assert_eq!(Some(entry(3, false)), matchings.get_matching_entry(&left, &right));
    assert_eq!(
        Some(entry(1, true)),
        matchings.get_matching_entry(&terminal(10, "x", "1", 0, 1), &terminal(21, "x", "1", 0, 1))
    );
}

#[test]
fn the_perfect_matching_calculation_is_correct() {
    let config = ParserConfiguration::from(Language::Java);
    let left = parse_string(
        r#"""
            public class Main {
                static {
                    int x = 2;
                }

                public static void main() {
                    int a = 0;
                }

                public static void teste() {
                    
                }
            }
        """#,
        &config,
    )
    .unwrap();

    let right = parse_string(
        r#"""
            public class Main {
                public static void teste() {
                    
                }
                static {
                    int x = 2;
                }

                public static void main() {
                    int a = 0;

                }
            }
        """#,
        &config,
    )
    .unwrap();

    let matching_configuration = MatchingConfiguration::from(Language::Java);
    let matchings = calculate_matchings(&left, &right, &matching_configuration);
    assert!(
        matchings
            .get_matching_entry(&left, &right)
            .unwrap()
            .is_perfect_match
    );
}
