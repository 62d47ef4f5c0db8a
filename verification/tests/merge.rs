use generic_merge::matching::matching_configuration::MatchingConfiguration;
use generic_merge::matching::matchings::Matchings;
use generic_merge::matching::ordered::ordered_tree_matching;
use generic_merge::matching::unordered::unordered_tree_matching;
use generic_merge::matching_handlers::MatchingHandlers;
use generic_merge::merge::merge;
use generic_merge::merge::merge_error::MergeError;
use generic_merge::merge::merged_cst_node::MergedCSTNode;
use generic_merge::merge::ordered::ordered_merge;
use generic_merge::merge::terminals::merge_terminals;
use generic_merge::merge::unordered::unordered_merge;
use generic_merge::model::{CSTNode, NonTerminal, Point, Terminal};

fn fresh_id() -> u128 {
    uuid::Uuid::new_v4().as_u128()
}

fn leaf(kind: &str, value: &str) -> Terminal {
    Terminal {
        id: fresh_id(),
        kind: String::from(kind),
        value: String::from(value),
        start_position: Point { row: 0, column: 0 },
        end_position: Point { row: 0, column: 7 },
        is_block_end_delimiter: false,
    }
}

fn t(kind: &str, value: &str) -> CSTNode {
    CSTNode::Terminal(leaf(kind, value))
}

fn block_end(kind: &str, value: &str) -> CSTNode {
    let mut l = leaf(kind, value);
    l.is_block_end_delimiter = true;
    CSTNode::Terminal(l)
}

fn inner(kind: &str, children: Vec<CSTNode>, unordered: bool) -> NonTerminal {
    NonTerminal {
        id: fresh_id(),
        kind: String::from(kind),
        are_children_unordered: unordered,
        start_position: Point { row: 0, column: 0 },
        end_position: Point { row: 0, column: 7 },
        children,
    }
}

fn nt(kind: &str, children: Vec<CSTNode>) -> CSTNode {
    CSTNode::NonTerminal(inner(kind, children, false))
}

fn unt(kind: &str, children: Vec<CSTNode>) -> CSTNode {
    CSTNode::NonTerminal(inner(kind, children, true))
}

fn mt(kind: &str, value: &str) -> MergedCSTNode {
    MergedCSTNode::Terminal { kind: String::from(kind), value: String::from(value) }
}

fn mnt(kind: &str, children: Vec<MergedCSTNode>) -> MergedCSTNode {
    MergedCSTNode::NonTerminal { kind: String::from(kind), children }
}

fn only_left(node: MergedCSTNode) -> MergedCSTNode {
    MergedCSTNode::Conflict { left: Some(Box::new(node)), right: None }
}

fn only_right(node: MergedCSTNode) -> MergedCSTNode {
    MergedCSTNode::Conflict { left: None, right: Some(Box::new(node)) }
}

fn both(left: MergedCSTNode, right: MergedCSTNode) -> MergedCSTNode {
    MergedCSTNode::Conflict { left: Some(Box::new(left)), right: Some(Box::new(right)) }
}

/// Matching without language handlers: two inner nodes match when their
/// kinds agree.
fn plain_configuration() -> MatchingConfiguration {
    MatchingConfiguration {
        delimiters: vec![],
        kinds_with_label: vec![],
        handlers: MatchingHandlers::new(),
    }
}

fn ordered_matchings(a: &CSTNode, b: &CSTNode) -> Matchings {
    ordered_tree_matching(a, b, &plain_configuration())
}

fn unordered_matchings(a: &CSTNode, b: &CSTNode) -> Matchings {
    unordered_tree_matching(a, b, &plain_configuration())
}

type Merger = fn(
    &CSTNode,
    &CSTNode,
    &CSTNode,
    &Matchings,
    &Matchings,
    &Matchings,
) -> Result<MergedCSTNode, MergeError>;

fn assert_merge_is_correct_and_idempotent_with_respect_to_parent_side(
    merger: Merger,
    base: &CSTNode,
    parent_a: &CSTNode,
    parent_b: &CSTNode,
    expected_merge: &MergedCSTNode,
) -> Result<(), MergeError> {
    let matchings_base_parent_a = ordered_matchings(base, parent_a);
    let matchings_base_parent_b = ordered_matchings(base, parent_b);
    let matchings_parents = ordered_matchings(parent_a, parent_b);

    let merged_tree = merger(
        base,
        parent_a,
        parent_b,
        &matchings_base_parent_a,
        &matchings_base_parent_b,
        &matchings_parents,
    )?;
    let merged_tree_swap = merger(
        base,
        parent_b,
        parent_a,
        &matchings_base_parent_b,
        &matchings_base_parent_a,
        &matchings_parents,
    )?;

    assert_eq!(expected_merge, &merged_tree);
    assert_eq!(expected_merge, &merged_tree_swap);
    Ok(())
}

fn assert_merge_output_is(
    merger: Merger,
    base: &CSTNode,
    parent_a: &CSTNode,
    parent_b: &CSTNode,
    expected_merge: &MergedCSTNode,
) -> Result<(), MergeError> {
    let matchings_base_parent_a = ordered_matchings(base, parent_a);
    let matchings_base_parent_b = ordered_matchings(base, parent_b);
    let matchings_parents = ordered_matchings(parent_a, parent_b);

    let merged_tree = merger(
        base,
        parent_a,
        parent_b,
        &matchings_base_parent_a,
        &matchings_base_parent_b,
        &matchings_parents,
    )?;

    assert_eq!(expected_merge, &merged_tree);
    Ok(())
}

// Merging leaves.

fn three_unchanged_leaves(merger: Merger) -> Result<(), MergeError> {
    let node = t("kind", "value");
    assert_merge_is_correct_and_idempotent_with_respect_to_parent_side(
        merger,
        &node,
        &node,
        &node,
        &MergedCSTNode::from(&node),
    )
}

fn leaves_changed_in_both_parents_without_conflict(merger: Merger) -> Result<(), MergeError> {
    let base = t("kind", "\nvalue\n");
    let left = t("kind", "left\nvalue\n");
    let right = t("kind", "\nvalue\nright");
    assert_merge_is_correct_and_idempotent_with_respect_to_parent_side(
        merger,
        &base,
        &left,
        &right,
        &mt("kind", "left\nvalue\nright"),
    )
}

fn leaves_changed_in_both_parents_with_conflict(merger: Merger) -> Result<(), MergeError> {
    let base = t("kind", "value");
    let left = t("kind", "left_value");
    let right = t("kind", "right_value");
    assert_eq!(
        merger(
            &base,
            &left,
            &right,
            &Matchings::empty(),
            &Matchings::empty(),
            &Matchings::empty()
        )
        .unwrap(),
        mt(
            "kind",
            "<<<<<<< ours\nleft_value||||||| original\nvalue=======\nright_value>>>>>>> theirs\n"
        )
    );
    Ok(())
}

fn leaf_changed_in_one_parent(merger: Merger) -> Result<(), MergeError> {
    let base_and_left = t("kind", "value");
    let changed_parent = t("kind", "value_right");
    assert_merge_is_correct_and_idempotent_with_respect_to_parent_side(
        merger,
        &base_and_left,
        &base_and_left,
        &changed_parent,
        &MergedCSTNode::from(&changed_parent),
    )
}

fn terminal_with_non_terminal(merger: Merger) -> Result<(), MergeError> {
    let error = merger(
        &t("kind", "value"),
        &t("kind", "value"),
        &nt("kind", vec![]),
        &Matchings::empty(),
        &Matchings::empty(),
        &Matchings::empty(),
    )
    .unwrap_err();
    assert_eq!(error, MergeError::MergingTerminalWithNonTerminal);
    Ok(())
}

#[test]
fn merge_if_i_am_merging_three_unchanged_nodes_it_is_a_success() -> Result<(), MergeError> {
    three_unchanged_leaves(merge)
}

#[test]
fn merge_returns_success_if_there_are_changes_in_both_parents_and_they_are_not_conflicting(
) -> Result<(), MergeError> {
    leaves_changed_in_both_parents_without_conflict(merge)
}

#[test]
fn merge_returns_conflict_if_there_are_changes_in_both_parents_and_they_are_conflicting(
) -> Result<(), MergeError> {
    leaves_changed_in_both_parents_with_conflict(merge)
}

#[test]
fn merge_if_there_is_a_change_only_in_one_parent_it_returns_the_changes_from_this_parent(
) -> Result<(), MergeError> {
    leaf_changed_in_one_parent(merge)
}

#[test]
fn merge_test_can_not_merge_terminal_with_non_terminal() -> Result<(), MergeError> {
    terminal_with_non_terminal(merge)
}

#[test]
fn odered_merge_if_i_am_merging_three_unchanged_nodes_it_is_a_success() -> Result<(), MergeError> {
    three_unchanged_leaves(merge)
}

#[test]
fn odered_merge_returns_success_if_there_are_changes_in_both_parents_and_they_are_not_conflicting(
) -> Result<(), MergeError> {
    leaves_changed_in_both_parents_without_conflict(merge)
}

#[test]
fn odered_merge_returns_conflict_if_there_are_changes_in_both_parents_and_they_are_conflicting(
) -> Result<(), MergeError> {
    leaves_changed_in_both_parents_with_conflict(merge)
}

#[test]
fn odered_merge_if_there_is_a_change_only_in_one_parent_it_returns_the_changes_from_this_parent(
) -> Result<(), MergeError> {
    leaf_changed_in_one_parent(merge)
}

#[test]
fn ordered_merge_test_can_not_merge_terminal_with_non_terminal() -> Result<(), MergeError> {
    terminal_with_non_terminal(ordered_merge)
}

fn terminal_node(terminal: &Terminal) -> MergedCSTNode {
    MergedCSTNode::from_terminal(terminal)
}

#[test]
fn merge_terminals_if_i_am_merging_three_unchanged_nodes_it_is_a_success() -> Result<(), MergeError>
{
    let node = leaf("kind", "value");
    assert_eq!(terminal_node(&node), merge_terminals(Some(&node), &node, &node)?);
    Ok(())
}

#[test]
fn merge_terminals_returns_success_if_there_are_changes_in_both_parents_and_they_are_not_conflicting(
) -> Result<(), MergeError> {
    let base = leaf("kind", "\nvalue\n");
    let left = leaf("kind", "left\nvalue\n");
    let right = leaf("kind", "\nvalue\nright");
    let expected = mt("kind", "left\nvalue\nright");
    assert_eq!(expected, merge_terminals(Some(&base), &left, &right)?);
    assert_eq!(expected, merge_terminals(Some(&base), &right, &left)?);
    Ok(())
}

#[test]
fn merge_terminals_returns_conflict_if_there_are_changes_in_both_parents_and_they_are_conflicting(
) -> Result<(), MergeError> {
    let base = leaf("kind", "value");
    let left = leaf("kind", "left_value");
    let right = leaf("kind", "right_value");
    assert_eq!(
        merge_terminals(Some(&base), &left, &right)?,
        mt(
            "kind",
            "<<<<<<< ours\nleft_value||||||| original\nvalue=======\nright_value>>>>>>> theirs\n"
        )
    );
    Ok(())
}

#[test]
fn merge_terminals_if_there_is_a_change_only_in_one_parent_it_returns_the_changes_from_this_parent(
) -> Result<(), MergeError> {
    let base_and_left = leaf("kind", "value");
    let changed_parent = leaf("kind", "value_right");
    let expected = terminal_node(&changed_parent);
    assert_eq!(expected, merge_terminals(Some(&base_and_left), &base_and_left, &changed_parent)?);
    assert_eq!(expected, merge_terminals(Some(&base_and_left), &changed_parent, &base_and_left)?);
    Ok(())
}

#[test]
fn equal_leaves_without_a_base_merge_to_the_left_one() -> Result<(), MergeError> {
    let left = leaf("kind", "same");
    let right = leaf("other_kind", "same");
    assert_eq!(mt("kind", "same"), merge_terminals(None, &left, &right)?);
    let added = leaf("kind", "a\n");
    let also_added = leaf("kind", "a\n");
    assert_eq!(mt("kind", "a\n"), merge_terminals(None, &added, &also_added)?);
    Ok(())
}

// Ordered merging of inner nodes.

fn unchanged_non_terminals(merger: Merger) -> Result<(), MergeError> {
    let tree = nt("kind", vec![t("kind_a", "value_a"), t("kind_b", "value_b")]);
    assert_merge_is_correct_and_idempotent_with_respect_to_parent_side(
        merger,
        &tree,
        &tree,
        &tree,
        &MergedCSTNode::from(&tree),
    )
}

fn both_add_the_same_things(merger: Merger) -> Result<(), MergeError> {
    let base = nt("kind", vec![]);
    let parent = nt("kind", vec![t("kind_a", "value_a"), t("kind_b", "value_b")]);
    assert_merge_is_correct_and_idempotent_with_respect_to_parent_side(
        merger,
        &base,
        &parent,
        &parent,
        &MergedCSTNode::from(&parent),
    )
}

fn one_adds_to_an_empty_list(merger: Merger) -> Result<(), MergeError> {
    let base = nt("kind", vec![]);
    let initially_empty_parent = nt("kind", vec![]);
    let parent_that_added = nt("kind", vec![t("kind_a", "value_a")]);
    assert_merge_is_correct_and_idempotent_with_respect_to_parent_side(
        merger,
        &base,
        &initially_empty_parent,
        &parent_that_added,
        &mnt("kind", vec![mt("kind_a", "value_a")]),
    )
}

fn one_adds_to_a_non_empty_list(merger: Merger) -> Result<(), MergeError> {
    let base = nt("kind", vec![t("kind_a", "value_a")]);
    let unchanged_parent = nt("kind", vec![t("kind_a", "value_a")]);
    let parent_that_added = nt("kind", vec![t("kind_a", "value_a"), t("kind_b", "value_b")]);
    assert_merge_is_correct_and_idempotent_with_respect_to_parent_side(
        merger,
        &base,
        &unchanged_parent,
        &parent_that_added,
        &mnt("kind", vec![mt("kind_a", "value_a"), mt("kind_b", "value_b")]),
    )
}

fn adds_and_removes_an_unedited_node(merger: Merger) -> Result<(), MergeError> {
    let base = nt("kind", vec![t("kind_a", "value_a")]);
    let changed_parent = nt("kind", vec![t("kind_b", "value_b")]);
    let unchanged_parent = nt("kind", vec![t("kind_a", "value_a")]);
    assert_merge_is_correct_and_idempotent_with_respect_to_parent_side(
        merger,
        &base,
        &changed_parent,
        &unchanged_parent,
        &mnt("kind", vec![mt("kind_b", "value_b")]),
    )
}

fn adds_and_removes_a_changed_node(merger: Merger) -> Result<(), MergeError> {
    let base = nt("kind", vec![nt("subtree", vec![t("kind_a", "value_a")])]);
    let parent_a = nt("kind", vec![nt("another_subtree", vec![t("kind_b", "value_b")])]);
    let parent_b = nt("kind", vec![nt("subtree", vec![t("kind_c", "value_c")])]);

    let matchings_base_parent_a = ordered_matchings(&base, &parent_a);
    let matchings_base_parent_b = ordered_matchings(&base, &parent_b);
    let matchings_parents = ordered_matchings(&parent_a, &parent_b);

    let merged_tree = merger(
        &base,
        &parent_a,
        &parent_b,
        &matchings_base_parent_a,
        &matchings_base_parent_b,
        &matchings_parents,
    )?;
    let merged_tree_swap = merger(
        &base,
        &parent_b,
        &parent_a,
        &matchings_base_parent_b,
        &matchings_base_parent_a,
        &matchings_parents,
    )?;

    assert_eq!(
        mnt(
            "kind",
            vec![
                mnt("another_subtree", vec![mt("kind_b", "value_b")]),
                only_right(mnt("subtree", vec![mt("kind_c", "value_c")])),
            ],
        ),
        merged_tree
    );
    assert_eq!(
        mnt(
            "kind",
            vec![
                mnt("another_subtree", vec![mt("kind_b", "value_b")]),
                only_left(mnt("subtree", vec![mt("kind_c", "value_c")])),
            ],
        ),
        merged_tree_swap
    );
    Ok(())
}

fn both_add_different_nodes(merger: Merger) -> Result<(), MergeError> {
    let base = nt("kind", vec![]);
    let left = nt("kind", vec![t("kind_a", "value_a")]);
    let right = nt("kind", vec![t("kind_b", "value_b")]);
    assert_merge_output_is(
        merger,
        &base,
        &left,
        &right,
        &mnt("kind", vec![both(mt("kind_a", "value_a"), mt("kind_b", "value_b"))]),
    )
}

fn removes_an_unchanged_node(merger: Merger) -> Result<(), MergeError> {
    let base = nt("kind", vec![t("kind_a", "value_a"), t("kind_b", "value_b")]);
    let left = nt("kind", vec![t("kind_a", "value_a"), t("kind_b", "value_b")]);
    let right = nt("kind", vec![t("kind_b", "value_b")]);
    assert_merge_output_is(merger, &base, &left, &right, &mnt("kind", vec![mt("kind_b", "value_b")]))
}

fn removes_a_changed_node(merger: Merger) -> Result<(), MergeError> {
    let base = nt("kind", vec![nt("subtree", vec![t("kind_b", "value_b")]), t("kind_a", "value_a")]);
    let left = nt("kind", vec![nt("subtree", vec![t("kind_c", "value_c")]), t("kind_a", "value_a")]);
    let right = nt("kind", vec![t("kind_a", "value_a")]);
    assert_merge_output_is(
        merger,
        &base,
        &left,
        &right,
        &mnt(
            "kind",
            vec![
                only_left(mnt("subtree", vec![mt("kind_c", "value_c")])),
                mt("kind_a", "value_a"),
            ],
        ),
    )?;
    assert_merge_output_is(
        merger,
        &base,
        &right,
        &left,
        &mnt(
            "kind",
            vec![
                only_right(mnt("subtree", vec![mt("kind_c", "value_c")])),
                mt("kind_a", "value_a"),
            ],
        ),
    )
}

fn a_parent_adds_a_node_in_the_middle(merger: Merger) -> Result<(), MergeError> {
    let base = nt("kind", vec![t("kind_a", "value_a"), t("kind_c", "value_c")]);
    let unchanged_parent = nt("kind", vec![t("kind_a", "value_a"), t("kind_c", "value_c")]);
    let changed_parent = nt(
        "kind",
        vec![t("kind_a", "value_a"), t("kind_b", "value_b"), t("kind_c", "value_c")],
    );
    assert_merge_is_correct_and_idempotent_with_respect_to_parent_side(
        merger,
        &base,
        &unchanged_parent,
        &changed_parent,
        &mnt(
            "kind",
            vec![mt("kind_a", "value_a"), mt("kind_b", "value_b"), mt("kind_c", "value_c")],
        ),
    )
}

fn removes_and_adds_a_node(merger: Merger) -> Result<(), MergeError> {
    let base = nt("kind", vec![t("kind_b", "value_b")]);
    let parent_a = nt("kind", vec![t("kind_a", "value_a")]);
    let parent_b = nt("kind", vec![t("kind_b", "value_b"), t("kind_a", "value_a")]);
    assert_merge_is_correct_and_idempotent_with_respect_to_parent_side(
        merger,
        &base,
        &parent_a,
        &parent_b,
        &mnt("kind", vec![mt("kind_a", "value_a")]),
    )
}

fn removes_and_adds_a_node_with_conflict(merger: Merger) -> Result<(), MergeError> {
    let base = nt("kind", vec![nt("subtree", vec![t("kind_b", "value_b")])]);
    let parent_a = nt("kind", vec![t("kind_a", "value_a")]);
    let parent_b = nt("kind", vec![nt("subtree", vec![t("kind_b", "value_c")]), t("kind_a", "value_a")]);
    assert_merge_output_is(
        merger,
        &base,
        &parent_a,
        &parent_b,
        &mnt(
            "kind",
            vec![
                only_right(mnt("subtree", vec![mt("kind_b", "value_c")])),
                mt("kind_a", "value_a"),
            ],
        ),
    )?;
    assert_merge_output_is(
        merger,
        &base,
        &parent_b,
        &parent_a,
        &mnt(
            "kind",
            vec![
                only_left(mnt("subtree", vec![mt("kind_b", "value_c")])),
                mt("kind_a", "value_a"),
            ],
        ),
    )
}

fn a_parent_adds_one_node(merger: Merger) -> Result<(), MergeError> {
    let base = nt("kind", vec![]);
    let parent_a = nt("kind", vec![t("kind_a", "value_a")]);
    let parent_b = nt("kind", vec![t("kind_c", "value_c"), t("kind_a", "value_a")]);
    assert_merge_is_correct_and_idempotent_with_respect_to_parent_side(
        merger,
        &base,
        &parent_a,
        &parent_b,
        &mnt("kind", vec![mt("kind_c", "value_c"), mt("kind_a", "value_a")]),
    )
}

fn subtrees_not_changed_mutually(merger: Merger) -> Result<(), MergeError> {
    let base = nt("kind", vec![t("kind_b", "value_b"), t("kind_c", "value_c")]);
    let parent_a = nt("kind", vec![t("kind_b", "value_b")]);
    let parent_b = nt("kind", vec![t("kind_c", "value_c")]);
    assert_merge_is_correct_and_idempotent_with_respect_to_parent_side(
        merger,
        &base,
        &parent_a,
        &parent_b,
        &mnt("kind", vec![]),
    )
}

fn subtrees_delete_a_changed_node(merger: Merger) -> Result<(), MergeError> {
    let base = nt(
        "kind",
        vec![
            nt("subtree_a", vec![t("kind_b", "value_b")]),
            nt("subtree_b", vec![t("kind_c", "value_c")]),
        ],
    );
    let parent_a = nt("kind", vec![nt("subtree_b", vec![t("kind_c", "value_c")])]);
    let parent_b = nt("kind", vec![nt("subtree_a", vec![t("kind_a", "value_c")])]);
    assert_merge_output_is(
        merger,
        &base,
        &parent_a,
        &parent_b,
        &mnt("kind", vec![only_left(mnt("subtree_b", vec![mt("kind_c", "value_c")]))]),
    )?;
    assert_merge_output_is(
        merger,
        &base,
        &parent_b,
        &parent_a,
        &mnt("kind", vec![only_right(mnt("subtree_b", vec![mt("kind_c", "value_c")]))]),
    )
}

#[test]
fn ordered_merge_it_merges_non_terminals_if_there_are_non_changes() -> Result<(), MergeError> {
    unchanged_non_terminals(ordered_merge)
}

#[test]
fn ordered_merge_it_merges_non_terminals_if_both_left_and_right_add_the_same_things(
) -> Result<(), MergeError> {
    both_add_the_same_things(ordered_merge)
}

#[test]
fn ordered_merge_it_merges_non_terminals_if_only_one_parent_adds_a_node_in_an_initially_empty_children_list(
) -> Result<(), MergeError> {
    one_adds_to_an_empty_list(ordered_merge)
}

#[test]
fn ordered_merge_it_merges_non_terminals_if_only_one_parent_adds_a_node_in_non_empty_children_list(
) -> Result<(), MergeError> {
    one_adds_to_a_non_empty_list(ordered_merge)
}

#[test]
fn ordered_merge_it_merges_when_one_parent_adds_a_node_and_removes_one_that_was_not_edited_in_the_other(
) -> Result<(), MergeError> {
    adds_and_removes_an_unedited_node(ordered_merge)
}

#[test]
fn ordered_merge_it_merges_when_one_parent_adds_a_node_and_removes_from_another_that_was_changed(
) -> Result<(), MergeError> {
    adds_and_removes_a_changed_node(ordered_merge)
}

#[test]
fn ordered_merge_if_both_parents_add_different_nodes_then_we_have_a_conflict(
) -> Result<(), MergeError> {
    both_add_different_nodes(ordered_merge)
}

#[test]
fn ordered_merge_it_merges_when_one_parent_removes_a_node_that_was_not_changed_in_another_parent(
) -> Result<(), MergeError> {
    removes_an_unchanged_node(ordered_merge)
}

#[test]
fn ordered_merge_it_detects_a_conflict_when_one_parent_removes_a_node_that_was_changed_in_another_parent(
) -> Result<(), MergeError> {
    removes_a_changed_node(ordered_merge)
}

#[test]
fn ordered_merge_it_merges_when_a_parent_adds_a_node() -> Result<(), MergeError> {
    a_parent_adds_a_node_in_the_middle(ordered_merge)
}

#[test]
fn ordered_merge_it_merges_when_one_parent_removes_and_add_a_node() -> Result<(), MergeError> {
    removes_and_adds_a_node(ordered_merge)
}

#[test]
fn ordered_merge_it_conflicts_when_one_parent_removes_and_add_a_node() -> Result<(), MergeError> {
    removes_and_adds_a_node_with_conflict(ordered_merge)
}

#[test]
fn ordered_merge_it_merges_when_a_parent_adds_one_node() -> Result<(), MergeError> {
    a_parent_adds_one_node(ordered_merge)
}

#[test]
fn ordered_merge_it_does_not_detect_a_conflict_if_am_merging_two_subtrees_that_have_not_changed_mutually(
) -> Result<(), MergeError> {
    subtrees_not_changed_mutually(ordered_merge)
}

#[test]
fn ordered_merge_it_detects_a_conflict_if_am_merging_two_subtrees_that_delete_a_node_that_was_changed_in_another_parent(
) -> Result<(), MergeError> {
    subtrees_delete_a_changed_node(ordered_merge)
}

#[test]
fn odered_merge_it_merges_non_terminals_if_there_are_non_changes() -> Result<(), MergeError> {
    unchanged_non_terminals(merge)
}

#[test]
fn odered_merge_it_merges_non_terminals_if_both_left_and_right_add_the_same_things(
) -> Result<(), MergeError> {
    both_add_the_same_things(merge)
}

#[test]
fn odered_merge_it_merges_non_terminals_if_only_one_parent_adds_a_node_in_an_initially_empty_children_list(
) -> Result<(), MergeError> {
    one_adds_to_an_empty_list(merge)
}

#[test]
fn odered_merge_it_merges_non_terminals_if_only_one_parent_adds_a_node_in_non_empty_children_list(
) -> Result<(), MergeError> {
    one_adds_to_a_non_empty_list(merge)
}

#[test]
fn odered_merge_it_merges_when_one_parent_adds_a_node_and_removes_one_that_was_not_edited_in_the_other(
) -> Result<(), MergeError> {
    adds_and_removes_an_unedited_node(merge)
}

#[test]
fn odered_merge_it_merges_when_one_parent_adds_a_node_and_removes_from_another_that_was_changed(
) -> Result<(), MergeError> {
    adds_and_removes_a_changed_node(merge)
}

#[test]
fn odered_merge_if_both_parents_add_different_nodes_then_we_have_a_conflict(
) -> Result<(), MergeError> {
    both_add_different_nodes(merge)
}

#[test]
fn odered_merge_it_merges_when_one_parent_removes_a_node_that_was_not_changed_in_another_parent(
) -> Result<(), MergeError> {
    removes_an_unchanged_node(merge)
}

#[test]
fn odered_merge_it_detects_a_conflict_when_one_parent_removes_a_node_that_was_changed_in_another_parent(
) -> Result<(), MergeError> {
    removes_a_changed_node(merge)
}

#[test]
fn odered_merge_it_merges_when_a_parent_adds_a_node() -> Result<(), MergeError> {
    a_parent_adds_a_node_in_the_middle(merge)
}

#[test]
fn odered_merge_it_merges_when_one_parent_removes_and_add_a_node() -> Result<(), MergeError> {
    removes_and_adds_a_node(merge)
}

#[test]
fn odered_merge_it_conflicts_when_one_parent_removes_and_add_a_node() -> Result<(), MergeError> {
    removes_and_adds_a_node_with_conflict(merge)
}

#[test]
fn odered_merge_it_merges_when_a_parent_adds_one_node() -> Result<(), MergeError> {
    a_parent_adds_one_node(merge)
}

#[test]
fn odered_merge_it_does_not_detect_a_conflict_if_am_merging_two_subtrees_that_have_not_changed_mutually(
) -> Result<(), MergeError> {
    subtrees_not_changed_mutually(merge)
}

#[test]
fn odered_merge_it_detects_a_conflict_if_am_merging_two_subtrees_that_delete_a_node_that_was_changed_in_another_parent(
) -> Result<(), MergeError> {
    subtrees_delete_a_changed_node(merge)
}

// Unordered merging.

fn as_non_terminal(node: &CSTNode) -> &NonTerminal {
    NonTerminal::try_from(node).unwrap()
}

fn assert_unordered_merge_is_correct_and_idempotent_with_respect_to_parent_side(
    base: &CSTNode,
    parent_a: &CSTNode,
    parent_b: &CSTNode,
    expected_merge: &MergedCSTNode,
) -> Result<(), MergeError> {
    let matchings_base_parent_a = unordered_matchings(base, parent_a);
    let matchings_base_parent_b = unordered_matchings(base, parent_b);
    let matchings_parents = unordered_matchings(parent_a, parent_b);
    let merged_tree = unordered_merge(
        as_non_terminal(parent_a),
        as_non_terminal(parent_b),
        &matchings_base_parent_a,
        &matchings_base_parent_b,
        &matchings_parents,
    )?;
    let merged_tree_swap = unordered_merge(
        as_non_terminal(parent_b),
        as_non_terminal(parent_a),
        &matchings_base_parent_b,
        &matchings_base_parent_a,
        &matchings_parents,
    )?;
    assert_eq!(expected_merge, &merged_tree);
    assert_eq!(expected_merge, &merged_tree_swap);
    Ok(())
}

fn assert_unordered_merge_output_is(
    base: &CSTNode,
    parent_a: &CSTNode,
    parent_b: &CSTNode,
    expected_merge: &MergedCSTNode,
) -> Result<(), MergeError> {
    let matchings_base_parent_a = unordered_matchings(base, parent_a);
    let matchings_base_parent_b = unordered_matchings(base, parent_b);
    let matchings_parents = unordered_matchings(parent_a, parent_b);
    let merged_tree = unordered_merge(
        as_non_terminal(parent_a),
        as_non_terminal(parent_b),
        &matchings_base_parent_a,
        &matchings_base_parent_b,
        &matchings_parents,
    )?;
    assert_eq!(expected_merge, &merged_tree);
    Ok(())
}

fn body(children: Vec<CSTNode>) -> CSTNode {
    let mut all = vec![t("{", "{")];
    all.extend(children);
    all.push(block_end("}", "}"));
    unt("interface_body", all)
}

fn merged_body(children: Vec<MergedCSTNode>) -> MergedCSTNode {
    let mut all = vec![mt("{", "{")];
    all.extend(children);
    all.push(mt("}", "}"));
    mnt("interface_body", all)
}

fn method_named(name: &str) -> CSTNode {
    nt("method_declaration", vec![t("identifier", name)])
}

#[test]
fn test_merge_node_added_only_by_one_parent() -> Result<(), MergeError> {
    let base = body(vec![]);
    let parent_a = body(vec![t("method_declaration", "main")]);
    let parent_b = body(vec![]);
    assert_unordered_merge_is_correct_and_idempotent_with_respect_to_parent_side(
        &base,
        &parent_a,
        &parent_b,
        &merged_body(vec![mt("method_declaration", "main")]),
    )
}

#[test]
fn test_both_parents_add_the_same_node_and_both_subtrees_are_equal() -> Result<(), MergeError> {
    let base = body(vec![]);
    let parent_a = body(vec![method_named("main")]);
    let parent_b = body(vec![method_named("main")]);
    assert_unordered_merge_is_correct_and_idempotent_with_respect_to_parent_side(
        &base,
        &parent_a,
        &parent_b,
        &merged_body(vec![mnt("method_declaration", vec![mt("identifier", "main")])]),
    )
}

#[test]
fn test_merge_one_parent_removes_a_node_while_the_other_keeps_it_unchanged(
) -> Result<(), MergeError> {
    let base = body(vec![method_named("main")]);
    let parent_a = body(vec![method_named("main")]);
    let parent_b = body(vec![]);
    assert_unordered_merge_is_correct_and_idempotent_with_respect_to_parent_side(
        &base,
        &parent_a,
        &parent_b,
        &merged_body(vec![]),
    )
}

#[test]
fn test_merge_one_parent_removes_a_node_while_the_other_changed_it() -> Result<(), MergeError> {
    let method = |last: &str| {
        nt(
            "method_declaration",
            vec![t("identifier", "method"), t("kind_a", "value_a"), t("kind_b", last)],
        )
    };
    let base = body(vec![method("value_b")]);
    let parent_a = body(vec![method("new_value_b")]);
    let parent_b = body(vec![]);
    let changed = mnt(
        "method_declaration",
        vec![
            mt("identifier", "method"),
            mt("kind_a", "value_a"),
            mt("kind_b", "new_value_b"),
        ],
    );
    assert_unordered_merge_output_is(
        &base,
        &parent_a,
        &parent_b,
        &merged_body(vec![only_left(mnt(
            "method_declaration",
            vec![
                mt("identifier", "method"),
                mt("kind_a", "value_a"),
                mt("kind_b", "new_value_b"),
            ],
        ))]),
    )?;
    assert_unordered_merge_output_is(&base, &parent_b, &parent_a, &merged_body(vec![only_right(changed)]))
}

#[test]
fn i_get_an_error_if_i_try_to_merge_nodes_of_different_kinds() {
    let kind_a = inner("kind_a", vec![], true);
    let kind_b = inner("kind_b", vec![], true);
    let matchings = Matchings::empty();
    let result = unordered_merge(&kind_a, &kind_b, &matchings, &matchings, &matchings);
    assert!(result.is_err());
    assert_eq!(
        result.unwrap_err(),
        MergeError::NodesWithDifferentKinds("kind_a".to_string(), "kind_b".to_string())
    );
}

#[test]
fn a_merged_tree_is_written_with_conflict_markers() {
    let tree = mnt(
        "kind",
        vec![
            mt("a", "x"),
            both(mt("b", "l"), mt("b", "r")),
            only_left(mt("c", "y")),
            only_right(mt("d", "z")),
        ],
    );
    assert!(tree.has_conflict());
    assert_eq!(
        tree.to_string(),
        " x <<<<<<<<< l ========= r >>>>>>>>> <<<<<<<<< y ========= >>>>>>>>> <<<<<<<<< ========= z >>>>>>>>>"
    );
    assert!(!mnt("kind", vec![mt("a", "x")]).has_conflict());
}

#[test]
fn a_tree_taken_as_it_is_is_written_as_its_contents() {
    let tree = nt("kind", vec![t("a", "x"), nt("b", vec![t("c", "y")])]);
    assert_eq!(MergedCSTNode::from(&tree).to_string(), tree.contents());
}

#[test]
fn merge_errors_describe_themselves() {
    assert_eq!(
        MergeError::MergingTerminalWithNonTerminal.to_string(),
        "Merging terminal with non-terminal"
    );
    assert_eq!(
        MergeError::InvalidMatchingConfiguration(true, false, true, false, true).to_string(),
        "Invalid matching configuration: true, false, true, false, true"
    );
    assert_eq!(
        MergeError::NodesWithDifferentKinds("a".to_string(), "b".to_string()).to_string(),
        "Tried to merge node of kind \"a\" with node of kind \"b\""
    );
}

fn id_of(node: &CSTNode) -> u128 {
    node.id()
}

#[test]
fn a_combination_of_matchings_without_a_rule_is_an_error() {
    let base = nt("kind", vec![t("k", "v")]);
    let left = nt("kind", vec![t("k", "v")]);
    let right = nt("kind", vec![t("k", "w")]);
    let child = |n: &CSTNode| match n {
        CSTNode::NonTerminal(inner) => id_of(&inner.children[0]),
        CSTNode::Terminal(_) => panic!("an inner node was built"),
    };
    let mut base_left = Matchings::empty();
    base_left.insert(child(&base), child(&left), generic_merge::matching::matchings::MatchingEntry {
        score: 1,
        is_perfect_match: true,
    });
    let base_right = Matchings::empty();
    let mut left_right = Matchings::empty();
    left_right.insert(child(&left), child(&right), generic_merge::matching::matchings::MatchingEntry {
        score: 0,
        is_perfect_match: false,
    });
    let error = ordered_merge(&base, &left, &right, &base_left, &base_right, &left_right).unwrap_err();
    assert_eq!(error, MergeError::InvalidMatchingConfiguration(true, true, true, true, false));
}

#[test]
fn a_match_outside_the_other_children_cannot_be_merged() {
    let left = unt("body", vec![t("k", "v")]);
    let right = unt("body", vec![t("k", "v")]);
    let left_child = match &left {
        CSTNode::NonTerminal(inner) => id_of(&inner.children[0]),
        CSTNode::Terminal(_) => panic!("an inner node was built"),
    };
    let mut left_right = Matchings::empty();
    left_right.insert(left_child, 12345, generic_merge::matching::matchings::MatchingEntry {
        score: 1,
        is_perfect_match: true,
    });
    let outcome = generic_merge::merge::try_merge(
        &left,
        &left,
        &right,
        &Matchings::empty(),
        &Matchings::empty(),
        &left_right,
    );
    assert!(outcome.is_none());
}
