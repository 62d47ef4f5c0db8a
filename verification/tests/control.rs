use generic_merge::control::{
    fits_matching_limits, get_language_from_extension, get_language_from_name, run_diff_on_files,
    run_tool_on_merge_scenario, ExecutionError, ExecutionResult,
};
use generic_merge::merge::merge_error::MergeError;
use generic_merge::model::{CSTNode, Language, NonTerminal, Terminal};

#[test]
fn java_is_the_only_language_known_by_name() {
    assert_eq!(get_language_from_name("java"), Ok(Language::Java));
    assert_eq!(get_language_from_name("kotlin"), Err("Invalid language provided"));
    assert_eq!(get_language_from_extension("java"), Some(Language::Java));
    assert_eq!(get_language_from_extension("txt"), None);
}

#[test]
fn when_the_base_equals_the_left_file_the_right_file_is_the_result() {
    let result = run_tool_on_merge_scenario(Language::Java, "class A {}", "class A {}", "not java at all")
        .unwrap();
    match result {
        ExecutionResult::WithoutConflicts(text) => assert_eq!(text, "not java at all"),
        ExecutionResult::WithConflicts(_) => panic!("no conflict was expected"),
    }
}

#[test]
fn when_the_base_equals_the_right_file_the_left_file_is_the_result() {
    let result =
        run_tool_on_merge_scenario(Language::Java, "class A {}", "class B {}", "class A {}").unwrap();
    assert_eq!(result.to_string(), "class B {}");
}

#[test]
fn independent_changes_merge_without_conflicts() {
    let base = "class A {\n  int x;\n}\n";
    let left = "class A {\n  int x;\n  int y;\n}\n";
    let right = "class A {\n  int x;\n  void m() {}\n}\n";
    let result = run_tool_on_merge_scenario(Language::Java, base, left, right).unwrap();
    match result {
        ExecutionResult::WithoutConflicts(text) => {
            let words = text.split_whitespace().collect::<Vec<_>>().join(" ");
            assert_eq!(words, "class A { int x ; int y ; void m ( ) { } }");
        }
        ExecutionResult::WithConflicts(text) => panic!("unexpected conflict: {}", text),
    }
}

#[test]
fn a_field_changed_in_both_parents_is_a_conflict() {
    let base = "class A {\n  int x = 1;\n}\n";
    let left = "class A {\n  int x = 2;\n}\n";
    let right = "class A {\n  int x = 3;\n}\n";
    let result = run_tool_on_merge_scenario(Language::Java, base, left, right).unwrap();
    match result {
        ExecutionResult::WithConflicts(text) => assert!(text.contains("<<<<<<<")),
        ExecutionResult::WithoutConflicts(text) => panic!("a conflict was expected: {}", text),
    }
}

#[test]
fn equal_files_fully_match() {
    let entry = run_diff_on_files(Language::Java, "class A { int x; }", "class A { int x; }").unwrap();
    assert!(entry.is_perfect_match);
}

#[test]
fn different_files_do_not_fully_match() {
    let entry = run_diff_on_files(Language::Java, "class A { int x; }", "class A { int y; }").unwrap();
    assert!(!entry.is_perfect_match);
}

#[test]
fn execution_errors_describe_themselves() {
    assert_eq!(
        ExecutionError::ParsingError("bad input").to_string(),
        "Parsing error occurred: bad input"
    );
    assert_eq!(
        ExecutionError::MergeError(MergeError::MergingTerminalWithNonTerminal).to_string(),
        "Merge error occurred: Merging terminal with non-terminal"
    );
}

fn language_of_path(file_path: &std::path::Path) -> Option<Language> {
    file_path
        .extension()
        .and_then(|extension| extension.to_str())
        .and_then(get_language_from_extension)
}

#[test]
fn if_the_file_extension_has_no_parser_available_it_returns_error() {
    let file_path = std::path::PathBuf::from("/path/without/extension");
    assert!(language_of_path(&file_path).is_none())
}

#[test]
fn if_the_file_extension_has_a_parser_available_it_returns_a_parser_configuration() {
    let file_path = std::path::PathBuf::from("/path/for/java/file/Example.java");
    assert!(language_of_path(&file_path).is_some())
}

#[test]
fn trees_of_many_thousands_of_nodes_fit_the_matching_limits() {
    let leaves: Vec<CSTNode> = (0..70000).map(|_| CSTNode::Terminal(Terminal::default())).collect();
    let wide = CSTNode::NonTerminal(NonTerminal { children: leaves, ..Default::default() });
    let small = CSTNode::Terminal(Terminal::default());
    assert_eq!(fits_matching_limits(&wide, &small), usize::MAX > u32::MAX as usize);
    assert!(fits_matching_limits(&small, &small));
}
