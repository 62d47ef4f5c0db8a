use generic_merge::model::{CSTNode, Language, NonTerminal, Point, Terminal};
use generic_merge::parsing::{parse_string, ParserConfiguration};
use generic_merge::parsing_handlers::{
    get_default_java_parsing_handlers, remove_block_comments, tweak_import_declarations,
    ParsingHandler, ParsingHandlers,
};

/// A tree reduced to kinds and values, to compare with an expected shape.
#[derive(Debug, PartialEq)]
enum Shape {
    Leaf(String, String),
    Node(String, Vec<Shape>),
}

fn shape(node: &CSTNode) -> Shape {
    match node {
        CSTNode::Terminal(t) => Shape::Leaf(t.kind.clone(), t.value.clone()),
        CSTNode::NonTerminal(n) => Shape::Node(n.kind.clone(), n.children.iter().map(shape).collect()),
    }
}

fn l(kind: &str, value: &str) -> Shape {
    Shape::Leaf(kind.to_string(), value.to_string())
}

fn n(kind: &str, children: Vec<Shape>) -> Shape {
    Shape::Node(kind.to_string(), children)
}

#[test]
fn it_parses_an_interface() {
    let code = r#"
            public static interface HelloWorld {
                void sayHello(String name);
            }
        "#;
    let config = ParserConfiguration::from(Language::Java);
    let result = parse_string(code, &config).expect("Error loading Java grammar");
    let expected = n(
        "program",
        vec![n(
            "interface_declaration",
            vec![
                n("modifiers", vec![l("public", "public"), l("static", "static")]),
                l("interface", "interface"),
                l("identifier", "HelloWorld"),
                n(
                    "interface_body",
                    vec![
                        l("{", "{"),
                        n(
                            "method_declaration",
                            vec![
                                l("void_type", "void"),
                                l("identifier", "sayHello"),
                                n(
                                    "formal_parameters",
                                    vec![
                                        l("(", "("),
                                        n(
                                            "formal_parameter",
                                            vec![l("type_identifier", "String"), l("identifier", "name")],
                                        ),
                                        l(")", ")"),
                                    ],
                                ),
                                l(";", ";"),
                            ],
                        ),
                        l("}", "}"),
                    ],
                ),
            ],
        )],
    );
    assert_eq!(expected, shape(&result));
}

#[test]
fn parsing_marks_unordered_bodies_and_block_ends() {
    let config = ParserConfiguration::from(Language::Java);
    let result = parse_string("class A { int x; }", &config).unwrap();
    let class = match &result {
        CSTNode::NonTerminal(program) => &program.children[0],
        _ => panic!("the program is an inner node"),
    };
    let body = match class {
        CSTNode::NonTerminal(class) => class.children.last().unwrap(),
        _ => panic!("the class is an inner node"),
    };
    match body {
        CSTNode::NonTerminal(body) => {
            assert_eq!(body.kind, "class_body");
            assert!(body.are_children_unordered);
            match body.children.last().unwrap() {
                CSTNode::Terminal(close) => {
                    assert_eq!(close.value, "}");
                    assert!(close.is_block_end_delimiter);
                    assert_eq!(close.start_position, Point { row: 0, column: 17 });
                }
                _ => panic!("the body ends with a leaf"),
            }
        }
        _ => panic!("the body is an inner node"),
    }
}

#[test]
fn parsing_gathers_the_imports_of_a_program() {
    let config = ParserConfiguration::from(Language::Java);
    let result = parse_string("import a.B;\nimport c.D;\nclass E {}", &config).unwrap();
    match &result {
        CSTNode::NonTerminal(program) => {
            assert_eq!(program.children.len(), 2);
            match &program.children[0] {
                CSTNode::NonTerminal(imports) => {
                    assert_eq!(imports.kind, "import_declarations");
                    assert!(imports.are_children_unordered);
                    assert_eq!(imports.children.len(), 2);
                    assert_eq!(imports.start_position, Point { row: 0, column: 0 });
                    assert_eq!(imports.end_position, Point { row: 1, column: 11 });
                }
                _ => panic!("the imports are gathered under an inner node"),
            }
        }
        _ => panic!("the program is an inner node"),
    }
}

fn leaf(kind: &str) -> CSTNode {
    CSTNode::Terminal(Terminal { kind: kind.to_string(), ..Default::default() })
}

fn leaf_with_value(kind: &str, value: &str) -> CSTNode {
    CSTNode::Terminal(Terminal { kind: kind.to_string(), value: value.to_string(), ..Default::default() })
}

fn inner(kind: &str, children: Vec<CSTNode>) -> CSTNode {
    CSTNode::NonTerminal(NonTerminal { kind: kind.to_string(), children, ..Default::default() })
}

#[test]
fn it_removes_first_level_comments() {
    let root = CSTNode::NonTerminal(NonTerminal {
        children: vec![leaf("block_comment"), leaf("line_comment"), leaf("program")],
        ..Default::default()
    });
    let expected_root = CSTNode::NonTerminal(NonTerminal {
        children: vec![leaf("program")],
        ..Default::default()
    });
    assert_eq!(remove_block_comments(root).contents(), expected_root.contents());
}

#[test]
fn it_removes_deep_comments() {
    let root = CSTNode::NonTerminal(NonTerminal {
        children: vec![CSTNode::NonTerminal(NonTerminal {
            children: vec![leaf("block_comment"), leaf("line_comment"), leaf("program")],
            ..Default::default()
        })],
        ..Default::default()
    });
    let expected_root = CSTNode::NonTerminal(NonTerminal {
        children: vec![CSTNode::NonTerminal(NonTerminal {
            children: vec![leaf("program")],
            ..Default::default()
        })],
        ..Default::default()
    });
    assert_eq!(remove_block_comments(root).contents(), expected_root.contents());
}

#[test]
fn removing_comments_keeps_everything_else() {
    let root = inner(
        "program",
        vec![
            leaf_with_value("line_comment", "// x"),
            inner("class", vec![leaf_with_value("identifier", "A"), leaf_with_value("block_comment", "/* y */")]),
        ],
    );
    let stripped = remove_block_comments(root);
    assert_eq!(shape(&stripped), n("program", vec![n("class", vec![l("identifier", "A")])]));
}

#[test]
fn imports_are_gathered_between_what_comes_before_and_after_them() {
    let root = inner(
        "program",
        vec![
            leaf_with_value("package_declaration", "package p;"),
            leaf_with_value("import_declaration", "import a;"),
            leaf_with_value("line_comment", "// between"),
            leaf_with_value("import_declaration", "import b;"),
            leaf_with_value("class_declaration", "class C {}"),
        ],
    );
    let expected = || {
        n(
            "program",
            vec![
                l("package_declaration", "package p;"),
                n(
                    "import_declarations",
                    vec![l("import_declaration", "import a;"), l("import_declaration", "import b;")],
                ),
                l("class_declaration", "class C {}"),
            ],
        )
    };
    let tweaked = tweak_import_declarations(root);
    assert_eq!(shape(&tweaked), expected());
    let again = tweak_import_declarations(tweaked);
    assert_eq!(shape(&again), expected());
}

#[test]
fn a_tree_that_is_not_a_program_is_left_as_it_is() {
    let root = inner("class", vec![leaf_with_value("import_declaration", "import a;")]);
    let tweaked = tweak_import_declarations(root);
    assert_eq!(shape(&tweaked), n("class", vec![l("import_declaration", "import a;")]));
    let no_imports = inner("program", vec![leaf_with_value("class_declaration", "class C {}")]);
    let kept = tweak_import_declarations(no_imports);
    assert_eq!(shape(&kept), n("program", vec![l("class_declaration", "class C {}")]));
}

#[test]
fn handlers_run_in_order() {
    let handlers = ParsingHandlers::new(vec![
        ParsingHandler::RemoveBlockComments,
        ParsingHandler::TweakImportDeclarations,
    ]);
    let root = inner(
        "program",
        vec![
            leaf_with_value("import_declaration", "import a;"),
            leaf_with_value("block_comment", "/* c */"),
        ],
    );
    let result = handlers.run(root);
    assert_eq!(
        shape(&result),
        n("program", vec![n("import_declarations", vec![l("import_declaration", "import a;")])])
    );
    let java = get_default_java_parsing_handlers();
    let untouched = java.run(inner("class", vec![leaf_with_value("block_comment", "/* c */")]));
    assert_eq!(shape(&untouched), n("class", vec![l("block_comment", "/* c */")]));
}

#[test]
fn a_kind_that_stops_the_tree_is_read_as_one_leaf_and_what_follows_it_is_kept() {
    let mut config = ParserConfiguration::from(Language::Java);
    config.stop_compilation_at.push("class_body".to_string());
    let result = parse_string("class A { int x; } class B {}", &config).unwrap();
    assert_eq!(
        shape(&result),
        n(
            "program",
            vec![
                n(
                    "class_declaration",
                    vec![l("class", "class"), l("identifier", "A"), l("class_body", "{ int x; }")]
                ),
                n(
                    "class_declaration",
                    vec![l("class", "class"), l("identifier", "B"), l("class_body", "{}")]
                ),
            ]
        )
    );
}

#[test]
fn leaves_hold_the_text_of_their_byte_range_also_beyond_ascii() {
    let config = ParserConfiguration::from(Language::Java);
    let result = parse_string("class É { String s = \"ü\"; }", &config).unwrap();
    let class = match &result {
        CSTNode::NonTerminal(program) => &program.children[0],
        _ => panic!("the program is an inner node"),
    };
    match class {
        CSTNode::NonTerminal(class) => match &class.children[1] {
            CSTNode::Terminal(name) => {
                assert_eq!(name.value, "É");
                assert_eq!(name.start_position, Point { row: 0, column: 6 });
                assert_eq!(name.end_position, Point { row: 0, column: 8 });
            }
            _ => panic!("the name is a leaf"),
        },
        _ => panic!("the class is an inner node"),
    }
    assert!(result.contents().contains("ü"));
}

#[test]
fn gathering_imports_keeps_the_programs_own_ordering_flag() {
    for unordered in [false, true] {
        let root = CSTNode::NonTerminal(NonTerminal {
            kind: "program".to_string(),
            children: vec![leaf_with_value("import_declaration", "import a;"), leaf("class_declaration")],
            are_children_unordered: unordered,
            ..Default::default()
        });
        match tweak_import_declarations(root) {
            CSTNode::NonTerminal(program) => {
                assert_eq!(program.are_children_unordered, unordered);
                match &program.children[0] {
                    CSTNode::NonTerminal(imports) => assert!(imports.are_children_unordered),
                    _ => panic!("the imports are gathered under an inner node"),
                }
            }
            _ => panic!("the program stays an inner node"),
        }
    }
}
