use extractor::search::MatchResult;
use extractor::search::extract_declaration;
use extractor::search::find_declaration;
use extractor::tree::SyntaxNode;
use extractor::tree::SyntaxTree;

/// Flattens a parsed tree-sitter tree into the library's model: nodes in
/// pre-order, each with its kind tag, byte range and structural links.
fn flatten(tree: &tree_sitter::Tree) -> SyntaxTree {
    let mut nodes: Vec<SyntaxNode> = Vec::new();
    let mut cursor = tree.walk();
    let mut parents: Vec<usize> = Vec::new();
    let mut last_sibling: Vec<Option<usize>> = vec![None];
    loop {
        let n = cursor.node();
        let idx = nodes.len();
        let parent = parents.last().copied();
        nodes.push(SyntaxNode {
            kind: n.kind().to_string(),
            start: n.start_byte(),
            end: n.end_byte(),
            parent,
            first_child: None,
            next_sibling: None,
        });
        if let Some(prev) = *last_sibling.last().unwrap() {
            nodes[prev].next_sibling = Some(idx);
        } else if let Some(p) = parent {
            nodes[p].first_child = Some(idx);
        }
        *last_sibling.last_mut().unwrap() = Some(idx);
        if cursor.goto_first_child() {
            parents.push(idx);
            last_sibling.push(None);
            continue;
        }
        loop {
            if cursor.goto_next_sibling() {
                break;
            }
            if !cursor.goto_parent() {
                return SyntaxTree { nodes };
            }
            parents.pop();
            last_sibling.pop();
        }
    }
}

fn parse_with(language: &tree_sitter::Language, src: &str) -> SyntaxTree {
    let mut parser = tree_sitter::Parser::new();
    parser.set_language(language).unwrap();
    let tree = parser.parse(src, None).unwrap();
    let model = flatten(&tree);
    assert!(model.check_wf());
    assert!(model.check_in_buffer(src.len()));
    model
}

fn parse_java(src: &str) -> SyntaxTree {
    parse_with(&tree_sitter_java::LANGUAGE.into(), src)
}

fn parse_c_sharp(src: &str) -> SyntaxTree {
    parse_with(&tree_sitter_c_sharp::LANGUAGE.into(), src)
}

#[test]
fn java_single_method_exact_text() {
    let src = "class A {\n    int compute() { return 1; }\n    void stop() { }\n}\n";
    let t = parse_java(src);
    let text = extract_declaration(&t, src.as_bytes(), b"compute").unwrap();
    assert_eq!(String::from_utf8(text).unwrap(), "int compute() { return 1; }");
}

#[test]
fn java_second_method_only() {
    let src = "class A {\n    void run() { }\n    void stop() { }\n}\n";
    let t = parse_java(src);
    let text = extract_declaration(&t, src.as_bytes(), b"stop").unwrap();
    assert_eq!(String::from_utf8(text).unwrap(), "void stop() { }");
}

#[test]
fn java_variable_is_not_found() {
    let src = "class A {\n    void m() { int helper = 5; }\n}\n";
    let t = parse_java(src);
    assert_eq!(find_declaration(&t, src.as_bytes(), b"helper"), MatchResult::NotFound);
    assert!(extract_declaration(&t, src.as_bytes(), b"helper").is_none());
}

#[test]
fn java_absent_target_and_empty_file() {
    let src = "class A { void m() { } }\n";
    let t = parse_java(src);
    assert_eq!(find_declaration(&t, src.as_bytes(), b"gone"), MatchResult::NotFound);

    let empty = "";
    let t2 = parse_java(empty);
    assert_eq!(find_declaration(&t2, empty.as_bytes(), b"m"), MatchResult::NotFound);
}

#[test]
fn java_overloads_first_in_preorder_wins() {
    let src = "class A {\n    void process() { }\n    void process(int x) { }\n}\n";
    let t = parse_java(src);
    let r1 = find_declaration(&t, src.as_bytes(), b"process");
    let r2 = find_declaration(&t, src.as_bytes(), b"process");
    assert_eq!(r1, r2);
    let text = extract_declaration(&t, src.as_bytes(), b"process").unwrap();
    assert_eq!(String::from_utf8(text).unwrap(), "void process() { }");
}

#[test]
fn java_deeply_nested_blocks_complete() {
    let mut src = String::from("class A { void deep() { ");
    let levels: usize = 300;
    for _ in 0..levels {
        src.push('{');
    }
    for _ in 0..levels {
        src.push('}');
    }
    src.push_str(" } void after() { } }");
    let t = parse_java(&src);
    let text = extract_declaration(&t, src.as_bytes(), b"after").unwrap();
    assert_eq!(String::from_utf8(text).unwrap(), "void after() { }");
    assert!(matches!(
        find_declaration(&t, src.as_bytes(), b"deep"),
        MatchResult::Found(_, _)
    ));
}

#[test]
fn c_sharp_method_exact_text() {
    let src = "class A {\n    int Compute() { return 1; }\n}\n";
    let t = parse_c_sharp(src);
    let text = extract_declaration(&t, src.as_bytes(), b"Compute").unwrap();
    assert_eq!(String::from_utf8(text).unwrap(), "int Compute() { return 1; }");
    assert_eq!(find_declaration(&t, src.as_bytes(), b"compute"), MatchResult::NotFound);
}

#[test]
fn c_sharp_call_site_is_not_a_declaration() {
    let src = "class A {\n    void M() { Helper(); }\n}\n";
    let t = parse_c_sharp(src);
    assert_eq!(find_declaration(&t, src.as_bytes(), b"Helper"), MatchResult::NotFound);
}
