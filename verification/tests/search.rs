use nix_doc::matcher::{
    entry_name, entry_of_answer, search_ast, visit_attrset, visit_entry, SearchResult,
};
use nix_doc::report::{failure_line, format_results, DOC_INDENT};
use nix_doc::search::{handle_file, is_searchable, search_walk, FileOutcome, NestingError};
use nix_doc::tree::{ElementKind, SyntaxTree};
use nix_doc::walk::WalkStep;
use regex::Regex;
use rnix::{NodeOrToken, WalkEvent};

fn walk(content: &str) -> Result<Vec<WalkStep>, String> {
    let ast = rnix::parse(content).as_result().map_err(|err| err.to_string())?;
    let steps = ast.node().preorder_with_tokens().map(|event| match event {
        WalkEvent::Enter(NodeOrToken::Node(node)) => WalkStep::EnterNode {
            kind: node.kind() as u16,
            start: node.text_range().start().to_usize(),
        },
        WalkEvent::Enter(NodeOrToken::Token(token)) => WalkStep::EnterToken {
            kind: token.kind() as u16,
            start: token.text_range().start().to_usize(),
            text: token.text().to_string(),
        },
        WalkEvent::Leave(NodeOrToken::Node(_)) => WalkStep::LeaveNode,
        WalkEvent::Leave(NodeOrToken::Token(_)) => WalkStep::LeaveToken,
    });
    Ok(steps.collect())
}

fn parse(content: &str) -> SyntaxTree {
    SyntaxTree::from_steps(&walk(content).unwrap()).unwrap()
}

fn found(content: &str, pattern: &str) -> Vec<(String, String, usize)> {
    let steps = walk(content).unwrap();
    let results = search_walk(&steps, &Regex::new(pattern).unwrap()).unwrap();
    results.into_iter().map(|r| (r.identifier, r.doc, r.defined_at_start)).collect()
}

fn one(name: &str, doc: &str, at: usize) -> (String, String, usize) {
    (name.to_string(), doc.to_string(), at)
}

#[test]
fn documented_function_is_found() {
    let content = "{\n  # doubles the input\n  myFunc = x: x + 1;\n}\n";
    assert_eq!(found(content, "myFunc"), vec![one("myFunc", "doubles the input", 26)]);
}

#[test]
fn end_to_end_block_of_one_match() {
    let content = "{\n  # doubles the input\n  myFunc = x: x + 1;\n}\n";
    let outcome = handle_file("lib.nix", content, &walk(content), &Regex::new("myFunc").unwrap());
    match outcome {
        FileOutcome::Matches(blocks) => {
            assert_eq!(blocks.len(), 1);
            assert_eq!(
                blocks[0],
                "   doubles the input\n\u{1b}[38;5;15;1mmyFunc\u{1b}[0m lib.nix:3\n"
            );
            assert!(blocks[0].contains("myFunc"));
            assert!(blocks[0].contains("doubles the input"));
            assert!(blocks[0].contains("lib.nix:3"));
        }
        other => panic!("expected matches, got {:?}", other),
    }
}

#[test]
fn file_that_does_not_parse_gives_one_failure_line() {
    let content = "{ broken = ;";
    let re = Regex::new("broken").unwrap();
    assert!(walk(content).is_err());
    match handle_file("dir/bad.nix", content, &walk(content), &re) {
        FileOutcome::Failure(line) => {
            assert!(line.starts_with("Failure handling dir/bad.nix: "));
            assert!(line.len() > "Failure handling dir/bad.nix: ".len());
            assert_eq!(line.lines().count(), 1);
            let message = rnix::parse(content).as_result().err().unwrap().to_string();
            assert_eq!(line, format!("Failure handling dir/bad.nix: {}", message));
        }
        other => panic!("expected a failure, got {:?}", other),
    }
}

#[test]
fn file_without_match_gives_nothing() {
    let content = "{\n  # doubles the input\n  myFunc = x: x + 1;\n}\n";
    let outcome = handle_file("lib.nix", content, &walk(content), &Regex::new("other").unwrap());
    assert!(matches!(outcome, FileOutcome::Nothing));
    assert!(matches!(
        handle_file("lib.nix", "1 + 1", &walk("1 + 1"), &Regex::new(".").unwrap()),
        FileOutcome::Nothing
    ));
}

#[test]
fn undocumented_function_gives_no_result() {
    let content = "{\n  myFunc = x: x + 1;\n  inherit other;\n}\n";
    assert_eq!(found(content, "myFunc"), Vec::new());
    let first = "{ myFunc = x: x; }";
    assert_eq!(found(first, "myFunc"), Vec::new());
}

#[test]
fn plain_value_gives_no_result() {
    let content = "{\n  # a number\n  myFunc = 1;\n  # a set\n  mySet = { };\n}\n";
    assert_eq!(found(content, "my"), Vec::new());
}

#[test]
fn pattern_is_a_regular_expression() {
    let content = "{\n  # one\n  mapAttrs = f: f;\n  # two\n  filterAttrs = f: f;\n  # three\n  id = x: x;\n}\n";
    assert_eq!(
        found(content, "Attrs$"),
        vec![one("mapAttrs", "one", 12), one("filterAttrs", "two", 39)]
    );
    assert_eq!(found(content, "^i"), vec![one("id", "three", 71)]);
    assert_eq!(found(content, "^Attrs"), Vec::new());
}

#[test]
fn every_result_matches_and_is_documented() {
    let content = "{\n  # one\n  ab = f: f;\n  bc = f: f;\n  # three\n  cd = x: x;\n  #\n  be = x: x;\n}\n";
    let re = Regex::new("b").unwrap();
    let results = search_walk(&walk(content).unwrap(), &re).unwrap();
    assert_eq!(results.len(), 1);
    for result in &results {
        assert!(re.is_match(&result.identifier));
        assert!(!result.doc.is_empty());
    }
}

#[test]
fn outer_set_comes_before_the_sets_inside_it() {
    let content = "{\n  # first\n  a = x: {\n    # inner\n    b = y: y;\n  };\n  # last\n  c = z: z;\n}\n";
    let names: Vec<String> = found(content, ".").into_iter().map(|r| r.0).collect();
    assert_eq!(names, vec!["a", "c", "b"]);
}

#[test]
fn sets_anywhere_in_the_tree_are_searched() {
    let content = "let\n  s = {\n    /* deep */\n    f = x: x;\n  };\nin [ { \n # listed\n g = y: y; } ]\n";
    assert_eq!(found(content, "."), vec![one("f", "deep", 31), one("g", "listed", 65)]);
    let bindings = "let\n  # not in a set\n  f = x: x;\nin f\n";
    assert_eq!(found(bindings, "f"), Vec::new());
}

#[test]
fn last_segment_of_a_path_names_the_entry() {
    let content = "{\n  # nested\n  outer.inner = x: x;\n}\n";
    assert_eq!(found(content, "inner"), vec![one("inner", "nested", 21)]);
    assert_eq!(found(content, "outer"), Vec::new());
}

#[test]
fn keys_that_are_no_identifier_are_not_matched() {
    let content = "{\n  # quoted\n  \"name\" = x: x;\n  # computed\n  ${\"na\" + \"me\"} = x: x;\n}\n";
    assert_eq!(found(content, "."), Vec::new());
}

#[test]
fn comment_above_the_set_documents_its_first_entry_only_past_trivia() {
    let content = "{\n  # doc\n\n\n  f = x: x;\n  g = y: y;\n}\n";
    assert_eq!(found(content, "."), vec![one("f", "doc", 14)]);
}

#[test]
fn run_of_comments_is_joined_in_source_order() {
    let content = "{\n  # first\n  # second\n  /* third\n     fourth */\n  f = x: x;\n}\n";
    assert_eq!(found(content, "f"), vec![one("f", "first\nsecond\nthird\nfourth", 51)]);
}

#[test]
fn search_twice_gives_the_same() {
    let content = "{\n  # one\n  a = f: f;\n  # two\n  b = f: { \n # three\n c = x: x; };\n}\n";
    let tree = parse(content);
    let re = Regex::new(".").unwrap();
    let flat = |rs: Vec<SearchResult>| -> Vec<(String, String, usize)> {
        rs.into_iter().map(|r| (r.identifier, r.doc, r.defined_at_start)).collect()
    };
    let first = flat(search_ast(&re, &tree));
    let second = flat(search_ast(&re, &tree));
    assert_eq!(first.len(), 3);
    assert_eq!(first, second);
}

#[test]
fn visit_attrset_and_entry_on_a_parsed_tree() {
    let content = "{\n  # one\n  a = f: f;\n  b = 2;\n}\n";
    let tree = parse(content);
    let re = Regex::new(".").unwrap();
    let set = (0..tree.len()).find(|&i| tree.elements[i].kind == ElementKind::AttrSet).unwrap();
    let results = visit_attrset(&re, &tree, set);
    assert_eq!(results.len(), 1);
    assert_eq!(results[0].identifier, "a");
    assert_eq!(results[0].doc, "one");
    assert_eq!(results[0].defined_at_start, 12);
    let entries: Vec<usize> =
        (0..tree.len()).filter(|&i| tree.elements[i].kind == ElementKind::KeyValue).collect();
    assert_eq!(entries.len(), 2);
    assert_eq!(visit_entry(&re, &tree, entries[0]).unwrap().identifier, "a");
    assert!(visit_entry(&re, &tree, entries[1]).is_none());
    assert!(visit_entry(&re, &tree, set).is_none());
    assert!(visit_attrset(&re, &tree, 0).is_empty());
    assert!(visit_attrset(&re, &tree, tree.len() + 3).is_empty());
}

#[test]
fn parse_keeps_every_token_of_the_source() {
    let content = "{\n  # one\n  a = f: f; }";
    let tree = parse(content);
    let mut text = String::new();
    for element in &tree.elements {
        if element.kind.is_token() {
            assert_eq!(element.start, text.len());
            text.push_str(&element.text);
        } else {
            assert_eq!(element.text, "");
        }
    }
    assert_eq!(text, content);
    assert_eq!(tree.elements[0].depth, 0);
    assert_eq!(tree.parent(0), None);
    for i in 1..tree.len() {
        let up = tree.parent(i).unwrap();
        assert!(!tree.elements[up].kind.is_token());
        assert_eq!(tree.elements[up].depth + 1, tree.elements[i].depth);
    }
}

#[test]
fn format_shows_doc_name_file_and_line() {
    let result = SearchResult {
        identifier: "f".to_string(),
        doc: "two\nlines".to_string(),
        defined_at_start: 7,
    };
    let file = "{\n\n\n\n  f = x: x;\n}";
    assert_eq!(DOC_INDENT, 3);
    assert_eq!(
        result.format("some/lib.nix", file),
        "   two\n   lines\n\u{1b}[38;5;15;1mf\u{1b}[0m some/lib.nix:5\n"
    );
    let far = SearchResult { identifier: "g".to_string(), doc: "d".to_string(), defined_at_start: 0 };
    let many = "\n".repeat(1234) + "g";
    let late = SearchResult { defined_at_start: 1234, ..far.clone() };
    assert_eq!(far.format("a", &many), "   d\n\u{1b}[38;5;15;1mg\u{1b}[0m a:1\n");
    assert_eq!(late.format("a", &many), "   d\n\u{1b}[38;5;15;1mg\u{1b}[0m a:1235\n");
    let blocks = format_results(&vec![far.clone(), late.clone()], "a", &many);
    assert_eq!(blocks, vec![far.format("a", &many), late.format("a", &many)]);
    assert!(format_results(&Vec::new(), "a", &many).is_empty());
}

#[test]
fn failure_line_names_path_and_error() {
    assert_eq!(failure_line("a/b.nix", "no such file"), "Failure handling a/b.nix: no such file");
    assert_eq!(NestingError.message(), "syntax tree walk leaves a node that is not open");
}

#[test]
fn walk_that_describes_no_tree_is_a_failure() {
    let re = Regex::new(".").unwrap();
    let steps = vec![WalkStep::EnterNode { kind: 76, start: 0 }, WalkStep::LeaveNode, WalkStep::LeaveNode];
    assert_eq!(search_walk(&steps, &re).err(), Some(NestingError));
    match handle_file("a.nix", "", &Ok(steps), &re) {
        FileOutcome::Failure(line) => assert_eq!(
            line,
            "Failure handling a.nix: syntax tree walk leaves a node that is not open"
        ),
        other => panic!("expected a failure, got {:?}", other),
    }
    match handle_file("a.nix", "", &Err("no good".to_string()), &re) {
        FileOutcome::Failure(line) => assert_eq!(line, "Failure handling a.nix: no good"),
        other => panic!("expected a failure, got {:?}", other),
    }
}

#[test]
fn entry_of_answer_takes_the_pattern_s_answer() {
    let content = "{\n  # one\n  a.b = f: f;\n  c = 2;\n  d = g: g;\n}\n";
    let tree = parse(content);
    let entries: Vec<usize> =
        (0..tree.len()).filter(|&i| tree.elements[i].kind == ElementKind::KeyValue).collect();
    assert_eq!(entries.len(), 3);
    assert_eq!(entry_name(&tree, entries[0]), Some("b".to_string()));
    assert_eq!(entry_name(&tree, entries[1]), None);
    assert_eq!(entry_name(&tree, entries[2]), Some("d".to_string()));
    assert_eq!(entry_name(&tree, 0), None);
    assert_eq!(entry_name(&tree, tree.len()), None);
    let taken = entry_of_answer(&tree, entries[0], true).unwrap();
    assert_eq!(taken.identifier, "b");
    assert_eq!(taken.doc, "one");
    assert_eq!(taken.defined_at_start, content.find("b =").unwrap());
    assert!(entry_of_answer(&tree, entries[0], false).is_none());
    assert!(entry_of_answer(&tree, entries[1], true).is_none());
    assert!(entry_of_answer(&tree, entries[2], true).is_none());
    assert!(entry_of_answer(&tree, entries[2], false).is_none());
}

#[test]
fn searchable_files_are_library_sources() {
    assert!(is_searchable("lib.nix"));
    assert!(is_searchable("nixpkgs/lib/strings.nix"));
    assert!(is_searchable("pkgs/build-support/mylib.nix"));
    assert!(is_searchable("./libfoo/default.nix"));
    assert!(!is_searchable("default.nix"));
    assert!(!is_searchable("lib.txt"));
    assert!(!is_searchable("lib/strings.nix.bak"));
    assert!(!is_searchable("lib"));
    assert!(!is_searchable(".nix"));
    assert!(!is_searchable(""));
    assert!(!is_searchable("li/b.nix"));
}
