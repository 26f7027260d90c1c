use nix_doc::comment::{cleanup_comments, push_normalized};
use nix_doc::text::{char_is_whitespace, chars_of, find_line, indented, line_spans};

fn owned(items: &[&str]) -> Vec<String> {
    items.iter().map(|s| s.to_string()).collect()
}

#[test]
fn test_comment_stripping() {
    let ex1 = owned(&["/* blah blah blah\n      foooo baaar\n */"]);
    assert_eq!(cleanup_comments(&ex1), "blah blah blah\nfoooo baaar\n");

    let ex2 = owned(&["# a1", "#    a2", "# aa"]);
    assert_eq!(cleanup_comments(&ex2), "aa\na2\na1");
}

#[test]
fn clean_text_is_kept() {
    assert_eq!(cleanup_comments(&owned(&["clean text"])), "clean text");
    let once = cleanup_comments(&owned(&["#  some words  "]));
    assert_eq!(once, "some words");
    assert_eq!(cleanup_comments(&vec![once.clone()]), once);
}

#[test]
fn no_comment_gives_empty_text() {
    assert_eq!(cleanup_comments(&Vec::new()), "");
    assert_eq!(cleanup_comments(&owned(&[""])), "");
    assert_eq!(cleanup_comments(&owned(&["#", "  #  "])), "\n");
}

#[test]
fn repeated_markers_are_stripped() {
    assert_eq!(cleanup_comments(&owned(&["## # text"])), "text");
    assert_eq!(cleanup_comments(&owned(&["/*/* text */*/"])), "text");
    assert_eq!(cleanup_comments(&owned(&["/**/"])), "");
    assert_eq!(cleanup_comments(&owned(&["/*/"])), "/");
    assert_eq!(cleanup_comments(&owned(&["/* a */ b */  "])), "a */ b");
}

#[test]
fn markers_inside_a_line_stay() {
    assert_eq!(cleanup_comments(&owned(&["# a # b /* c"])), "a # b /* c");
    assert_eq!(cleanup_comments(&owned(&["/*# x"])), "# x");
}

#[test]
fn line_marker_at_start_of_inner_line_is_stripped() {
    assert_eq!(cleanup_comments(&owned(&["/* first\n   # second\n*/"])), "first\nsecond\n");
}

#[test]
fn push_normalized_appends() {
    let mut out = String::from("kept:");
    push_normalized("# a\n# b", &mut out);
    assert_eq!(out, "kept:a\nb");
}

#[test]
fn unicode_white_space_is_trimmed() {
    assert_eq!(cleanup_comments(&owned(&["#\u{a0}\u{3000}text\u{2003}\u{85}"])), "text");
    assert_eq!(cleanup_comments(&owned(&["# \u{200b}text"])), "\u{200b}text");
}

#[test]
fn white_space_is_what_std_says() {
    let mut code: u32 = 0;
    while code <= 0x10FFFF {
        if let Some(c) = char::from_u32(code) {
            assert_eq!(char_is_whitespace(c), c.is_whitespace(), "U+{:04X}", code);
        }
        code += 1;
    }
}

#[test]
fn chars_and_line_spans() {
    let chars = chars_of("ab\n\ncd\u{e9}\n");
    assert_eq!(chars, vec!['a', 'b', '\n', '\n', 'c', 'd', '\u{e9}', '\n']);
    assert_eq!(line_spans(&chars), vec![(0, 2), (3, 3), (4, 7), (8, 8)]);
    assert_eq!(line_spans(&Vec::new()), vec![(0, 0)]);
}

#[test]
fn indented_puts_blanks_before_each_line() {
    assert_eq!(indented("a\nbc", 3), "   a\n   bc");
    assert_eq!(indented("", 2), "  ");
    assert_eq!(indented("a\n", 1), " a\n ");
    assert_eq!(indented("x\n\ny", 0), "x\n\ny");
    assert_eq!(indented("\u{e9}t\u{e9}\nhiver", 2), "  \u{e9}t\u{e9}\n  hiver");
}

#[test]
fn find_line_counts_from_one() {
    let file = "{\n# doc\nname = 1;\n}";
    assert_eq!(find_line(file, 0), 1);
    assert_eq!(find_line(file, 1), 1);
    assert_eq!(find_line(file, 2), 2);
    assert_eq!(find_line(file, 8), 3);
    assert_eq!(find_line(file, 12), 3);
    assert_eq!(find_line(file, file.len()), 4);
    assert_eq!(find_line(file, file.len() + 100), 4);
    assert_eq!(find_line("", 0), 1);
    assert_eq!(find_line("\u{e9}\n\u{e9}", 3), 2);
}
