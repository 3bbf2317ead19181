use waypoint::doc::{gen_doc_attr, gen_doc_attr_with_summary, lines_of, trim_multiline};
use waypoint::protocol::Description;

#[test]
fn the_common_indent_goes() {
    let text = "\n        first line\n          indented more\n\n        last line\n      ";
    assert_eq!(trim_multiline(text), " first line\n   indented more\n\n last line\n\n");
}

#[test]
fn a_shorter_indent_wins_only_as_a_start() {
    // the second line's indent is a proper start of the first's
    assert_eq!(trim_multiline("    a\n  b\n"), "   a\n b\n");
    // a tab is no start of blanks: the first indent stays
    assert_eq!(trim_multiline("  a\n\tb\n"), " a\n \tb\n");
    // a line without indent does not count
    assert_eq!(trim_multiline("  a\nb\n  c"), " a\n b\n c\n");
}

#[test]
fn blank_lines_at_the_start_go() {
    assert_eq!(trim_multiline(""), "");
    assert_eq!(trim_multiline("\n\n \n"), "");
    assert_eq!(trim_multiline("\n\nx\n\n"), " x\n\n");
    assert_eq!(trim_multiline("x"), " x\n");
    assert_eq!(trim_multiline("x\r\ny\r"), " x\n y\r\n");
}

#[test]
fn lines_are_as_the_standard_library_has_them() {
    for text in ["", "\n", "a", "a\n", "a\nb", "a\r\nb\r\n", "a\r", "\r\n\r\n", "a\n\nb\n\n", "\u{e4}\n\u{2028}x"] {
        let chars: Vec<char> = text.chars().collect();
        let ours: Vec<String> = lines_of(&chars).iter().map(|line| line.iter().collect()).collect();
        let theirs: Vec<String> = text.lines().map(String::from).collect();
        assert_eq!(ours, theirs, "lines of {:?}", text);
    }
}

#[test]
fn documentation_lines() {
    let description = Description {
        summary: "  core global object \n".to_string(),
        body: "\n\tThe core global object.  This is a special singleton object.\n\tIt is used for internal Wayland protocol features.\n      ".to_string(),
    };
    assert_eq!(
        gen_doc_attr(Some(&description)),
        vec![
            " core global object",
            "",
            " ---",
            "",
            " The core global object.  This is a special singleton object.",
            " It is used for internal Wayland protocol features.",
        ]
    );
    assert_eq!(gen_doc_attr(None), Vec::<String>::new());
    assert_eq!(gen_doc_attr_with_summary(Some("the summary"), None), vec![" the summary"]);
    assert_eq!(gen_doc_attr_with_summary(None, Some(&description)).len(), 6);
    let both = gen_doc_attr_with_summary(Some("s"), Some(&description));
    assert_eq!(both[0], " s");
    assert_eq!(both[1], " core global object");
    let empty = Description { summary: String::new(), body: String::new() };
    assert_eq!(gen_doc_attr(Some(&empty)), vec![" ", "", " ---", "", ""]);
}
