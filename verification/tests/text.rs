use waypoint::graph::{closure, DependencyKind, Edge};
use waypoint::text::{parse_flag, parse_literal, parse_u32, same_text};

#[test]
fn numbers() {
    assert_eq!(parse_u32("0"), Some(0));
    assert_eq!(parse_u32("007"), Some(7));
    assert_eq!(parse_u32("+42"), Some(42));
    assert_eq!(parse_u32("4294967295"), Some(u32::MAX));
    assert_eq!(parse_u32("4294967296"), None);
    assert_eq!(parse_u32("99999999999999999999999999"), None);
    assert_eq!(parse_u32(""), None);
    assert_eq!(parse_u32("+"), None);
    assert_eq!(parse_u32("-1"), None);
    assert_eq!(parse_u32("1 "), None);
    assert_eq!(parse_u32("1a"), None);
    assert_eq!(parse_u32("\u{664}"), None);
    for text in ["12", "+0", "0x10", "ff", "", "+", "4294967295", "4294967296", "1_0"] {
        assert_eq!(parse_u32(text), text.parse::<u32>().ok(), "{:?}", text);
    }
}

#[test]
fn literals() {
    assert_eq!(parse_literal("16"), Some(16));
    assert_eq!(parse_literal("0x10"), Some(16));
    assert_eq!(parse_literal("0xffffffff"), Some(u32::MAX));
    assert_eq!(parse_literal("0xFFFFFFFF"), Some(u32::MAX));
    assert_eq!(parse_literal("0x100000000"), None);
    assert_eq!(parse_literal("0x"), None);
    assert_eq!(parse_literal("0X10"), None);
    assert_eq!(parse_literal("10g"), None);
    assert_eq!(parse_literal("0xg"), None);
}

#[test]
fn flags_and_texts() {
    assert_eq!(parse_flag("true"), Some(true));
    assert_eq!(parse_flag("false"), Some(false));
    assert_eq!(parse_flag("True"), None);
    assert_eq!(parse_flag(""), None);
    assert!(same_text("", ""));
    assert!(same_text("gr\u{fc}n", "gr\u{fc}n"));
    assert!(!same_text("a", "ab"));
    assert!(!same_text("ab", "ac"));
}

fn edge(from: usize, to: usize, kind: DependencyKind) -> Edge {
    Edge { from, to, kind }
}

#[test]
fn what_is_reached() {
    use_edges();
}

fn use_edges() {
    let edges = vec![
        edge(0, 1, DependencyKind::Strong),
        edge(1, 2, DependencyKind::Weak),
        edge(2, 3, DependencyKind::Strong),
        edge(3, 0, DependencyKind::Strong),
        edge(4, 0, DependencyKind::Strong),
    ];
    let seeds = vec![true, false, false, false, false];
    assert_eq!(closure(&edges, &seeds, false), vec![true, true, true, true, false]);
    assert_eq!(closure(&edges, &seeds, true), vec![true, true, false, false, false]);
    let seeds = vec![false, false, true, false, false];
    assert_eq!(closure(&edges, &seeds, true), vec![true, true, true, true, false]);
    let none = vec![false; 5];
    assert_eq!(closure(&edges, &none, false), none);
    assert_eq!(closure(&vec![], &vec![], false), Vec::<bool>::new());
}
