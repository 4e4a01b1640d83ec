use weft::expr::{Expr, Step, Term};
use weft::scan::{parse_inline, Segment};

fn path_text(root: &str, steps: &[Step]) -> String {
    let mut s = root.to_string();
    for st in steps {
        s.push('.');
        s.push_str(&st.name);
        if st.call {
            s.push_str("()");
        }
    }
    s
}

fn expr_text(e: &Expr) -> String {
    let mut s = String::new();
    if e.negated {
        s.push('!');
    }
    s.push_str(&path_text(&e.root, &e.steps));
    if let Some((eq, t)) = &e.compare {
        s.push_str(if *eq { " == " } else { " != " });
        match t {
            Term::Path(root, steps) => s.push_str(&path_text(root, steps)),
            Term::Text(x) => s.push_str(&format!("{:?}", x)),
            Term::Int(i) => s.push_str(&i.to_string()),
            Term::Bool(b) => s.push_str(&b.to_string()),
        }
    }
    s
}

fn describe(segs: &[Segment]) -> Vec<String> {
    segs.iter()
        .map(|s| match s {
            Segment::Literal(t) => format!("L:{}", t),
            Segment::Expr(e) => format!("E:{}", expr_text(e)),
        })
        .collect()
}

#[test]
fn test_trivial_expr() {
    let segments = parse_inline("{{ foo }}").expect("parse_inline");
    assert_eq!(describe(segments.children()), vec!["E:foo"]);
}

#[test]
fn test_trivial_literal() {
    let segments = parse_inline("Hi!").expect("parse_inline");
    let expected = vec!["L:Hi!"];
    assert_eq!(describe(segments.children()), expected);
}

#[test]
fn test_mixed_1() {
    let segments = parse_inline("A {{ foo }}").expect("parse_inline");
    assert_eq!(describe(segments.children()), vec!["L:A ", "E:foo"]);
}

#[test]
fn test_mixed_2() {
    let segments = parse_inline("I {{ verb }} with {{ noun }}.").expect("parse_inline");
    assert_eq!(
        describe(segments.children()),
        vec!["L:I ", "E:verb", "L: with ", "E:noun", "L:."]
    );
}

#[test]
fn scan_literal_expression_literal_in_order() {
    let segments = parse_inline("A{{x}}B").expect("parse_inline");
    assert_eq!(describe(segments.children()), vec!["L:A", "E:x", "L:B"]);
}

#[test]
fn scan_without_braces_is_one_literal() {
    let segments = parse_inline("plain } text { here").expect("parse_inline");
    assert_eq!(describe(segments.children()), vec!["L:plain } text { here"]);
}

#[test]
fn scan_empty_string_has_no_segments() {
    let segments = parse_inline("").expect("parse_inline");
    assert!(segments.children().is_empty());
}

#[test]
fn scan_unclosed_placeholder_is_literal() {
    let segments = parse_inline("a {{ b").expect("parse_inline");
    assert_eq!(describe(segments.children()), vec!["L:a {{ b"]);
}

#[test]
fn scan_adjacent_placeholders_have_no_empty_literal() {
    let segments = parse_inline("{{a}}{{ b.c }}").expect("parse_inline");
    assert_eq!(describe(segments.children()), vec!["E:a", "E:b.c"]);
}

#[test]
fn scan_placeholder_ends_at_first_closing_braces() {
    let segments = parse_inline("{{ a }}}").expect("parse_inline");
    assert_eq!(describe(segments.children()), vec!["E:a", "L:}"]);
}

#[test]
fn scan_reads_paths_calls_and_negation() {
    let segments = parse_inline("{{ !self.items.0.is_empty() }}").expect("parse_inline");
    assert_eq!(describe(segments.children()), vec!["E:!self.items.0.is_empty()"]);
}

#[test]
fn scan_rejects_invalid_expression() {
    assert!(parse_inline("x {{ a b }} y").is_err());
    assert!(parse_inline("{{ }}").is_err());
    assert!(parse_inline("{{ a..b }}").is_err());
    assert!(parse_inline("{{ 0x }}").is_err());
}

#[test]
fn scan_reads_comparisons() {
    let segments = parse_inline("{{ self.kind == \"admin\" }}{{a!=b.c}}{{ x == 12 }}{{ y != false }}")
        .expect("parse_inline");
    assert_eq!(
        describe(segments.children()),
        vec!["E:self.kind == \"admin\"", "E:a != b.c", "E:x == 12", "E:y != false"]
    );
}

#[test]
fn scan_rejects_invalid_comparisons() {
    assert!(parse_inline("{{ !a == b }}").is_err());
    assert!(parse_inline("{{ a == }}").is_err());
    assert!(parse_inline("{{ a == \"x\"y\" }}").is_err());
    assert!(parse_inline("{{ a == 99999999999999999999 }}").is_err());
    assert!(parse_inline("{{ \"x\" == a }}").is_err());
}
