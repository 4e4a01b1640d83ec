use regex::Regex;
use weft::compile::compile_template;
use weft::plan::{Node, SourceAttr};
use weft::renderable::{render_to_string, Bound};
use weft::value::Value;

fn el(name: &str, attrs: &[(&str, &str)], children: Vec<Node>) -> Node {
    Node::Element {
        name: name.to_string(),
        attrs: attrs
            .iter()
            .map(|(n, v)| SourceAttr { name: n.to_string(), value: v.to_string() })
            .collect(),
        children,
    }
}

fn text(s: &str) -> Node {
    Node::Text(s.to_string())
}

fn doc(children: Vec<Node>) -> Node {
    Node::Document(children)
}

fn record(fields: Vec<(&str, Value)>) -> Value {
    let (names, values): (Vec<String>, Vec<Value>) =
        fields.into_iter().map(|(n, v)| (n.to_string(), v)).unzip();
    Value::Record(names, values)
}

fn txt(s: &str) -> Value {
    Value::Text(s.to_string())
}

fn render(root: Node, data: Value) -> String {
    let template = compile_template(&root).expect("compile");
    render_to_string(Bound::new(&template, data)).expect("render_to_string")
}

#[test]
fn should_derive_trivial_from_markup() {
    let s = render(doc(vec![el("div", &[], vec![text("Trivial")])]), Value::Null);
    println!("{}", s);

    let expected = "<div>Trivial</div>";
    assert!(s.contains(expected), "String {:?} contains {:?}", s, expected)
}

#[test]
fn should_allow_inline_source() {
    let s = render(doc(vec![text("I am inline")]), Value::Null);
    println!("{}", s);

    let expected = "I am inline";
    assert!(s.contains(expected), "String {:?} should contain {:?}", s, expected)
}

#[test]
fn should_render_entire_document() {
    let root = el(
        "html",
        &[],
        vec![el("head", &[], vec![el("title", &[], vec![text("hi")])])],
    );
    let s = render(doc(vec![root]), Value::Null);
    println!("{}", s);

    let expected = "<title>hi</";
    assert!(s.contains(expected), "String {:?} contains {:?}", s, expected)
}

#[test]
fn can_render_portion_of_document() {
    // The selected root `<p id='hi'>` inside `<div id='spam'>`: only its content is rendered.
    let root = el("p", &[("id", "hi")], vec![text("hi")]);
    let s = render(root, Value::Null);
    println!("{}", s);

    let unexpected = "<div ";
    assert!(!s.contains(unexpected), "String {:?} should not contain {:?}", s, unexpected);
    assert_eq!(s, "hi");
}

#[test]
fn should_pass_through_attributes() {
    let s = render(doc(vec![el("div", &[("class", "foo")], vec![text("Trivial")])]), Value::Null);
    println!("{}", s);

    let matcher = Regex::new("class=[\"']foo[\"']").expect("Regex::new");
    assert!(matcher.find(&s).is_some(), "String {:?} matches {:?}", s, matcher)
}

#[test]
fn should_support_replace_directive() {
    let root = doc(vec![el(
        "p",
        &[],
        vec![text("My name is "), el("span", &[("weft-replace", "self.name")], vec![text("Name")])],
    )]);
    let s = render(root, record(vec![("name", txt("Bob"))]));
    println!("{}", s);

    let expected = "My name is Bob";
    assert!(s.contains(expected), "String {:?} contains {:?}", s, expected)
}

fn content_template() -> Node {
    doc(vec![el("p", &[("weft-content", "self.child")], vec![text("Placeholder")])])
}

#[test]
fn should_support_content() {
    let s = render(content_template(), record(vec![("child", txt("Hello"))]));
    println!("{}", s);

    let expected = "<p>Hello</p>";
    assert!(s.contains(expected), "String {:?} contains {:?}", s, expected)
}

fn conditional_template() -> Node {
    doc(vec![el("p", &[("weft-if", "self.enabled")], vec![text("I am enabled")])])
}

#[test]
fn should_strip_when_conditional_false() {
    let s = render(conditional_template(), record(vec![("enabled", Value::Bool(false))]));
    println!("{}", s);

    let unexpected = "I am enabled";
    assert!(!s.contains(unexpected), "String {:?} should not contain {:?}", s, unexpected)
}

#[test]
fn should_include_when_conditional_true() {
    let s = render(conditional_template(), record(vec![("enabled", Value::Bool(true))]));
    println!("{}", s);

    let expected = "I am enabled";
    assert!(s.contains(expected), "String {:?} should contain {:?}", s, expected)
}

fn for_in_template() -> Node {
    doc(vec![el("p", &[("weft-for", "item in self.items"), ("weft-content", "item")], vec![])])
}

fn items(xs: &[&str]) -> Value {
    Value::List(xs.iter().map(|x| txt(x)).collect())
}

#[test]
fn should_support_iteration() {
    let s = render(for_in_template(), record(vec![("items", items(&["one", "two", "three"]))]));
    println!("{}", s);

    let expected = ["<p>one</p>", "<p>two</p>", "<p>three</p>"];
    assert!(
        expected.iter().all(|it| s.contains(it)),
        "String {:?} should contain all of {:?}",
        s,
        expected
    )
}

#[test]
fn iteration_keeps_order_and_count() {
    let s = render(for_in_template(), record(vec![("items", items(&["one", "two", "three"]))]));
    assert_eq!(s, "<p>one</p><p>two</p><p>three</p>");
}

#[test]
fn iteration_over_empty_list_renders_nothing() {
    let s = render(for_in_template(), record(vec![("items", items(&[]))]));
    assert_eq!(s, "");
}

#[test]
fn should_support_polymorphism() {
    let s = render(content_template(), record(vec![("child", txt("hello"))]));
    println!("{}", s);

    let expected = "<p>hello</p>";
    assert!(s.contains(expected), "String {:?} should contain {:?}", s, expected)
}

#[test]
fn content_may_be_a_list_of_mixed_values() {
    let child = Value::List(vec![txt("a"), Value::Int(-7), Value::Bool(true), Value::Null]);
    let s = render(content_template(), record(vec![("child", child)]));
    assert_eq!(s, "<p>a-7true</p>");
}

#[test]
fn should_support_bare_attributes() {
    let s = render(doc(vec![el("p", &[("some-thing", "")], vec![])]), Value::Null);
    println!("{}", s);

    let expected = " some-thing=";
    assert!(s.contains(expected), "String {:?} should contain {:?}", s, expected)
}

#[test]
fn should_support_inline_expr_in_cdata() {
    let root = doc(vec![el("p", &[], vec![text("Hello {{ self.0 }}!")])]);
    let s = render(root, record(vec![("0", txt("world"))]));
    println!("{}", s);

    let expected = "<p>Hello world!</p>";
    assert!(s.contains(expected), "String {:?} should contain {:?}", s, expected)
}

#[test]
fn should_support_inline_expr_in_attrs() {
    let root = doc(vec![el("span", &[("abbr", "{{self.0}}")], vec![text("Longer thing")])]);
    let s = render(root, record(vec![("0", txt("Long"))]));
    println!("{}", s);

    let expected = "<span abbr=\"Long\">";
    assert!(s.contains(expected), "String {:?} should contain {:?}", s, expected)
}

#[test]
fn should_correctly_parse_inline_with_entities() {
    // The markup parser decodes `&#123;&#123; self.0 &#125;&#125;` into braces.
    let root = doc(vec![el("p", &[], vec![text("Hello {{ self.0 }}!")])]);
    let s = render(root, record(vec![("0", txt("world"))]));
    println!("{}", s);

    let expected = "<p>Hello world!</p>";
    assert!(s.contains(expected), "String {:?} should contain {:?}", s, expected)
}

#[test]
fn should_import_displayable() {
    let root = doc(vec![el("p", &[], vec![text("{{ self.0.display() }}")])]);
    let s = render(root, record(vec![("0", Value::Int(42))]));
    println!("{}", s);

    let expected = ">42<";
    assert!(s.contains(expected), "String {:?} should contain {:?}", s, expected)
}

#[test]
fn should_correctly_escape_content_in_text() {
    let s = render(content_template(), record(vec![("child", txt("<script src=\"xss.js\"/>"))]));
    println!("{}", s);

    let unwanted = "<script";
    assert!(!s.contains(unwanted), "String {:?} does not contain {:?}", s, unwanted)
}

#[test]
fn should_correctly_escape_content_in_attrs() {
    let root = doc(vec![el("p", &[("class", "{{self.0}}")], vec![])]);
    let s = render(root, record(vec![("0", txt("\"><script src=\"xss.js\"/>"))]));
    println!("{}", s);

    let unwanted = "class=\"\"><script ";
    assert!(!s.contains(unwanted), "String {:?} should not contain {:?}", s, unwanted);
}

#[test]
fn hello_name_scenario() {
    let root = doc(vec![el("p", &[], vec![text("Hello {{ name }}!")])]);
    let s = render(root, record(vec![("name", txt("Bob"))]));
    assert!(s.contains("<p>Hello Bob!</p>"), "{:?}", s);
}

#[test]
fn loop_binding_shadows_data_field() {
    let root = doc(vec![el("i", &[("weft-for", "name in self.names")], vec![text("{{ name }}")])]);
    let s = render(root, record(vec![("name", txt("Outer")), ("names", items(&["x", "y"]))]));
    assert_eq!(s, "<i>x</i><i>y</i>");
}

#[test]
fn unbound_name_fails_to_render() {
    let t = compile_template(&doc(vec![text("{{ name }}")])).expect("compile");
    assert!(render_to_string(Bound::new(&t, Value::Null)).is_err());
}

#[test]
fn false_condition_with_loop_renders_nothing() {
    let root = doc(vec![el(
        "li",
        &[("weft-for", "x in self.xs"), ("weft-if", "self.show"), ("weft-content", "x")],
        vec![],
    )]);
    let data = record(vec![("show", Value::Bool(false)), ("xs", items(&["a", "b"]))]);
    assert_eq!(render(root, data), "");
}

#[test]
fn false_condition_skips_loop_that_would_fail() {
    let root = doc(vec![el("li", &[("weft-if", "self.show"), ("weft-for", "x in self.missing")], vec![])]);
    let data = record(vec![("show", Value::Bool(false))]);
    assert_eq!(render(root, data), "");
}

#[test]
fn true_condition_with_loop_renders_each_item() {
    let root = doc(vec![el(
        "li",
        &[("weft-if", "!self.hide"), ("weft-for", "x in self.xs"), ("weft-content", "x")],
        vec![],
    )]);
    let data = record(vec![("hide", Value::Bool(false)), ("xs", items(&["a", "b"]))]);
    assert_eq!(render(root, data), "<li>a</li><li>b</li>");
}

#[test]
fn attribute_quote_is_escaped() {
    let root = doc(vec![el("p", &[("class", "{{cls}}")], vec![])]);
    let s = render(root, record(vec![("cls", txt("a\"b"))]));
    assert_eq!(s, "<p class=\"a&quot;b\"></p>");
}

#[test]
fn bound_template_renders_through_a_reference() {
    let t = compile_template(&doc(vec![text("{{ self.x }}")])).expect("compile");
    let b = Bound::new(&t, record(vec![("x", Value::Int(5))]));
    assert_eq!(render_to_string(&b).expect("render"), "5");
    assert_eq!(render_to_string(&b).expect("render"), "5");
}

#[test]
fn plain_template_renders_as_written() {
    let root = doc(vec![
        el("ul", &[("id", "x"), ("class", "a b")], vec![el("li", &[], vec![text("one & two")])]),
        Node::Comment,
        text("tail"),
    ]);
    assert_eq!(render(root, Value::Null), "<ul id=\"x\" class=\"a b\"><li>one &amp; two</li></ul>tail");
}

#[test]
fn comments_and_doctypes_render_nothing() {
    let root = doc(vec![Node::Doctype, Node::Comment, Node::ProcessingInstruction, Node::DocumentFragment]);
    assert_eq!(render(root, Value::Null), "");
}

#[test]
fn replace_wins_over_content_and_children() {
    let root = doc(vec![el(
        "p",
        &[("weft-content", "self.b"), ("weft-replace", "self.a")],
        vec![text("kids")],
    )]);
    assert_eq!(render(root, record(vec![("a", txt("A")), ("b", txt("B"))])), "A");
}

#[test]
fn repeated_directive_takes_last_value() {
    let root = doc(vec![el(
        "p",
        &[("weft-content", "self.a"), ("weft-content", "self.b")],
        vec![],
    )]);
    assert_eq!(render(root, record(vec![("a", txt("A")), ("b", txt("B"))])), "<p>B</p>");
}

#[test]
fn malformed_directive_fails_compilation_with_context() {
    let root = doc(vec![el("p", &[("weft-if", "not an expr")], vec![])]);
    let err = compile_template(&root).expect_err("compile should fail");
    assert_eq!(err.element, "p");
    assert_eq!(err.attribute, "weft-if");
    let root = doc(vec![el("p", &[("weft-for", "x of self.xs")], vec![])]);
    assert!(compile_template(&root).is_err());
    let root = doc(vec![el("p", &[], vec![text("{{ 1a }}")])]);
    assert!(compile_template(&root).is_err());
}

#[test]
fn evaluation_errors_fail_the_render() {
    let t = compile_template(&doc(vec![text("{{ self.missing }}")])).expect("compile");
    assert!(render_to_string(Bound::new(&t, record(vec![]))).is_err());
    let t = compile_template(&doc(vec![el("p", &[("weft-if", "self.n")], vec![])])).expect("compile");
    assert!(render_to_string(Bound::new(&t, record(vec![("n", Value::Int(1))]))).is_err());
}

#[test]
fn list_methods_and_indexing() {
    let t = compile_template(&doc(vec![text("{{ self.xs.len() }}:{{ self.xs.1 }}:{{ self.xs.is_empty() }}")]))
        .expect("compile");
    let s = render_to_string(Bound::new(&t, record(vec![("xs", items(&["a", "b"]))]))).expect("render");
    assert_eq!(s, "2:b:false");
    let t = compile_template(&doc(vec![text("{{ self.xs.5 }}")])).expect("compile");
    assert!(render_to_string(Bound::new(&t, record(vec![("xs", items(&["a"]))]))).is_err());
}

#[test]
fn comparisons_drive_conditions() {
    let root = doc(vec![
        el("b", &[("weft-if", "self.role == \"admin\"")], vec![text("admin")]),
        el("i", &[("weft-if", "self.count != 0")], vec![text("some")]),
        el("u", &[("weft-if", "self.role == self.other")], vec![text("same")]),
    ]);
    let data = record(vec![("role", txt("admin")), ("count", Value::Int(0)), ("other", txt("admin"))]);
    assert_eq!(render(root, data), "<b>admin</b><u>same</u>");
}

#[test]
fn comparison_of_list_fails_to_render() {
    let t = compile_template(&doc(vec![text("{{ self.xs == 1 }}")])).expect("compile");
    assert!(render_to_string(Bound::new(&t, record(vec![("xs", items(&["a"]))]))).is_err());
    let t = compile_template(&doc(vec![text("{{ self.n == 1 }}|{{ self.n == true }}")])).expect("compile");
    let s = render_to_string(Bound::new(&t, record(vec![("n", Value::Int(1))]))).expect("render");
    assert_eq!(s, "true|false");
}

#[test]
fn compile_error_names_first_failing_site() {
    let root = doc(vec![el(
        "div",
        &[],
        vec![
            el("p", &[("class", "ok"), ("title", "{{ a b }}"), ("weft-if", "bad expr")], vec![]),
            text("{{ also bad }}"),
        ],
    )]);
    let err = compile_template(&root).expect_err("compile should fail");
    assert_eq!((err.element.as_str(), err.attribute.as_str()), ("p", "title"));
    assert_eq!(err.cause.text, "{{ a b }}");
    let err = compile_template(&doc(vec![text("x {{ 1a }}")])).expect_err("compile should fail");
    assert_eq!((err.element.as_str(), err.attribute.as_str()), ("", ""));
    assert_eq!(err.cause.text, "x {{ 1a }}");
}
