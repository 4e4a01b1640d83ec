use weft::erased::{render_fn, ErasedRenderable};
use weft::renderable::{render_to_string, render_writer, WeftRenderable};
use weft::target::{ByteSink, HtmlBuffer, HtmlWriter, IoError, Markup, QName, RenderError, RenderTarget};
use weft::compile::compile_template;
use weft::plan::{Node, SourceAttr};
use weft::renderable::Bound;
use weft::value::Value;

struct VecSink<'a>(&'a mut Vec<u8>);

impl<'a> ByteSink for VecSink<'a> {
    fn write_str(&mut self, s: &str) -> Result<(), IoError> {
        self.0.extend_from_slice(s.as_bytes());
        Ok(())
    }
}

struct FailingSink;

impl ByteSink for FailingSink {
    fn write_str(&mut self, _s: &str) -> Result<(), IoError> {
        Err(IoError { message: "closed".to_string() })
    }
}

#[test]
fn canary_should_render_trivial_example() {
    struct TrivialExample;
    impl WeftRenderable for TrivialExample {
        fn render_to<T: RenderTarget>(&self, target: &mut T) -> Result<(), RenderError> {
            target.start_element_attrs(&QName::new("p"), &[])?;
            target.text("Hello")?;
            target.end_element(&QName::new("p"))?;
            Ok(())
        }
    }

    let mut out = Vec::new();
    {
        let mut writer = HtmlWriter::new(VecSink(&mut out));
        render_writer(TrivialExample, &mut writer).expect("render_writer");
    }
    let s = String::from_utf8_lossy(&out);
    let expected = "<p>Hello</p>";
    assert!(s.contains(expected), "String {:?} contains {:?}", s, expected);
}

#[test]
fn writer_reports_sink_failure() {
    let mut writer = HtmlWriter::new(FailingSink);
    let r = render_writer("Hello".to_string(), &mut writer);
    assert!(matches!(r, Err(RenderError::Io(_))));
}

#[test]
fn writer_streams_exact_markup() {
    let mut out = Vec::new();
    {
        let mut writer = HtmlWriter::new(VecSink(&mut out));
        render_writer(Some("a<b".to_string()), &mut writer).expect("render_writer");
    }
    assert_eq!(String::from_utf8_lossy(&out), "a&lt;b");
}

fn assert_renderable(_: impl WeftRenderable) {}

#[test]
fn from_fn_should_be_renderable() {
    let child = render_fn(|| Value::Null);
    assert_renderable(&child);
    assert_eq!(render_to_string(&child).expect("render"), "");
}

#[test]
fn should_support_fn_content() {
    let child = render_fn(|| Value::Text("Hello from a function".to_string()));
    let outer = content_template();
    let view = Bound::new(&outer, with_child(Value::Markup(Markup::of(&child).expect("render child"))));
    let s = render_to_string(view).expect("render_to_string");
    println!("{}", s);

    let expected = "Hello from a function";
    assert!(s.contains(expected), "String {:?} should contain {:?}", s, expected)
}

fn render_boxed(child: &dyn ErasedRenderable) -> String {
    let mut buf = HtmlBuffer::new();
    buf.start_element_attrs(&QName::new("p"), &[]).expect("start");
    child.erased_render_to(&mut buf).expect("render");
    buf.end_element(&QName::new("p")).expect("end");
    buf.into_string()
}

#[test]
fn erased_should_support_boxed_content() {
    let child: Box<dyn ErasedRenderable> = Box::new("Hello".to_string());
    let s = render_boxed(child.as_ref());
    println!("{}", s);

    let expected = "<p>Hello</p>";
    assert!(s.contains(expected), "String {:?} contains {:?}", s, expected)
}

#[test]
fn canary_should_support_boxed_content() {
    let children: Vec<Box<dyn ErasedRenderable>> =
        vec![Box::new("Hello".to_string()), Box::new(Value::Int(3)), Box::new(Some("!".to_string()))];
    let mut buf = HtmlBuffer::new();
    for c in &children {
        c.erased_render_to(&mut buf).expect("render");
    }
    let outer = content_template();
    let view = Bound::new(&outer, with_child(Value::Markup(Markup::from_buffer(buf))));
    let s = render_to_string(view).expect("render_to_string");
    println!("{}", s);

    let expected = "<p>Hello3!</p>";
    assert!(s.contains(expected), "String {:?} contains {:?}", s, expected)
}

#[test]
fn buffer_can_be_cleared_and_reused() {
    let mut buf = HtmlBuffer::new();
    buf.text("first").expect("text");
    buf.clear();
    buf.text("a<b").expect("text");
    assert_eq!(buf.as_str(), "a&lt;b");
}

#[test]
fn optional_value_renders_nothing_when_absent() {
    let none: Option<String> = None;
    assert_eq!(render_to_string(none).expect("render"), "");
    assert_eq!(render_to_string(Some("x&y".to_string())).expect("render"), "x&amp;y");
}

#[test]
fn escaping_covers_every_special_character() {
    let s = render_to_string("<a href='/x'>\"&\"</a>".to_string()).expect("render");
    assert_eq!(s, "&lt;a href=&#x27;&#x2f;x&#x27;&gt;&quot;&amp;&quot;&lt;&#x2f;a&gt;");
}

#[test]
fn record_value_cannot_be_rendered_as_markup() {
    let v = Value::Record(vec!["a".to_string()], vec![Value::Null]);
    assert!(matches!(render_to_string(v), Err(RenderError::Evaluation)));
}

fn content_template() -> weft::compile::Template {
    let p = Node::Element {
        name: "p".to_string(),
        attrs: vec![SourceAttr { name: "weft-content".to_string(), value: "self.child".to_string() }],
        children: vec![],
    };
    compile_template(&Node::Document(vec![p])).expect("compile")
}

fn with_child(child: Value) -> Value {
    Value::Record(vec!["child".to_string()], vec![child])
}

#[test]
fn template_slot_holds_sub_template() {
    let inner = compile_template(&Node::Document(vec![Node::Element {
        name: "b".to_string(),
        attrs: vec![],
        children: vec![Node::Text("{{ self.x }}".to_string())],
    }]))
    .expect("compile");
    let child = Markup::of(&Bound::new(&inner, Value::Record(vec!["x".to_string()], vec![Value::Text("<1>".to_string())])))
        .expect("render child");
    let outer = content_template();
    let s = render_to_string(Bound::new(&outer, with_child(Value::Markup(child)))).expect("render");
    assert_eq!(s, "<p><b>&lt;1&gt;</b></p>");
}

#[test]
fn template_slot_holds_boxed_and_fn_content() {
    let boxed: Box<dyn ErasedRenderable> = Box::new("Hello".to_string());
    let mut buf = HtmlBuffer::new();
    boxed.erased_render_to(&mut buf).expect("render");
    let outer = content_template();
    let s = render_to_string(Bound::new(&outer, with_child(Value::Markup(Markup::from_buffer(buf))))).expect("render");
    assert_eq!(s, "<p>Hello</p>");

    let f = render_fn(|| Value::Text("Hello from a function".to_string()));
    let m = Markup::of(&f).expect("render");
    let s = render_to_string(Bound::new(&outer, with_child(Value::Markup(m)))).expect("render");
    assert!(s.contains("<p>Hello from a function</p>"), "{:?}", s);
}

#[test]
fn string_sink_receives_exact_markup() {
    let mut writer = HtmlWriter::new(String::new());
    render_writer(Some("x&y".to_string()), &mut writer).expect("render_writer");
    assert_eq!(writer.into_inner(), "x&amp;y");
}

struct FailAfter {
    left: usize,
    got: String,
}

impl ByteSink for FailAfter {
    fn write_str(&mut self, s: &str) -> Result<(), IoError> {
        if self.left == 0 {
            return Err(IoError { message: "full".to_string() });
        }
        self.left -= 1;
        self.got.push_str(s);
        Ok(())
    }
}

#[test]
fn sink_failure_stops_render_and_keeps_prefix() {
    let t = compile_template(&Node::Document(vec![Node::Element {
        name: "p".to_string(),
        attrs: vec![],
        children: vec![Node::Text("a".to_string()), Node::Text("b".to_string())],
    }]))
    .expect("compile");
    let mut writer = HtmlWriter::new(FailAfter { left: 2, got: String::new() });
    let r = render_writer(Bound::new(&t, Value::Null), &mut writer);
    match r {
        Err(RenderError::Io(e)) => assert_eq!(e.message, "full"),
        other => panic!("unexpected {:?}", other),
    }
    assert_eq!(writer.into_inner().got, "<p>a");
}
