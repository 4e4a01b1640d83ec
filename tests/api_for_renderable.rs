use regex::Regex;
use weft::renderable::{render_to_string, Displayable, WeftRenderable};
use weft::response::WeftResponse;
use weft::target::{AttrPair, QName, RenderError, RenderTarget};
use weft::value::Value;

#[test]
fn api_for_renderable_should_render_trivial_example() {
    struct TrivialExample;
    impl WeftRenderable for TrivialExample {
        fn render_to<T: RenderTarget>(&self, target: &mut T) -> Result<(), RenderError> {
            target.start_element_attrs(&QName::new("p"), &[])?;
            target.text("Hello")?;
            target.end_element(&QName::new("p"))?;
            Ok(())
        }
    }

    let s = render_to_string(TrivialExample).expect("render_to_string");
    let expected = "<p>Hello</p>";
    assert!(s.contains(expected), "String {:?} contains {:?}", s, expected);
}

#[test]
fn should_render_attrs() {
    struct TrivialExample;
    impl WeftRenderable for TrivialExample {
        fn render_to<T: RenderTarget>(&self, target: &mut T) -> Result<(), RenderError> {
            let attrs = [AttrPair::new(QName::new("class"), "some-classes".to_string())];
            target.start_element_attrs(&QName::new("p"), &attrs)?;
            target.text("Hello")?;
            target.end_element(&QName::new("p"))?;
            Ok(())
        }
    }

    let s = render_to_string(TrivialExample).expect("render_to_string");

    let matcher = Regex::new("\\s+class=[\"']some-classes[\"']").expect("Regex::new");
    assert!(matcher.find(&s).is_some(), "String {:?} matches {:?}", s, matcher)
}

#[test]
fn render_supports_builtins() {
    struct TrivialExample;
    impl WeftRenderable for TrivialExample {
        fn render_to<T: RenderTarget>(&self, target: &mut T) -> Result<(), RenderError> {
            "Hello world!".render_to(target)?;
            Ok(())
        }
    }

    let s = render_to_string(TrivialExample).expect("render_to_string");
    let expected = "Hello world!";
    assert!(s.contains(expected), "String {:?} contains {:?}", s, expected);
}

#[test]
fn display_supports_renderable() {
    struct Shown(i64);
    impl WeftRenderable for Shown {
        fn render_to<T: RenderTarget>(&self, target: &mut T) -> Result<(), RenderError> {
            self.0.display().render_to(target)?;
            Ok(())
        }
    }

    let s = render_to_string(Shown(42)).expect("render_to_string");
    let expected = "42";
    assert_eq!(s, expected);
}

#[test]
fn display_supports_to_string() {
    struct Shown(u32);
    impl WeftRenderable for Shown {
        fn render_to<T: RenderTarget>(&self, target: &mut T) -> Result<(), RenderError> {
            let attrs = [AttrPair::new(QName::new("x"), self.0.display().to_string())];
            target.start_element_attrs(&QName::new("p"), &attrs)?;
            Ok(())
        }
    }

    let s = render_to_string(Shown(23)).expect("render_to_string");
    let expected = "=\"23\"";
    assert!(s.contains(expected), "String {:?} contains {:?}", s, expected);
}

#[test]
fn display_of_negative_and_bool() {
    assert_eq!((-1205i64).display().to_string(), "-1205");
    assert_eq!(i64::MIN.display().to_string(), "-9223372036854775808");
    assert_eq!(true.display().to_string(), "true");
    assert_eq!("a<b".to_string().display().to_string(), "a<b");
    assert_eq!(render_to_string("a<b".to_string().display()).expect("render"), "a&lt;b");
}

#[test]
fn response_body_is_rendered_html() {
    let r = WeftResponse::of(Value::Text("<hi>".to_string()));
    assert_eq!(r.content_type(), "text/html; charset=utf-8");
    assert_eq!(r.body().expect("body"), "&lt;hi&gt;");
}
