use weft::config::{single_root, TemplateArg, TemplateDerivation, TemplateError, TemplateSource};
use weft::plan::Node;

fn source(s: &str) -> TemplateArg {
    TemplateArg::Source(s.to_string())
}

fn path(s: &str) -> TemplateArg {
    TemplateArg::Path(s.to_string())
}

#[test]
fn can_parse_with_path() {
    let deriv = vec![vec![path("hello.html")]];
    let conf = TemplateDerivation::from_args(&deriv, "").expect("parse derive");
    assert_eq!(conf.template_source, TemplateSource::Path("hello.html".to_string()));
}

#[test]
fn can_parse_with_source() {
    let source_text = "<p>Stuff</p>";
    let deriv = vec![vec![source(source_text)]];
    let conf = TemplateDerivation::from_args(&deriv, "").expect("parse derive");
    assert_eq!(conf.template_source, TemplateSource::Source(source_text.into()));
}

#[test]
fn cannot_parse_with_neither_source_or_path() {
    let deriv: Vec<Vec<TemplateArg>> = vec![vec![]];
    let res = TemplateDerivation::from_args(&deriv, "");
    assert!(res.is_err(), "Template {:?} should not parse", deriv)
}

#[test]
fn cannot_parse_with_both_source_or_path() {
    let deriv = vec![vec![source("..."), path("...")]];
    let res = TemplateDerivation::from_args(&deriv, "");
    assert!(res.is_err(), "Template {:?} should not parse", deriv)
}

#[test]
fn cannot_parse_with_multiple_attributes() {
    let deriv = vec![vec![source("...")], vec![source("...")]];
    let res = TemplateDerivation::from_args(&deriv, "");
    assert!(res.is_err(), "Template {:?} should not parse", deriv)
}

#[test]
fn will_extract_selector() {
    let deriv = vec![vec![path("hello.html"), TemplateArg::Selector("#hello-world".to_string())]];
    let conf = TemplateDerivation::from_args(&deriv, "").expect("parse derive");
    assert_eq!(conf.selector, "#hello-world");
}

#[test]
fn selector_defaults_to_root() {
    let deriv = vec![vec![source("<p></p>")]];
    let conf = TemplateDerivation::from_args(&deriv, "").expect("parse derive");
    assert_eq!(conf.selector, ":root");
}

#[test]
fn path_is_resolved_against_root_dir() {
    let deriv = vec![vec![path("templates/a.html")]];
    let conf = TemplateDerivation::from_args(&deriv, "/srv/app").expect("parse derive");
    assert_eq!(conf.template_source, TemplateSource::Path("/srv/app/templates/a.html".to_string()));
    let conf = TemplateDerivation::from_args(&deriv, "/srv/app/").expect("parse derive");
    assert_eq!(conf.template_source, TemplateSource::Path("/srv/app/templates/a.html".to_string()));
    let abs = vec![vec![path("/etc/a.html")]];
    let conf = TemplateDerivation::from_args(&abs, "/srv/app").expect("parse derive");
    assert_eq!(conf.template_source, TemplateSource::Path("/etc/a.html".to_string()));
}

#[test]
fn declaration_errors_are_told_apart() {
    let none: Vec<Vec<TemplateArg>> = vec![];
    assert_eq!(TemplateDerivation::from_args(&none, "").err(), Some(TemplateError::MissingDeclaration));
    let two = vec![vec![source("a")], vec![source("b")]];
    assert_eq!(TemplateDerivation::from_args(&two, "").err(), Some(TemplateError::MultipleDeclarations));
    let both = vec![vec![source("a"), path("b")]];
    assert_eq!(TemplateDerivation::from_args(&both, "").err(), Some(TemplateError::SourceOrPath));
}

#[test]
fn repeated_argument_takes_last_value() {
    let deriv = vec![vec![source("first"), source("second")]];
    let conf = TemplateDerivation::from_args(&deriv, "").expect("parse derive");
    assert_eq!(conf.template_source, TemplateSource::Source("second".to_string()));
}

#[test]
fn multiple_root_matches_are_rejected() {
    let two = vec![Node::Text("foo".to_string()), Node::Text("bar".to_string())];
    assert_eq!(single_root(two).err(), Some(TemplateError::SelectorAmbiguity(2)));
    assert_eq!(single_root(vec![]).err(), Some(TemplateError::SelectorAmbiguity(0)));
    let one = vec![Node::Text("only".to_string())];
    assert!(matches!(single_root(one), Ok(Node::Text(ref t)) if t == "only"));
}

#[test]
fn argument_text_is_parsed() {
    assert_eq!(TemplateArg::parse("path = \"hello.html\""), Ok(TemplateArg::Path("hello.html".to_string())));
    assert_eq!(TemplateArg::parse("  source=\"<p>Stuff</p>\" "), Ok(source("<p>Stuff</p>")));
    assert_eq!(
        TemplateArg::parse("selector = \"#hello-world\""),
        Ok(TemplateArg::Selector("#hello-world".to_string()))
    );
    assert_eq!(TemplateArg::parse("source = \"\""), Ok(source("")));
}

#[test]
fn bad_argument_text_is_rejected() {
    for text in ["colour = \"red\"", "path \"x\"", "path = x", "path = \"a\"b\"", "path = \"", ""] {
        assert_eq!(
            TemplateArg::parse(text),
            Err(TemplateError::BadArgument(text.to_string())),
            "{:?}",
            text
        );
    }
}

#[test]
fn argument_value_escapes_are_decoded() {
    assert_eq!(
        TemplateArg::parse(r#"source = "<p class=\"x\">a\\b</p>""#),
        Ok(source("<p class=\"x\">a\\b</p>"))
    );
    assert_eq!(TemplateArg::parse(r#"source = "a\nb""#), Ok(source("a\nb")));
    assert!(TemplateArg::parse(r#"source = "a\qb""#).is_err());
    assert!(TemplateArg::parse(r#"source = "a\""#).is_err());
}
