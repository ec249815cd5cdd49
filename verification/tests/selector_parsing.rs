//! Tests for the simple-selector parser.

use cascade::css::SimpleSelector;
use cascade::css_parser::Parser;
use cascade::dom::ElementData;
use cascade::matching::matches_simple_selector;

fn parse(text: &str) -> (SimpleSelector, usize) {
    let mut p = Parser::new(text.to_string());
    let sel = p.parse_simple_selector();
    (sel, p.pos)
}

#[test]
fn parses_tag_name() {
    let (sel, pos) = parse("div");
    assert_eq!(sel.tag_name, Some("div".to_string()));
    assert_eq!(sel.id, None);
    assert!(sel.class.is_empty());
    assert_eq!(pos, 3);
}

#[test]
fn parses_id() {
    let (sel, pos) = parse("#main");
    assert_eq!(sel.tag_name, None);
    assert_eq!(sel.id, Some("main".to_string()));
    assert!(sel.class.is_empty());
    assert_eq!(pos, 5);
}

#[test]
fn parses_classes_in_order() {
    let (sel, _) = parse(".a.b");
    assert_eq!(sel.tag_name, None);
    assert_eq!(sel.id, None);
    assert_eq!(sel.class, vec!["a".to_string(), "b".to_string()]);
}

#[test]
fn parses_tag_id_and_classes_together() {
    let (sel, _) = parse("div#main.box.wide");
    assert_eq!(sel.tag_name, Some("div".to_string()));
    assert_eq!(sel.id, Some("main".to_string()));
    assert_eq!(sel.class, vec!["box".to_string(), "wide".to_string()]);
}

#[test]
fn universal_selector_constrains_nothing() {
    let (sel, pos) = parse("*");
    assert_eq!(sel.tag_name, None);
    assert_eq!(sel.id, None);
    assert!(sel.class.is_empty());
    assert_eq!(pos, 1);
}

#[test]
fn stops_at_first_foreign_character() {
    let (sel, pos) = parse("div.box, p");
    assert_eq!(sel.tag_name, Some("div".to_string()));
    assert_eq!(sel.class, vec!["box".to_string()]);
    assert_eq!(pos, 7);
}

#[test]
fn identifiers_may_hold_dash_underscore_digits() {
    let (sel, _) = parse("h1.top-bar._x");
    assert_eq!(sel.tag_name, Some("h1".to_string()));
    assert_eq!(sel.class, vec!["top-bar".to_string(), "_x".to_string()]);
}

#[test]
fn parsed_selector_matches_element() {
    let (sel, _) = parse("div#main.box");
    let e = ElementData {
        tag_name: "div".to_string(),
        attributes: vec![
            ("id".to_string(), "main".to_string()),
            ("class".to_string(), "box wide".to_string()),
        ],
    };
    assert!(matches_simple_selector(&e, &sel));
    let other = ElementData {
        tag_name: "span".to_string(),
        attributes: vec![],
    };
    assert!(!matches_simple_selector(&other, &sel));
}
