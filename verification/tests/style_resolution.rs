//! End-to-end tests for selector matching, specificity, rule resolution,
//! and style tree construction.

use cascade::css::{lex_ge, Color, Declaration, Rule, Selector, SimpleSelector, Stylesheet, Unit,
    Value};
use cascade::dom::{ElementData, Node, NodeType};
use cascade::matching::matches_simple_selector;
use cascade::resolve::{match_rule, specified_values, PropertyMap};
use cascade::style::{style_tree, StyledNode};

fn elem(tag: &str, attrs: &[(&str, &str)]) -> ElementData {
    ElementData {
        tag_name: tag.to_string(),
        attributes: attrs
            .iter()
            .map(|(k, v)| (k.to_string(), v.to_string()))
            .collect(),
    }
}

fn simple(tag: Option<&str>, id: Option<&str>, classes: &[&str]) -> SimpleSelector {
    SimpleSelector {
        tag_name: tag.map(|t| t.to_string()),
        id: id.map(|i| i.to_string()),
        class: classes.iter().map(|c| c.to_string()).collect(),
    }
}

fn selector(tag: Option<&str>, id: Option<&str>, classes: &[&str]) -> Selector {
    Selector::Simple(simple(tag, id, classes))
}

fn keyword(word: &str) -> Value {
    Value::Keyword(word.to_string())
}

fn rule(selectors: Vec<Selector>, decls: &[(&str, Value)]) -> Rule {
    Rule {
        selectors,
        declarations: decls
            .iter()
            .map(|(name, value)| Declaration {
                name: name.to_string(),
                value: value.clone(),
            })
            .collect(),
    }
}

fn element_node(tag: &str, attrs: &[(&str, &str)], children: Vec<Node>) -> Node {
    Node {
        children,
        node_type: NodeType::Element(elem(tag, attrs)),
    }
}

fn text_node(text: &str) -> Node {
    Node {
        children: Vec::new(),
        node_type: NodeType::Text(text.to_string()),
    }
}

#[test]
fn empty_selector_matches_everything() {
    let e = elem("div", &[("id", "main"), ("class", "box")]);
    let s = simple(None, None, &[]);
    assert!(matches_simple_selector(&e, &s));
    let plain = elem("p", &[]);
    assert!(matches_simple_selector(&plain, &s));
}

#[test]
fn tag_mismatch_never_matches() {
    let e = elem("div", &[("id", "main"), ("class", "box")]);
    assert!(!cascade::matching::matches(&e, &selector(Some("span"), None, &[])));
    assert!(!cascade::matching::matches(&e, &selector(Some("span"), Some("main"), &["box"])));
    assert!(cascade::matching::matches(&e, &selector(Some("div"), None, &[])));
}

#[test]
fn id_constraint_fails_without_id_attribute() {
    let e = elem("div", &[("class", "box")]);
    assert!(!cascade::matching::matches(&e, &selector(None, Some("main"), &[])));
    assert!(!cascade::matching::matches(&e, &selector(Some("div"), Some("main"), &["box"])));
}

#[test]
fn id_constraint_compares_exactly() {
    let e = elem("div", &[("id", "main")]);
    assert!(cascade::matching::matches(&e, &selector(None, Some("main"), &[])));
    assert!(!cascade::matching::matches(&e, &selector(None, Some("other"), &[])));
}

#[test]
fn class_superset_passes_filter() {
    let e = elem("div", &[("class", "a b c")]);
    assert!(cascade::matching::matches(&e, &selector(None, None, &["a"])));
    assert!(cascade::matching::matches(&e, &selector(None, None, &["a", "c"])));
    assert!(cascade::matching::matches(&e, &selector(None, None, &["c", "b", "a"])));
    assert!(!cascade::matching::matches(&e, &selector(None, None, &["a", "d"])));
}

#[test]
fn element_without_class_attribute_has_empty_class_set() {
    let e = elem("div", &[]);
    assert!(e.classes().is_empty());
    assert!(!cascade::matching::matches(&e, &selector(None, None, &["a"])));
    assert!(cascade::matching::matches(&e, &selector(Some("div"), None, &[])));
}

#[test]
fn id_accessor_reads_id_attribute() {
    let e = elem("div", &[("class", "box"), ("id", "main")]);
    assert_eq!(e.id(), Some(&"main".to_string()));
    let bare = elem("div", &[]);
    assert_eq!(bare.id(), None);
}

#[test]
fn classes_accessor_splits_on_spaces() {
    let e = elem("div", &[("class", "a b")]);
    assert_eq!(e.classes(), vec!["a".to_string(), "b".to_string()]);
    let doubled = elem("div", &[("class", "a  b")]);
    assert_eq!(
        doubled.classes(),
        vec!["a".to_string(), "".to_string(), "b".to_string()]
    );
}

#[test]
fn specificity_counts_id_classes_tag() {
    assert_eq!(selector(None, Some("main"), &[]).specificity(), (1, 0, 0));
    assert_eq!(selector(None, None, &["a", "b"]).specificity(), (0, 2, 0));
    assert_eq!(selector(Some("div"), None, &[]).specificity(), (0, 0, 1));
    assert_eq!(
        selector(Some("div"), Some("main"), &["a", "b", "c"]).specificity(),
        (1, 3, 1)
    );
}

#[test]
fn id_outranks_any_class_count() {
    let with_id = selector(None, Some("main"), &[]).specificity();
    let many_classes = selector(Some("div"), None, &["a", "b", "c", "d"]).specificity();
    assert!(lex_ge(with_id, many_classes));
    assert!(!lex_ge(many_classes, with_id));
}

#[test]
fn more_classes_outrank_fewer_without_id() {
    let two = selector(None, None, &["a", "b"]).specificity();
    let one = selector(Some("div"), None, &["a"]).specificity();
    assert!(lex_ge(two, one));
    assert!(!lex_ge(one, two));
}

#[test]
fn match_rule_takes_highest_matching_specificity() {
    let e = elem("div", &[("id", "main"), ("class", "box")]);
    let r = rule(
        vec![
            selector(Some("div"), None, &[]),
            selector(None, Some("main"), &[]),
        ],
        &[("color", keyword("green"))],
    );
    assert_eq!(match_rule(&e, &r), Some((1, 0, 0)));
    let miss = rule(vec![selector(Some("span"), None, &[])], &[]);
    assert_eq!(match_rule(&e, &miss), None);
}

#[test]
fn property_map_insert_overwrites() {
    let mut m = PropertyMap::new();
    assert_eq!(m.get("color"), None);
    m.insert("color".to_string(), keyword("red"));
    assert_eq!(m.get("color"), Some(&keyword("red")));
    m.insert("color".to_string(), keyword("blue"));
    assert_eq!(m.get("color"), Some(&keyword("blue")));
    assert_eq!(m.get("margin"), None);
}

#[test]
fn id_specificity_dominates_resolution() {
    // div#main.box with div { black }, #main { red }, .box { blue }:
    // the id rule wins although the class rule comes later.
    let e = elem("div", &[("id", "main"), ("class", "box")]);
    let sheet = Stylesheet {
        rules: vec![
            rule(vec![selector(Some("div"), None, &[])], &[("color", keyword("black"))]),
            rule(vec![selector(None, Some("main"), &[])], &[("color", keyword("red"))]),
            rule(vec![selector(None, None, &["box"])], &[("color", keyword("blue"))]),
        ],
    };
    let values = specified_values(&e, &sheet);
    assert_eq!(values.get("color"), Some(&keyword("red")));
}

#[test]
fn equal_specificity_later_rule_wins() {
    // .a { green } then .b { yellow } on an element of both classes:
    // both have specificity (0,1,0); the later rule wins.
    let e = elem("p", &[("class", "a b")]);
    let sheet = Stylesheet {
        rules: vec![
            rule(vec![selector(None, None, &["a"])], &[("color", keyword("green"))]),
            rule(vec![selector(None, None, &["b"])], &[("color", keyword("yellow"))]),
        ],
    };
    let values = specified_values(&e, &sheet);
    assert_eq!(values.get("color"), Some(&keyword("yellow")));
}

#[test]
fn later_declaration_wins_within_a_rule() {
    let e = elem("div", &[]);
    let sheet = Stylesheet {
        rules: vec![rule(
            vec![selector(Some("div"), None, &[])],
            &[("color", keyword("black")), ("color", keyword("white"))],
        )],
    };
    let values = specified_values(&e, &sheet);
    assert_eq!(values.get("color"), Some(&keyword("white")));
}

#[test]
fn unmatched_element_gets_empty_map() {
    let e = elem("em", &[]);
    let sheet = Stylesheet {
        rules: vec![rule(vec![selector(Some("div"), None, &[])], &[("color", keyword("red"))])],
    };
    let values = specified_values(&e, &sheet);
    assert_eq!(values.get("color"), None);
}

#[test]
fn length_and_color_values_resolve() {
    let e = elem("div", &[]);
    let sheet = Stylesheet {
        rules: vec![rule(
            vec![selector(Some("div"), None, &[])],
            &[
                ("margin", Value::Length(4, Unit::Px)),
                ("background", Value::ColorValue(Color { r: 0, g: 0, b: 0, a: 255 })),
            ],
        )],
    };
    let values = specified_values(&e, &sheet);
    assert_eq!(values.get("margin"), Some(&Value::Length(4, Unit::Px)));
    assert_eq!(
        values.get("background"),
        Some(&Value::ColorValue(Color { r: 0, g: 0, b: 0, a: 255 }))
    );
}

#[test]
fn properties_from_distinct_rules_accumulate() {
    let e = elem("div", &[("class", "box")]);
    let sheet = Stylesheet {
        rules: vec![
            rule(vec![selector(Some("div"), None, &[])], &[("display", keyword("block"))]),
            rule(vec![selector(None, None, &["box"])], &[("color", keyword("blue"))]),
        ],
    };
    let values = specified_values(&e, &sheet);
    assert_eq!(values.get("display"), Some(&keyword("block")));
    assert_eq!(values.get("color"), Some(&keyword("blue")));
}

fn count_styled_nodes(sn: &StyledNode) -> usize {
    1 + sn.children.iter().map(count_styled_nodes).sum::<usize>()
}

fn count_document_nodes(n: &Node) -> usize {
    1 + n.children.iter().map(count_document_nodes).sum::<usize>()
}

#[test]
fn style_tree_mirrors_document_shape() {
    let root = element_node(
        "div",
        &[("id", "main")],
        vec![
            element_node("span", &[], vec![text_node("hello")]),
            text_node("world"),
            element_node("p", &[("class", "a")], vec![]),
        ],
    );
    let sheet = Stylesheet { rules: vec![] };
    let styled = style_tree(&root, &sheet);
    assert_eq!(count_styled_nodes(&styled), count_document_nodes(&root));
    assert_eq!(styled.children.len(), 3);
    assert_eq!(styled.children[0].children.len(), 1);
    assert_eq!(styled.children[1].children.len(), 0);
    assert!(std::ptr::eq(styled.node, &root));
    assert!(std::ptr::eq(styled.children[2].node, &root.children[2]));
}

#[test]
fn text_nodes_get_empty_maps() {
    let root = element_node("div", &[], vec![text_node("hello")]);
    let sheet = Stylesheet {
        rules: vec![rule(vec![selector(None, None, &[])], &[("color", keyword("red"))])],
    };
    let styled = style_tree(&root, &sheet);
    assert_eq!(styled.specified_values.get("color"), Some(&keyword("red")));
    assert_eq!(styled.children[0].specified_values.get("color"), None);
}

fn same_property(a: &StyledNode, b: &StyledNode, name: &str) -> bool {
    a.specified_values.get(name) == b.specified_values.get(name)
        && a.children.len() == b.children.len()
        && a.children
            .iter()
            .zip(b.children.iter())
            .all(|(ca, cb)| same_property(ca, cb, name))
}

#[test]
fn rebuilding_gives_identical_styles() {
    let root = element_node(
        "div",
        &[("id", "main"), ("class", "box")],
        vec![
            element_node("span", &[("class", "a b")], vec![]),
            element_node("p", &[], vec![text_node("t")]),
        ],
    );
    let sheet = Stylesheet {
        rules: vec![
            rule(vec![selector(Some("span"), None, &[])], &[("color", keyword("green"))]),
            rule(vec![selector(None, Some("main"), &[])], &[("color", keyword("red"))]),
            rule(vec![selector(None, None, &["a"])], &[("margin", Value::Length(2, Unit::Px))]),
        ],
    };
    let first = style_tree(&root, &sheet);
    let second = style_tree(&root, &sheet);
    assert!(same_property(&first, &second, "color"));
    assert!(same_property(&first, &second, "margin"));
    assert!(same_property(&first, &second, "display"));
}
