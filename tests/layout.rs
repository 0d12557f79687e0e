use icedmenu::config::{ChildrenProblem, ConfigEntry, ConfigError, ConfigNode, ConfigValue, NodeKind, Span};
use icedmenu::layout::style::{parse_styles, StyleLookup};
use icedmenu::layout::LayoutNode;
use icedmenu::Reflective;

fn span(offset: usize) -> Span {
    Span { offset, len: 1 }
}

fn node(name: &str, at: usize, children: Vec<ConfigNode>) -> ConfigNode {
    ConfigNode {
        name: String::from(name),
        name_span: span(at),
        span: span(at + 1),
        entries: vec![],
        children,
    }
}

fn text_node(value: ConfigValue, at: usize) -> ConfigNode {
    let mut n = node("Text", at, vec![]);
    n.entries.push(ConfigEntry { name: Some(String::from("value")), value, span: span(at + 2) });
    n
}

fn no_styles() -> StyleLookup {
    parse_styles(&node("Styles", 0, vec![])).ok().unwrap()
}

fn build(n: &ConfigNode) -> Result<LayoutNode, ConfigError> {
    LayoutNode::new(n, &no_styles())
}

#[test]
fn items_under_container_is_rejected() {
    let tree = node("Container", 10, vec![node("Items", 20, vec![node("Row", 30, vec![node("ItemKey", 40, vec![])])])]);
    let e = build(&tree).err().unwrap();
    assert_eq!(
        e,
        ConfigError::InvalidChildren {
            parent_src: span(11),
            problem: ChildrenProblem::ItemsParent { parent: Some(NodeKind::Container) },
        }
    );
}

#[test]
fn items_under_row_builds() {
    let tree = node(
        "Layout",
        1,
        vec![node(
            "Column",
            5,
            vec![
                node("Query", 8, vec![]),
                node("Items", 20, vec![node("Row", 30, vec![node("ItemKey", 40, vec![])])]),
            ],
        )],
    );
    let built = build(&tree).ok().unwrap();
    match built {
        LayoutNode::Container(c) => match *c.child {
            LayoutNode::Column(col) => {
                assert_eq!(col.children.len(), 2);
                assert!(matches!(col.children[0], LayoutNode::Query(_)));
                assert!(matches!(col.children[1], LayoutNode::Items(_)));
            },
            _ => panic!("expected a column"),
        },
        _ => panic!("expected a container"),
    }
}

#[test]
fn styles_are_attached_per_state() {
    let rules = node(
        "Styles",
        0,
        vec![
            rule_with("Items", "padding", 2),
            rule_with("Items:hovered", "margin", 3),
            rule_with("big", "padding", 9),
        ],
    );
    let lookup = parse_styles(&rules).ok().unwrap();
    let mut items = node("Items", 20, vec![node("Row", 30, vec![])]);
    items.entries.push(ConfigEntry { name: None, value: ConfigValue::String(String::from("big")), span: span(21) });
    let tree = node("Row", 10, vec![items]);
    match LayoutNode::new(&tree, &lookup).ok().unwrap() {
        LayoutNode::Row(r) => match &r.children[0] {
            LayoutNode::Items(d) => {
                assert_eq!(d.style.padding, Some(9));
                assert_eq!(d.style.margin, None);
                assert_eq!(d.hovered_style.padding, Some(9));
                assert_eq!(d.hovered_style.margin, Some(3));
                assert_eq!(d.pressed_style, d.style);
            },
            _ => panic!("expected items"),
        },
        _ => panic!("expected a row"),
    }
}

fn rule_with(selector: &str, attribute: &str, v: i64) -> ConfigNode {
    let mut a = node(attribute, 50, vec![]);
    a.entries.push(ConfigEntry { name: None, value: ConfigValue::Integer(v), span: span(52) });
    node(selector, 45, vec![a])
}

#[test]
fn container_needs_exactly_one_child() {
    let tree = node("Container", 10, vec![node("Query", 20, vec![]), node("Query", 30, vec![])]);
    assert_eq!(
        build(&tree).err().unwrap(),
        ConfigError::InvalidChildren {
            parent_src: span(11),
            problem: ChildrenProblem::WrongCount { kind: NodeKind::Container, expected: 1, found: 2 },
        }
    );
}

#[test]
fn items_child_must_be_a_container_kind() {
    let tree = node("Row", 5, vec![node("Items", 10, vec![node("ItemKey", 20, vec![])])]);
    assert_eq!(
        build(&tree).err().unwrap(),
        ConfigError::InvalidChildren { parent_src: span(11), problem: ChildrenProblem::ItemsChild }
    );
}

#[test]
fn query_takes_no_children() {
    let tree = node("Query", 10, vec![node("Text", 20, vec![])]);
    let e = build(&tree).err().unwrap();
    assert_eq!(e, ConfigError::MissingArgument { node_src: span(21) });
    let tree = node("Query", 10, vec![text_node(ConfigValue::String(String::from("hi")), 20)]);
    assert_eq!(
        build(&tree).err().unwrap(),
        ConfigError::InvalidChildren {
            parent_src: span(11),
            problem: ChildrenProblem::WrongCount { kind: NodeKind::Query, expected: 0, found: 1 },
        }
    );
}

#[test]
fn text_needs_a_string_value() {
    let built = build(&text_node(ConfigValue::String(String::from("Search")), 10)).ok().unwrap();
    match built {
        LayoutNode::Text(t) => assert_eq!(t.value, "Search"),
        _ => panic!("expected text"),
    }
    assert_eq!(
        build(&text_node(ConfigValue::Integer(3), 10)).err().unwrap(),
        ConfigError::InvalidArgument { arg_src: span(12) }
    );
    assert_eq!(build(&node("Text", 10, vec![])).err().unwrap(), ConfigError::MissingArgument { node_src: span(11) });
}

#[test]
fn unknown_node_kind_is_rejected() {
    assert_eq!(
        build(&node("Button", 10, vec![])).err().unwrap(),
        ConfigError::InvalidLayoutNode { node_src: span(10) }
    );
}

#[test]
fn first_error_in_children_wins() {
    let tree = node("Row", 1, vec![node("Bogus", 10, vec![]), node("Container", 20, vec![])]);
    assert_eq!(build(&tree).err().unwrap(), ConfigError::InvalidLayoutNode { node_src: span(10) });
}

#[test]
fn node_kinds_are_listed() {
    assert_eq!(LayoutNode::reflect_attr_names(), vec!["Container", "Row", "Column", "Query", "Items", "ItemKey", "Text"]);
}
