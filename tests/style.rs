use icedmenu::config::{ConfigEntry, ConfigError, ConfigNode, ConfigValue, Span};
use icedmenu::layout::style::{
    parse_styles, Alignment, GenericStyle, Horizontal, Length, Number, Rgba, State, StyleAttribute, Vertical,
};
use icedmenu::{Reflective, UpdateFromOther};

fn span(offset: usize) -> Span {
    Span { offset, len: 1 }
}

fn attr(name: &str, value: ConfigValue, at: usize) -> ConfigNode {
    ConfigNode {
        name: String::from(name),
        name_span: span(at),
        span: span(at + 1),
        entries: vec![ConfigEntry { name: None, value, span: span(at + 2) }],
        children: vec![],
    }
}

fn rule(selector: &str, attrs: Vec<ConfigNode>, at: usize) -> ConfigNode {
    ConfigNode {
        name: String::from(selector),
        name_span: span(at),
        span: span(at + 1),
        entries: vec![],
        children: attrs,
    }
}

fn styles(rules: Vec<ConfigNode>) -> ConfigNode {
    rule("Styles", rules, 0)
}

fn integer(v: i64) -> ConfigValue {
    ConfigValue::Integer(v)
}

fn text(v: &str) -> ConfigValue {
    ConfigValue::String(String::from(v))
}

fn names(v: &[&str]) -> Vec<String> {
    v.iter().map(|s| String::from(*s)).collect()
}

#[test]
fn last_class_wins_the_cascade() {
    let lookup = parse_styles(&styles(vec![
        rule("Row", vec![attr("padding", integer(1), 10)], 1),
        rule("c1", vec![attr("padding", integer(2), 20)], 2),
        rule("c2", vec![attr("padding", integer(3), 30)], 3),
    ]))
    .ok()
    .unwrap();
    let s = lookup.style_for(&names(&["c1", "c2"]), "Row", State::Default);
    assert_eq!(s.padding, Some(3));
    let s = lookup.style_for(&names(&["c2", "c1"]), "Row", State::Default);
    assert_eq!(s.padding, Some(2));
    let s = lookup.style_for(&names(&[]), "Row", State::Default);
    assert_eq!(s.padding, Some(1));
}

#[test]
fn merge_never_clears_earlier_values() {
    let lookup = parse_styles(&styles(vec![
        rule("Row", vec![attr("spacing", integer(4), 10)], 1),
        rule("c1", vec![attr("padding", integer(2), 20)], 2),
        rule("c2", vec![attr("margin", integer(3), 30)], 3),
    ]))
    .ok()
    .unwrap();
    let s = lookup.style_for(&names(&["c1", "c2", "unknown"]), "Row", State::Default);
    assert_eq!(s.spacing, Some(4));
    assert_eq!(s.padding, Some(2));
    assert_eq!(s.margin, Some(3));
    assert_eq!(s.font_size, None);
}

#[test]
fn state_rules_use_the_suffixed_selector() {
    let lookup = parse_styles(&styles(vec![
        rule("Query", vec![attr("padding", integer(1), 10)], 1),
        rule("Query:focused", vec![attr("padding", integer(9), 20)], 2),
    ]))
    .ok()
    .unwrap();
    assert_eq!(lookup.style_for(&names(&[]), "Query", State::Default).padding, Some(1));
    assert_eq!(lookup.style_for(&names(&[]), "Query", State::Focused).padding, Some(9));
    assert_eq!(lookup.style_for(&names(&[]), "Query", State::Hovered).padding, None);
    assert_eq!(State::Hovered.style_suffix(), ":hovered");
    assert_eq!(State::Default.style_suffix(), "");
}

#[test]
fn repeated_blocks_accumulate() {
    let lookup = parse_styles(&styles(vec![
        rule("Row", vec![attr("padding", integer(1), 10), attr("margin", integer(5), 13)], 1),
        rule("Row", vec![attr("padding", integer(7), 20)], 2),
    ]))
    .ok()
    .unwrap();
    assert_eq!(lookup.styles.len(), 1);
    let s = lookup.style_for(&names(&[]), "Row", State::Default);
    assert_eq!(s.padding, Some(7));
    assert_eq!(s.margin, Some(5));
}

#[test]
fn attribute_values_are_typed() {
    let lookup = parse_styles(&styles(vec![rule(
        "Text",
        vec![
            attr("width", text("fill"), 10),
            attr("height", integer(30), 13),
            attr("max_width", ConfigValue::Float(2.5f64.to_bits()), 16),
            attr("horizontal_alignment", text("right"), 19),
            attr("vertical_alignment", text("bottom"), 22),
            attr("align_items", text("start"), 25),
            attr("text_color", text("#ff0000"), 28),
            attr("background", text("rgba(0, 0, 255, 0)"), 31),
            attr("font", text("Fira Sans"), 34),
        ],
        1,
    )]))
    .ok()
    .unwrap();
    let s = lookup.style_for(&names(&[]), "Text", State::Default);
    assert_eq!(s.width, Some(Length::Fill));
    assert_eq!(s.height, Some(Length::Fixed(Number::Integer(30))));
    assert_eq!(s.max_width, Some(Number::Float(2.5f64.to_bits())));
    assert_eq!(s.horizontal_alignment, Some(Horizontal::Right));
    assert_eq!(s.vertical_alignment, Some(Vertical::Bottom));
    assert_eq!(s.align_items, Some(Alignment::Start));
    assert_eq!(s.text_color, Some(Rgba { r: 255, g: 0, b: 0, a: 255 }));
    assert_eq!(s.background, Some(Rgba { r: 0, g: 0, b: 255, a: 0 }));
    assert_eq!(s.font, Some(0));
    assert_eq!(lookup.fonts.len(), 1);
    assert_eq!(lookup.fonts[0].family, "Fira Sans");
    assert_eq!(lookup.fonts[0].value_src, span(36));
}

#[test]
fn named_colors_parse() {
    let lookup = parse_styles(&styles(vec![rule("Row", vec![attr("border_color", text("rebeccapurple"), 10)], 1)]))
        .ok()
        .unwrap();
    let s = lookup.style_for(&names(&[]), "Row", State::Default);
    assert_eq!(s.border_color, Some(Rgba { r: 102, g: 51, b: 153, a: 255 }));
}

fn first_error(rules: Vec<ConfigNode>) -> ConfigError {
    match parse_styles(&styles(rules)) {
        Err(e) => e,
        Ok(_) => panic!("expected an error"),
    }
}

#[test]
fn invalid_values_are_reported() {
    let bad = |name: &str, value: ConfigValue, attribute: StyleAttribute| {
        let e = first_error(vec![rule("Row", vec![attr(name, value, 10)], 1)]);
        assert_eq!(e, ConfigError::InvalidValue { attr_src: span(10), value_src: span(12), attribute });
    };
    bad("padding", integer(-1), StyleAttribute::Padding);
    bad("padding", integer(65536), StyleAttribute::Padding);
    bad("margin", text("3"), StyleAttribute::Margin);
    bad("font_size", text("big"), StyleAttribute::FontSize);
    bad("width", text("wide"), StyleAttribute::Width);
    bad("horizontal_alignment", text("top"), StyleAttribute::HorizontalAlignment);
    bad("vertical_alignment", text("left"), StyleAttribute::VerticalAlignment);
    bad("align_items", text("top"), StyleAttribute::AlignItems);
    bad("text_color", text("not a color"), StyleAttribute::TextColor);
    bad("font", integer(3), StyleAttribute::Font);
    let ok = parse_styles(&styles(vec![rule("Row", vec![attr("padding", integer(65535), 10)], 1)])).ok().unwrap();
    assert_eq!(ok.style_for(&names(&[]), "Row", State::Default).padding, Some(65535));
}

#[test]
fn unknown_attribute_is_reported() {
    let e = first_error(vec![rule("Row", vec![attr("colour", text("red"), 10)], 1)]);
    assert_eq!(e, ConfigError::InvalidStyleAttribute { attr_src: span(11) });
}

#[test]
fn empty_style_block_is_reported() {
    let e = first_error(vec![rule("Row", vec![attr("padding", integer(1), 10)], 1), rule("c1", vec![], 5)]);
    assert_eq!(e, ConfigError::EmptyStyle { attr_src: span(6) });
}

#[test]
fn attribute_without_value_is_reported() {
    let mut a = attr("padding", integer(1), 10);
    a.entries.clear();
    let e = first_error(vec![rule("Row", vec![a], 1)]);
    assert_eq!(e, ConfigError::MissingArgument { node_src: span(11) });
}

#[test]
fn update_from_overrides_only_set_fields() {
    let mut a = GenericStyle::empty();
    a.padding = Some(1);
    a.margin = Some(2);
    let mut b = GenericStyle::default();
    b.margin = Some(5);
    a.update_from(&b);
    assert_eq!(a.padding, Some(1));
    assert_eq!(a.margin, Some(5));
}

#[test]
fn style_attribute_names_are_listed() {
    let names = GenericStyle::reflect_attr_names();
    assert_eq!(names.len(), 20);
    assert_eq!(names[0], "padding");
    assert!(names.contains(&"match_text_color"));
    for n in names {
        assert!(StyleAttribute::named(n).is_some());
    }
}

#[test]
fn unknown_attribute_without_value_is_reported_as_unknown() {
    let mut a = attr("bogus", integer(1), 10);
    a.entries.clear();
    let e = first_error(vec![rule("Row", vec![a], 1)]);
    assert_eq!(e, ConfigError::InvalidStyleAttribute { attr_src: span(11) });
}
