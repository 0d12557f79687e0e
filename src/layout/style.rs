use crate::config::{same_text, first_argument, ConfigEntry, ConfigError, ConfigNode, ConfigValue, Span};
use crate::{Reflective, UpdateFromOther};
use vstd::prelude::*;
use vstd::string::*;

verus! {

/// The interaction states a style rule can be written for.
#[derive(Debug, Clone, Copy, PartialEq, Eq, Structural)]
pub enum State {
    Default,
    Hovered,
    Focused,
    Pressed,
    Selected,
}

/// The marker that a rule's selector carries for a state.
pub open spec fn suffix_of(state: State) -> Seq<char> {
    match state {
        State::Default => ""@,
        State::Hovered => ":hovered"@,
        State::Focused => ":focused"@,
        State::Pressed => ":pressed"@,
        State::Selected => ":selected"@,
    }
}

impl State {
    pub fn style_suffix(&self) -> (r: &'static str)
        ensures
            r@ == suffix_of(*self),
    {
        match self {
            Self::Default => "",
            Self::Hovered => ":hovered",
            Self::Focused => ":focused",
            Self::Pressed => ":pressed",
            Self::Selected => ":selected",
        }
    }
}

/// A numeric literal of the configuration: an integer, or a floating-point
/// number by the bits of its `f64`.
#[derive(Debug, Clone, Copy, PartialEq, Eq, Structural)]
pub enum Number {
    Integer(i64),
    Float(u64),
}

/// How a node sizes itself along one axis.
#[derive(Debug, Clone, Copy, PartialEq, Eq, Structural)]
pub enum Length {
    Fill,
    Shrink,
    Fixed(Number),
}

#[derive(Debug, Clone, Copy, PartialEq, Eq, Structural)]
pub enum Horizontal {
    Left,
    Right,
    Center,
}

#[derive(Debug, Clone, Copy, PartialEq, Eq, Structural)]
pub enum Vertical {
    Top,
    Bottom,
    Center,
}

#[derive(Debug, Clone, Copy, PartialEq, Eq, Structural)]
pub enum Alignment {
    Start,
    End,
    Center,
}

/// A color as red, green, blue and alpha bytes.
#[derive(Debug, Clone, Copy, PartialEq, Eq, Structural)]
pub struct Rgba {
    pub r: u8,
    pub g: u8,
    pub b: u8,
    pub a: u8,
}

/// A record of independently optional style attributes. `font` is the
/// position of the font's family name in the style table's font list.
#[derive(Debug, Clone, Copy, PartialEq, Eq, Structural)]
pub struct GenericStyle {
    pub padding: Option<u16>,
    pub margin: Option<u16>,
    pub spacing: Option<u16>,
    pub max_width: Option<Number>,
    pub max_height: Option<Number>,
    pub border_radius: Option<Number>,
    pub border_width: Option<Number>,
    pub font_size: Option<Number>,
    pub width: Option<Length>,
    pub height: Option<Length>,
    pub horizontal_alignment: Option<Horizontal>,
    pub vertical_alignment: Option<Vertical>,
    pub align_items: Option<Alignment>,
    pub border_color: Option<Rgba>,
    pub text_color: Option<Rgba>,
    pub match_text_color: Option<Rgba>,
    pub placeholder_color: Option<Rgba>,
    pub icon_color: Option<Rgba>,
    pub background: Option<Rgba>,
    pub font: Option<usize>,
}

/// The attributes a style rule can set.
#[derive(Debug, Clone, Copy, PartialEq, Eq, Structural)]
pub enum StyleAttribute {
    Padding,
    Margin,
    Spacing,
    MaxWidth,
    MaxHeight,
    BorderRadius,
    BorderWidth,
    FontSize,
    Width,
    Height,
    HorizontalAlignment,
    VerticalAlignment,
    AlignItems,
    BorderColor,
    TextColor,
    MatchTextColor,
    PlaceholderColor,
    IconColor,
    Background,
    Font,
}

/// The attribute written as `name`, if any.
pub open spec fn attribute_of(name: Seq<char>) -> Option<StyleAttribute> {
    if name == "padding"@ {
        Some(StyleAttribute::Padding)
    } else if name == "margin"@ {
        Some(StyleAttribute::Margin)
    } else if name == "spacing"@ {
        Some(StyleAttribute::Spacing)
    } else if name == "max_width"@ {
        Some(StyleAttribute::MaxWidth)
    } else if name == "max_height"@ {
        Some(StyleAttribute::MaxHeight)
    } else if name == "border_radius"@ {
        Some(StyleAttribute::BorderRadius)
    } else if name == "border_width"@ {
        Some(StyleAttribute::BorderWidth)
    } else if name == "font_size"@ {
        Some(StyleAttribute::FontSize)
    } else if name == "width"@ {
        Some(StyleAttribute::Width)
    } else if name == "height"@ {
        Some(StyleAttribute::Height)
    } else if name == "horizontal_alignment"@ {
        Some(StyleAttribute::HorizontalAlignment)
    } else if name == "vertical_alignment"@ {
        Some(StyleAttribute::VerticalAlignment)
    } else if name == "align_items"@ {
        Some(StyleAttribute::AlignItems)
    } else if name == "border_color"@ {
        Some(StyleAttribute::BorderColor)
    } else if name == "text_color"@ {
        Some(StyleAttribute::TextColor)
    } else if name == "match_text_color"@ {
        Some(StyleAttribute::MatchTextColor)
    } else if name == "placeholder_color"@ {
        Some(StyleAttribute::PlaceholderColor)
    } else if name == "icon_color"@ {
        Some(StyleAttribute::IconColor)
    } else if name == "background"@ {
        Some(StyleAttribute::Background)
    } else if name == "font"@ {
        Some(StyleAttribute::Font)
    } else {
        None
    }
}

/// The attribute names, in declaration order.
pub open spec fn attribute_names() -> Seq<Seq<char>> {
    seq!["padding"@, "margin"@, "spacing"@, "max_width"@, "max_height"@, "border_radius"@, "border_width"@, "font_size"@, "width"@, "height"@, "horizontal_alignment"@, "vertical_alignment"@, "align_items"@, "border_color"@, "text_color"@, "match_text_color"@, "placeholder_color"@, "icon_color"@, "background"@, "font"@]
}

impl StyleAttribute {
    /// The attribute written as `name`, if any.
    pub fn named(name: &str) -> (r: Option<StyleAttribute>)
        ensures
            r == attribute_of(name@),
    {
        if same_text(name, "padding") {
            Some(StyleAttribute::Padding)
        } else if same_text(name, "margin") {
            Some(StyleAttribute::Margin)
        } else if same_text(name, "spacing") {
            Some(StyleAttribute::Spacing)
        } else if same_text(name, "max_width") {
            Some(StyleAttribute::MaxWidth)
        } else if same_text(name, "max_height") {
            Some(StyleAttribute::MaxHeight)
        } else if same_text(name, "border_radius") {
            Some(StyleAttribute::BorderRadius)
        } else if same_text(name, "border_width") {
            Some(StyleAttribute::BorderWidth)
        } else if same_text(name, "font_size") {
            Some(StyleAttribute::FontSize)
        } else if same_text(name, "width") {
            Some(StyleAttribute::Width)
        } else if same_text(name, "height") {
            Some(StyleAttribute::Height)
        } else if same_text(name, "horizontal_alignment") {
            Some(StyleAttribute::HorizontalAlignment)
        } else if same_text(name, "vertical_alignment") {
            Some(StyleAttribute::VerticalAlignment)
        } else if same_text(name, "align_items") {
            Some(StyleAttribute::AlignItems)
        } else if same_text(name, "border_color") {
            Some(StyleAttribute::BorderColor)
        } else if same_text(name, "text_color") {
            Some(StyleAttribute::TextColor)
        } else if same_text(name, "match_text_color") {
            Some(StyleAttribute::MatchTextColor)
        } else if same_text(name, "placeholder_color") {
            Some(StyleAttribute::PlaceholderColor)
        } else if same_text(name, "icon_color") {
            Some(StyleAttribute::IconColor)
        } else if same_text(name, "background") {
            Some(StyleAttribute::Background)
        } else if same_text(name, "font") {
            Some(StyleAttribute::Font)
        } else {
            None
        }
    }
}

impl Reflective for GenericStyle {
    open spec fn attr_names() -> Seq<Seq<char>> {
        attribute_names()
    }

    fn reflect_attr_names() -> (r: Vec<&'static str>) {
        let r = vec!["padding", "margin", "spacing", "max_width", "max_height", "border_radius", "border_width", "font_size", "width", "height", "horizontal_alignment", "vertical_alignment", "align_items", "border_color", "text_color", "match_text_color", "placeholder_color", "icon_color", "background", "font"];
        assert(r@.map_values(|s: &'static str| s@) =~= attribute_names());
        r
    }
}

/// A parsed attribute value.
#[derive(Debug, Clone, Copy, PartialEq, Eq, Structural)]
pub enum AttrValue {
    Int(u16),
    Num(Number),
    Len(Length),
    Horizontal(Horizontal),
    Vertical(Vertical),
    Align(Alignment),
    Color(Rgba),
    Font(usize),
}

/// The color that csscolorparser reads from `s`, as bytes, if it reads one.
pub uninterp spec fn css_color_of(s: Seq<char>) -> Option<Rgba>;

/// Relies on csscolorparser's `parse` and `Color::to_rgba8`: whether `s` is a
/// CSS color, and which, depends on its characters alone.
#[verifier::external_body]
fn parse_css_color(s: &str) -> (r: Option<Rgba>)
    ensures
        r == css_color_of(s@),
{
    match csscolorparser::parse(s) {
        Ok(c) => {
            let [r, g, b, a] = c.to_rgba8();
            Some(Rgba { r, g, b, a })
        },
        Err(_) => None,
    }
}

pub open spec fn string_of(v: ConfigValue) -> Option<Seq<char>> {
    match v {
        ConfigValue::String(s) => Some(s@),
        _ => None,
    }
}

/// A whole number that fits in 16 bits.
pub open spec fn int_value(v: ConfigValue) -> Option<u16> {
    match v {
        ConfigValue::Integer(i) => if 0 <= i <= u16::MAX { Some(i as u16) } else { None },
        _ => None,
    }
}

/// Any numeric literal.
pub open spec fn number_value(v: ConfigValue) -> Option<Number> {
    match v {
        ConfigValue::Integer(i) => Some(Number::Integer(i)),
        ConfigValue::Float(b) => Some(Number::Float(b)),
        _ => None,
    }
}

/// `"fill"`, `"shrink"`, or a numeric literal for a fixed size.
pub open spec fn length_value(v: ConfigValue) -> Option<Length> {
    match v {
        ConfigValue::String(s) => if s@ == "fill"@ {
            Some(Length::Fill)
        } else if s@ == "shrink"@ {
            Some(Length::Shrink)
        } else {
            None
        },
        ConfigValue::Integer(i) => Some(Length::Fixed(Number::Integer(i))),
        ConfigValue::Float(b) => Some(Length::Fixed(Number::Float(b))),
        _ => None,
    }
}

pub open spec fn horizontal_of(s: Seq<char>) -> Option<Horizontal> {
    if s == "left"@ {
        Some(Horizontal::Left)
    } else if s == "right"@ {
        Some(Horizontal::Right)
    } else if s == "center"@ {
        Some(Horizontal::Center)
    } else {
        None
    }
}

pub open spec fn vertical_of(s: Seq<char>) -> Option<Vertical> {
    if s == "top"@ {
        Some(Vertical::Top)
    } else if s == "bottom"@ {
        Some(Vertical::Bottom)
    } else if s == "center"@ {
        Some(Vertical::Center)
    } else {
        None
    }
}

pub open spec fn alignment_of(s: Seq<char>) -> Option<Alignment> {
    if s == "start"@ {
        Some(Alignment::Start)
    } else if s == "end"@ {
        Some(Alignment::End)
    } else if s == "center"@ {
        Some(Alignment::Center)
    } else {
        None
    }
}

/// What `v` means as a value of `attribute`; a font becomes number `font_id`
/// of the font list.
pub open spec fn attr_value(attribute: StyleAttribute, v: ConfigValue, font_id: usize) -> Option<AttrValue> {
    match attribute {
        StyleAttribute::Padding | StyleAttribute::Margin | StyleAttribute::Spacing => match int_value(v) {
            Some(x) => Some(AttrValue::Int(x)),
            None => None,
        },
        StyleAttribute::MaxWidth | StyleAttribute::MaxHeight | StyleAttribute::BorderRadius
        | StyleAttribute::BorderWidth | StyleAttribute::FontSize => match number_value(v) {
            Some(x) => Some(AttrValue::Num(x)),
            None => None,
        },
        StyleAttribute::Width | StyleAttribute::Height => match length_value(v) {
            Some(x) => Some(AttrValue::Len(x)),
            None => None,
        },
        StyleAttribute::HorizontalAlignment => match string_of(v) {
            Some(s) => match horizontal_of(s) {
                Some(x) => Some(AttrValue::Horizontal(x)),
                None => None,
            },
            None => None,
        },
        StyleAttribute::VerticalAlignment => match string_of(v) {
            Some(s) => match vertical_of(s) {
                Some(x) => Some(AttrValue::Vertical(x)),
                None => None,
            },
            None => None,
        },
        StyleAttribute::AlignItems => match string_of(v) {
            Some(s) => match alignment_of(s) {
                Some(x) => Some(AttrValue::Align(x)),
                None => None,
            },
            None => None,
        },
        StyleAttribute::Font => match string_of(v) {
            Some(_) => Some(AttrValue::Font(font_id)),
            None => None,
        },
        _ => match string_of(v) {
            Some(s) => match css_color_of(s) {
                Some(c) => Some(AttrValue::Color(c)),
                None => None,
            },
            None => None,
        },
    }
}

/// `style` with `attribute` set to `value` (unchanged when they do not fit).
#[verifier::opaque]
pub open spec fn set_attr(style: GenericStyle, attribute: StyleAttribute, value: AttrValue) -> GenericStyle {
    match (attribute, value) {
        (StyleAttribute::Padding, AttrValue::Int(x)) => GenericStyle { padding: Some(x), ..style },
        (StyleAttribute::Margin, AttrValue::Int(x)) => GenericStyle { margin: Some(x), ..style },
        (StyleAttribute::Spacing, AttrValue::Int(x)) => GenericStyle { spacing: Some(x), ..style },
        (StyleAttribute::MaxWidth, AttrValue::Num(x)) => GenericStyle { max_width: Some(x), ..style },
        (StyleAttribute::MaxHeight, AttrValue::Num(x)) => GenericStyle { max_height: Some(x), ..style },
        (StyleAttribute::BorderRadius, AttrValue::Num(x)) => GenericStyle { border_radius: Some(x), ..style },
        (StyleAttribute::BorderWidth, AttrValue::Num(x)) => GenericStyle { border_width: Some(x), ..style },
        (StyleAttribute::FontSize, AttrValue::Num(x)) => GenericStyle { font_size: Some(x), ..style },
        (StyleAttribute::Width, AttrValue::Len(x)) => GenericStyle { width: Some(x), ..style },
        (StyleAttribute::Height, AttrValue::Len(x)) => GenericStyle { height: Some(x), ..style },
        (StyleAttribute::HorizontalAlignment, AttrValue::Horizontal(x)) => GenericStyle { horizontal_alignment: Some(x), ..style },
        (StyleAttribute::VerticalAlignment, AttrValue::Vertical(x)) => GenericStyle { vertical_alignment: Some(x), ..style },
        (StyleAttribute::AlignItems, AttrValue::Align(x)) => GenericStyle { align_items: Some(x), ..style },
        (StyleAttribute::BorderColor, AttrValue::Color(x)) => GenericStyle { border_color: Some(x), ..style },
        (StyleAttribute::TextColor, AttrValue::Color(x)) => GenericStyle { text_color: Some(x), ..style },
        (StyleAttribute::MatchTextColor, AttrValue::Color(x)) => GenericStyle { match_text_color: Some(x), ..style },
        (StyleAttribute::PlaceholderColor, AttrValue::Color(x)) => GenericStyle { placeholder_color: Some(x), ..style },
        (StyleAttribute::IconColor, AttrValue::Color(x)) => GenericStyle { icon_color: Some(x), ..style },
        (StyleAttribute::Background, AttrValue::Color(x)) => GenericStyle { background: Some(x), ..style },
        (StyleAttribute::Font, AttrValue::Font(x)) => GenericStyle { font: Some(x), ..style },
        _ => style,
    }
}

impl GenericStyle {
    pub fn set_attr(&mut self, attribute: StyleAttribute, value: AttrValue)
        ensures
            *final(self) == set_attr(*old(self), attribute, value),
    {
        reveal(set_attr);
        match (attribute, value) {
            (StyleAttribute::Padding, AttrValue::Int(x)) => {
                self.padding = Some(x);
            },
            (StyleAttribute::Margin, AttrValue::Int(x)) => {
                self.margin = Some(x);
            },
            (StyleAttribute::Spacing, AttrValue::Int(x)) => {
                self.spacing = Some(x);
            },
            (StyleAttribute::MaxWidth, AttrValue::Num(x)) => {
                self.max_width = Some(x);
            },
            (StyleAttribute::MaxHeight, AttrValue::Num(x)) => {
                self.max_height = Some(x);
            },
            (StyleAttribute::BorderRadius, AttrValue::Num(x)) => {
                self.border_radius = Some(x);
            },
            (StyleAttribute::BorderWidth, AttrValue::Num(x)) => {
                self.border_width = Some(x);
            },
            (StyleAttribute::FontSize, AttrValue::Num(x)) => {
                self.font_size = Some(x);
            },
            (StyleAttribute::Width, AttrValue::Len(x)) => {
                self.width = Some(x);
            },
            (StyleAttribute::Height, AttrValue::Len(x)) => {
                self.height = Some(x);
            },
            (StyleAttribute::HorizontalAlignment, AttrValue::Horizontal(x)) => {
                self.horizontal_alignment = Some(x);
            },
            (StyleAttribute::VerticalAlignment, AttrValue::Vertical(x)) => {
                self.vertical_alignment = Some(x);
            },
            (StyleAttribute::AlignItems, AttrValue::Align(x)) => {
                self.align_items = Some(x);
            },
            (StyleAttribute::BorderColor, AttrValue::Color(x)) => {
                self.border_color = Some(x);
            },
            (StyleAttribute::TextColor, AttrValue::Color(x)) => {
                self.text_color = Some(x);
            },
            (StyleAttribute::MatchTextColor, AttrValue::Color(x)) => {
                self.match_text_color = Some(x);
            },
            (StyleAttribute::PlaceholderColor, AttrValue::Color(x)) => {
                self.placeholder_color = Some(x);
            },
            (StyleAttribute::IconColor, AttrValue::Color(x)) => {
                self.icon_color = Some(x);
            },
            (StyleAttribute::Background, AttrValue::Color(x)) => {
                self.background = Some(x);
            },
            (StyleAttribute::Font, AttrValue::Font(x)) => {
                self.font = Some(x);
            },
            _ => {},
        }
    }
}

/// The error for a value that does not fit its attribute.
pub open spec fn invalid_value(attribute_definition: ConfigNode, value_definition: ConfigEntry, attribute: StyleAttribute) -> ConfigError {
    ConfigError::InvalidValue {
        attr_src: attribute_definition.name_span,
        value_src: value_definition.span,
        attribute,
    }
}

fn invalid(attribute_definition: &ConfigNode, value_definition: &ConfigEntry, attribute: StyleAttribute) -> (r: ConfigError)
    ensures
        r == invalid_value(*attribute_definition, *value_definition, attribute),
{
    ConfigError::InvalidValue {
        attr_src: attribute_definition.name_span,
        value_src: value_definition.span,
        attribute,
    }
}

/// A whole number that fits in 16 bits.
pub fn int_attr(attribute_definition: &ConfigNode, value_definition: &ConfigEntry, attribute: StyleAttribute) -> (r: Result<u16, ConfigError>)
    ensures
        r == match int_value(value_definition.value) {
            Some(x) => Ok(x),
            None => Err(invalid_value(*attribute_definition, *value_definition, attribute)),
        },
{
    match &value_definition.value {
        ConfigValue::Integer(v) => {
            if 0 <= *v && *v <= 65535 {
                Ok(*v as u16)
            } else {
                Err(invalid(attribute_definition, value_definition, attribute))
            }
        },
        _ => Err(invalid(attribute_definition, value_definition, attribute)),
    }
}

/// Any numeric literal.
pub fn float_attr(attribute_definition: &ConfigNode, value_definition: &ConfigEntry, attribute: StyleAttribute) -> (r: Result<Number, ConfigError>)
    ensures
        r == match number_value(value_definition.value) {
            Some(x) => Ok(x),
            None => Err(invalid_value(*attribute_definition, *value_definition, attribute)),
        },
{
    match &value_definition.value {
        ConfigValue::Integer(v) => Ok(Number::Integer(*v)),
        ConfigValue::Float(b) => Ok(Number::Float(*b)),
        _ => Err(invalid(attribute_definition, value_definition, attribute)),
    }
}

/// `"fill"`, `"shrink"`, or a numeric literal for a fixed size.
pub fn length_attr(attribute_definition: &ConfigNode, value_definition: &ConfigEntry, attribute: StyleAttribute) -> (r: Result<Length, ConfigError>)
    ensures
        r == match length_value(value_definition.value) {
            Some(x) => Ok(x),
            None => Err(invalid_value(*attribute_definition, *value_definition, attribute)),
        },
{
    match &value_definition.value {
        ConfigValue::String(v) => {
            if same_text(v.as_str(), "fill") {
                Ok(Length::Fill)
            } else if same_text(v.as_str(), "shrink") {
                Ok(Length::Shrink)
            } else {
                Err(invalid(attribute_definition, value_definition, attribute))
            }
        },
        ConfigValue::Integer(v) => Ok(Length::Fixed(Number::Integer(*v))),
        ConfigValue::Float(b) => Ok(Length::Fixed(Number::Float(*b))),
        _ => Err(invalid(attribute_definition, value_definition, attribute)),
    }
}

/// The text of a string value.
pub fn string_value<'a>(attribute_definition: &ConfigNode, value_definition: &'a ConfigEntry, attribute: StyleAttribute) -> (r: Result<&'a str, ConfigError>)
    ensures
        match string_of(value_definition.value) {
            Some(s) => r matches Ok(t) && t@ == s,
            None => r == Err::<&str, ConfigError>(invalid_value(*attribute_definition, *value_definition, attribute)),
        },
{
    match &value_definition.value {
        ConfigValue::String(v) => Ok(v.as_str()),
        _ => Err(invalid(attribute_definition, value_definition, attribute)),
    }
}

/// A string holding a CSS color expression.
pub fn color_attr(attribute_definition: &ConfigNode, value_definition: &ConfigEntry, attribute: StyleAttribute) -> (r: Result<Rgba, ConfigError>)
    ensures
        r == match string_of(value_definition.value) {
            Some(s) => match css_color_of(s) {
                Some(c) => Ok(c),
                None => Err(invalid_value(*attribute_definition, *value_definition, attribute)),
            },
            None => Err(invalid_value(*attribute_definition, *value_definition, attribute)),
        },
{
    let color_str = string_value(attribute_definition, value_definition, attribute)?;
    match parse_css_color(color_str) {
        Some(c) => Ok(c),
        None => Err(invalid(attribute_definition, value_definition, attribute)),
    }
}

fn horizontal_attr(attribute_definition: &ConfigNode, value_definition: &ConfigEntry) -> (r: Result<Horizontal, ConfigError>)
    ensures
        r == match string_of(value_definition.value) {
            Some(s) => match horizontal_of(s) {
                Some(x) => Ok(x),
                None => Err(invalid_value(*attribute_definition, *value_definition, StyleAttribute::HorizontalAlignment)),
            },
            None => Err(invalid_value(*attribute_definition, *value_definition, StyleAttribute::HorizontalAlignment)),
        },
{
    let s = string_value(attribute_definition, value_definition, StyleAttribute::HorizontalAlignment)?;
    if same_text(s, "left") {
        Ok(Horizontal::Left)
    } else if same_text(s, "right") {
        Ok(Horizontal::Right)
    } else if same_text(s, "center") {
        Ok(Horizontal::Center)
    } else {
        Err(invalid(attribute_definition, value_definition, StyleAttribute::HorizontalAlignment))
    }
}

fn vertical_attr(attribute_definition: &ConfigNode, value_definition: &ConfigEntry) -> (r: Result<Vertical, ConfigError>)
    ensures
        r == match string_of(value_definition.value) {
            Some(s) => match vertical_of(s) {
                Some(x) => Ok(x),
                None => Err(invalid_value(*attribute_definition, *value_definition, StyleAttribute::VerticalAlignment)),
            },
            None => Err(invalid_value(*attribute_definition, *value_definition, StyleAttribute::VerticalAlignment)),
        },
{
    let s = string_value(attribute_definition, value_definition, StyleAttribute::VerticalAlignment)?;
    if same_text(s, "top") {
        Ok(Vertical::Top)
    } else if same_text(s, "bottom") {
        Ok(Vertical::Bottom)
    } else if same_text(s, "center") {
        Ok(Vertical::Center)
    } else {
        Err(invalid(attribute_definition, value_definition, StyleAttribute::VerticalAlignment))
    }
}

fn alignment_attr(attribute_definition: &ConfigNode, value_definition: &ConfigEntry) -> (r: Result<Alignment, ConfigError>)
    ensures
        r == match string_of(value_definition.value) {
            Some(s) => match alignment_of(s) {
                Some(x) => Ok(x),
                None => Err(invalid_value(*attribute_definition, *value_definition, StyleAttribute::AlignItems)),
            },
            None => Err(invalid_value(*attribute_definition, *value_definition, StyleAttribute::AlignItems)),
        },
{
    let s = string_value(attribute_definition, value_definition, StyleAttribute::AlignItems)?;
    if same_text(s, "start") {
        Ok(Alignment::Start)
    } else if same_text(s, "end") {
        Ok(Alignment::End)
    } else if same_text(s, "center") {
        Ok(Alignment::Center)
    } else {
        Err(invalid(attribute_definition, value_definition, StyleAttribute::AlignItems))
    }
}

/// The value of `attribute` written in `value_definition`.
pub fn attribute_value(
    attribute_definition: &ConfigNode,
    value_definition: &ConfigEntry,
    attribute: StyleAttribute,
    font_id: usize,
) -> (r: Result<AttrValue, ConfigError>)
    ensures
        r == match attr_value(attribute, value_definition.value, font_id) {
            Some(v) => Ok(v),
            None => Err(invalid_value(*attribute_definition, *value_definition, attribute)),
        },
{
    let (a, v) = (attribute_definition, value_definition);
    match attribute {
        StyleAttribute::Padding | StyleAttribute::Margin | StyleAttribute::Spacing => Ok(AttrValue::Int(int_attr(a, v, attribute)?)),
        StyleAttribute::MaxWidth | StyleAttribute::MaxHeight | StyleAttribute::BorderRadius
        | StyleAttribute::BorderWidth | StyleAttribute::FontSize => Ok(AttrValue::Num(float_attr(a, v, attribute)?)),
        StyleAttribute::Width | StyleAttribute::Height => Ok(AttrValue::Len(length_attr(a, v, attribute)?)),
        StyleAttribute::HorizontalAlignment => Ok(AttrValue::Horizontal(horizontal_attr(a, v)?)),
        StyleAttribute::VerticalAlignment => Ok(AttrValue::Vertical(vertical_attr(a, v)?)),
        StyleAttribute::AlignItems => Ok(AttrValue::Align(alignment_attr(a, v)?)),
        StyleAttribute::Font => {
            string_value(a, v, attribute)?;
            Ok(AttrValue::Font(font_id))
        },
        _ => Ok(AttrValue::Color(color_attr(a, v, attribute)?)),
    }
}

/// A font family that a rule names, to be found on the host, with the place
/// it was written.
pub struct FontRequest {
    pub family: String,
    pub value_src: Span,
}

pub open spec fn request_view(f: FontRequest) -> (Seq<char>, Span) {
    (f.family@, f.value_src)
}

pub open spec fn requests_view(fs: Seq<FontRequest>) -> Seq<(Seq<char>, Span)> {
    fs.map_values(|f: FontRequest| request_view(f))
}

/// What one attribute node of a rule block sets, or why it is wrong: an
/// unknown name first, then a missing value, then a value that does not fit.
pub open spec fn attr_outcome(node: ConfigNode, font_id: usize) -> Result<(StyleAttribute, AttrValue), ConfigError> {
    match attribute_of(node.name@) {
        None => Err(ConfigError::InvalidStyleAttribute { attr_src: node.span }),
        Some(a) => match first_argument(node.entries@) {
            None => Err(ConfigError::MissingArgument { node_src: node.span }),
            Some(i) => match attr_value(a, node.entries@[i].value, font_id) {
                Some(v) => Ok((a, v)),
                None => Err(invalid_value(node, node.entries@[i], a)),
            },
        },
    }
}

/// The record that a rule block's attribute nodes make, with the font
/// requests among them; fonts are numbered on from `base`.
#[verifier::opaque]
pub open spec fn style_of_attrs(nodes: Seq<ConfigNode>, base: nat) -> Result<(GenericStyle, Seq<(Seq<char>, Span)>), ConfigError>
    decreases nodes.len(),
{
    if nodes.len() == 0 {
        Ok((empty_style(), Seq::empty()))
    } else {
        match style_of_attrs(nodes.drop_last(), base) {
            Err(e) => Err(e),
            Ok((style, fonts)) => {
                let node = nodes.last();
                match attr_outcome(node, (base + fonts.len()) as usize) {
                    Err(e) => Err(e),
                    Ok((a, v)) => Ok(
                        (
                            set_attr(style, a, v),
                            if a == StyleAttribute::Font {
                                fonts.push(font_request_of(node))
                            } else {
                                fonts
                            },
                        ),
                    ),
                }
            },
        }
    }
}

/// The font request that attribute node `node` makes, when it names a font.
pub open spec fn font_request_of(node: ConfigNode) -> (Seq<char>, Span) {
    let i = first_argument(node.entries@)->0;
    (string_of(node.entries@[i].value)->0, node.entries@[i].span)
}

proof fn lemma_style_of_attrs_step(nodes: Seq<ConfigNode>, base: nat)
    ensures
        nodes.len() == 0 ==> style_of_attrs(nodes, base) == Ok::<(GenericStyle, Seq<(Seq<char>, Span)>), ConfigError>(
            (empty_style(), Seq::empty()),
        ),
        nodes.len() > 0 ==> style_of_attrs(nodes, base) == match style_of_attrs(nodes.drop_last(), base) {
            Err(e) => Err(e),
            Ok((style, fonts)) => match attr_outcome(nodes.last(), (base + fonts.len()) as usize) {
                Err(e) => Err(e),
                Ok((a, v)) => Ok(
                    (
                        set_attr(style, a, v),
                        if a == StyleAttribute::Font {
                            fonts.push(font_request_of(nodes.last()))
                        } else {
                            fonts
                        },
                    ),
                ),
            },
        },
{
    reveal_with_fuel(style_of_attrs, 1);
}

proof fn lemma_attrs_error_persists(nodes: Seq<ConfigNode>, base: nat, k: int)
    requires
        0 <= k <= nodes.len(),
        style_of_attrs(nodes.subrange(0, k), base) is Err,
    ensures
        style_of_attrs(nodes, base) == style_of_attrs(nodes.subrange(0, k), base),
    decreases nodes.len() - k,
{
    if k < nodes.len() {
        assert(nodes.subrange(0, k + 1).drop_last() == nodes.subrange(0, k));
        lemma_style_of_attrs_step(nodes.subrange(0, k + 1), base);
        lemma_attrs_error_persists(nodes, base, k + 1);
    } else {
        assert(nodes.subrange(0, k) == nodes);
    }
}

/// Applies one attribute node to `result`, recording a font request.
fn apply_attribute(child: &ConfigNode, result: &mut GenericStyle, fonts: &mut Vec<FontRequest>) -> (r: Result<(), ConfigError>)
    requires
        old(fonts)@.len() < usize::MAX,
    ensures
        final(fonts)@.len() <= old(fonts)@.len() + 1,
        match attr_outcome(*child, old(fonts)@.len() as usize) {
            Err(e) => r == Err::<(), ConfigError>(e),
            Ok((a, v)) => {
                &&& r is Ok
                &&& *final(result) == set_attr(*old(result), a, v)
                &&& if a == StyleAttribute::Font {
                    &&& final(fonts)@.len() == old(fonts)@.len() + 1
                    &&& final(fonts)@.drop_last() == old(fonts)@
                    &&& request_view(final(fonts)@.last()) == font_request_of(*child)
                } else {
                    final(fonts)@ == old(fonts)@
                }
            },
        },
{
    reveal(attr_outcome);
    let attribute = match StyleAttribute::named(child.name.as_str()) {
        Some(a) => a,
        None => {
            return Err(ConfigError::InvalidStyleAttribute { attr_src: child.span });
        },
    };
    let arg = match child.first_argument() {
        Some(a) => a,
        None => {
            return Err(ConfigError::MissingArgument { node_src: child.span });
        },
    };
    let value_def = &child.entries[arg];
    let value = attribute_value(child, value_def, attribute, fonts.len())?;
    result.set_attr(attribute, value);
    if let StyleAttribute::Font = attribute {
        if let ConfigValue::String(family) = &value_def.value {
            fonts.push(FontRequest { family: family.clone(), value_src: value_def.span });
        }
    }
    Ok(())
}

impl GenericStyle {
    /// The record that a rule block's attribute nodes set, in order, later
    /// nodes overriding earlier ones. Each font family named is appended to
    /// `fonts`, and the record refers to it by its position there.
    pub fn new(doc: &Vec<ConfigNode>, fonts: &mut Vec<FontRequest>) -> (r: Result<GenericStyle, ConfigError>)
        requires
            old(fonts)@.len() + doc@.len() <= usize::MAX,
        ensures
            match style_of_attrs(doc@, old(fonts)@.len()) {
                Ok((style, requested)) => r == Ok::<GenericStyle, ConfigError>(style) && requests_view(final(fonts)@)
                    == requests_view(old(fonts)@) + requested,
                Err(e) => r == Err::<GenericStyle, ConfigError>(e),
            },
            final(fonts)@.len() <= old(fonts)@.len() + doc@.len(),
    {
        let ghost base = fonts@.len();
        let mut result = GenericStyle::empty();
        proof {
            assert(doc@.subrange(0, 0) == Seq::<ConfigNode>::empty());
            lemma_style_of_attrs_step(doc@.subrange(0, 0), base);
            assert(requests_view(fonts@).subrange(base as int, base as int) =~= Seq::<(Seq<char>, Span)>::empty());
        }
        let mut i: usize = 0;
        while i < doc.len()
            invariant
                base == old(fonts)@.len(),
                base + doc@.len() <= usize::MAX,
                i <= doc@.len(),
                base <= fonts@.len() <= base + i,
                fonts@.subrange(0, base as int) == old(fonts)@,
                style_of_attrs(doc@.subrange(0, i as int), base) == Ok::<(GenericStyle, Seq<(Seq<char>, Span)>), ConfigError>(
                    (result, requests_view(fonts@).subrange(base as int, fonts@.len() as int)),
                ),
            decreases doc@.len() - i,
        {
            let ghost pre = doc@.subrange(0, i as int);
            let ghost before = fonts@;
            let ghost old_result = result;
            proof {
                assert(doc@.subrange(0, i as int + 1).drop_last() == pre);
                assert(doc@.subrange(0, i as int + 1).last() == doc@[i as int]);
                lemma_style_of_attrs_step(doc@.subrange(0, i as int + 1), base);
                assert(requests_view(fonts@).subrange(base as int, fonts@.len() as int).len() == fonts@.len() - base);
            }
            let step = apply_attribute(&doc[i], &mut result, fonts);
            if let Err(e) = step {
                proof {
                    lemma_attrs_error_persists(doc@, base, i as int + 1);
                }
                return Err(e);
            }
            proof {
                assert(fonts@.subrange(0, base as int) =~= old(fonts)@) by {
                    assert forall|k: int| 0 <= k < base implies fonts@[k] == old(fonts)@[k] by {
                        assert(before.subrange(0, base as int)[k] == before[k]);
                        if fonts@.len() > before.len() {
                            assert(fonts@.drop_last()[k] == fonts@[k]);
                        }
                    }
                }
                let (a, v) = attr_outcome(doc@[i as int], before.len() as usize)->Ok_0;
                if a == StyleAttribute::Font {
                    assert(requests_view(fonts@).subrange(base as int, fonts@.len() as int) =~= requests_view(before).subrange(
                        base as int,
                        before.len() as int,
                    ).push(font_request_of(doc@[i as int]))) by {
                        assert forall|k: int| base <= k < before.len() implies fonts@[k] == before[k] by {
                            assert(fonts@.drop_last()[k] == fonts@[k]);
                        }
                    }
                }
            }
            i = i + 1;
        }
        proof {
            assert(doc@.subrange(0, doc@.len() as int) == doc@);
            assert forall|k: int| 0 <= k < base implies fonts@[k] == old(fonts)@[k] by {
                assert(fonts@.subrange(0, base as int)[k] == fonts@[k]);
            }
            assert(requests_view(fonts@) =~= requests_view(old(fonts)@) + requests_view(fonts@).subrange(
                base as int,
                fonts@.len() as int,
            ));
        }
        Ok(result)
    }
}

/// `after` has `before`'s value for every attribute that `src` leaves unset.
pub open spec fn agrees_where_unset(before: GenericStyle, after: GenericStyle, src: GenericStyle) -> bool {
    &&& (src.padding is None ==> after.padding == before.padding)
    &&& (src.margin is None ==> after.margin == before.margin)
    &&& (src.spacing is None ==> after.spacing == before.spacing)
    &&& (src.max_width is None ==> after.max_width == before.max_width)
    &&& (src.max_height is None ==> after.max_height == before.max_height)
    &&& (src.border_radius is None ==> after.border_radius == before.border_radius)
    &&& (src.border_width is None ==> after.border_width == before.border_width)
    &&& (src.font_size is None ==> after.font_size == before.font_size)
    &&& (src.width is None ==> after.width == before.width)
    &&& (src.height is None ==> after.height == before.height)
    &&& (src.horizontal_alignment is None ==> after.horizontal_alignment == before.horizontal_alignment)
    &&& (src.vertical_alignment is None ==> after.vertical_alignment == before.vertical_alignment)
    &&& (src.align_items is None ==> after.align_items == before.align_items)
    &&& (src.border_color is None ==> after.border_color == before.border_color)
    &&& (src.text_color is None ==> after.text_color == before.text_color)
    &&& (src.match_text_color is None ==> after.match_text_color == before.match_text_color)
    &&& (src.placeholder_color is None ==> after.placeholder_color == before.placeholder_color)
    &&& (src.icon_color is None ==> after.icon_color == before.icon_color)
    &&& (src.background is None ==> after.background == before.background)
    &&& (src.font is None ==> after.font == before.font)
}

/// Every attribute set in `before` is still set in `after`.
pub open spec fn never_cleared(before: GenericStyle, after: GenericStyle) -> bool {
    &&& (before.padding is Some ==> after.padding is Some)
    &&& (before.margin is Some ==> after.margin is Some)
    &&& (before.spacing is Some ==> after.spacing is Some)
    &&& (before.max_width is Some ==> after.max_width is Some)
    &&& (before.max_height is Some ==> after.max_height is Some)
    &&& (before.border_radius is Some ==> after.border_radius is Some)
    &&& (before.border_width is Some ==> after.border_width is Some)
    &&& (before.font_size is Some ==> after.font_size is Some)
    &&& (before.width is Some ==> after.width is Some)
    &&& (before.height is Some ==> after.height is Some)
    &&& (before.horizontal_alignment is Some ==> after.horizontal_alignment is Some)
    &&& (before.vertical_alignment is Some ==> after.vertical_alignment is Some)
    &&& (before.align_items is Some ==> after.align_items is Some)
    &&& (before.border_color is Some ==> after.border_color is Some)
    &&& (before.text_color is Some ==> after.text_color is Some)
    &&& (before.match_text_color is Some ==> after.match_text_color is Some)
    &&& (before.placeholder_color is Some ==> after.placeholder_color is Some)
    &&& (before.icon_color is Some ==> after.icon_color is Some)
    &&& (before.background is Some ==> after.background is Some)
    &&& (before.font is Some ==> after.font is Some)
}

/// The selectors looked up for a node: its type first, then its classes in
/// declaration order, each with the state's marker.
pub open spec fn selectors(names: Seq<Seq<char>>, node_type: Seq<char>, state: State) -> Seq<Seq<char>> {
    seq![node_type + suffix_of(state)] + Seq::new(names.len(), |i: int| names[i] + suffix_of(state))
}

/// The record that the rules for `sels` make when merged in order onto the
/// empty record; selectors without a rule add nothing.
pub open spec fn cascade(rules: Map<Seq<char>, GenericStyle>, sels: Seq<Seq<char>>) -> GenericStyle
    decreases sels.len(),
{
    if sels.len() == 0 {
        empty_style()
    } else {
        let base = cascade(rules, sels.drop_last());
        if rules.contains_key(sels.last()) {
            merge(base, rules[sels.last()])
        } else {
            base
        }
    }
}

/// The style of a node of type `node_type` with classes `names` in `state`.
pub open spec fn resolve(rules: Map<Seq<char>, GenericStyle>, names: Seq<Seq<char>>, node_type: Seq<char>, state: State) -> GenericStyle {
    cascade(rules, selectors(names, node_type, state))
}

/// The rule for `selector`, or the empty record where there is none.
pub open spec fn rule_or_empty(rules: Map<Seq<char>, GenericStyle>, selector: Seq<char>) -> GenericStyle {
    if rules.contains_key(selector) {
        rules[selector]
    } else {
        empty_style()
    }
}

pub open spec fn string_views(v: Seq<String>) -> Seq<Seq<char>> {
    Seq::new(v.len(), |i: int| v[i]@)
}

/// Cascade precedence: with classes `[c1, c2]`, every attribute that the rule
/// for `c2` sets has `c2`'s value in the resolved style, whatever the rules
/// for the node type and for `c1` say.
pub proof fn lemma_last_class_wins(
    rules: Map<Seq<char>, GenericStyle>,
    node_type: Seq<char>,
    c1: Seq<char>,
    c2: Seq<char>,
    state: State,
)
    requires
        rules.contains_key(c2 + suffix_of(state)),
    ensures
        ({
            let r = resolve(rules, seq![c1, c2], node_type, state);
            let rule = rules[c2 + suffix_of(state)];
            &&& r == merge(resolve(rules, seq![c1], node_type, state), rule)
            &&& merge(r, rule) == r
        }),
{
    let sels = selectors(seq![c1, c2], node_type, state);
    assert(sels.drop_last() =~= selectors(seq![c1], node_type, state));
    assert(sels.last() == c2 + suffix_of(state));
}

/// Merging never clears: every attribute set before stays set, and every
/// attribute that the merged record leaves unset keeps its earlier value.
/// So a class whose rule does not set an attribute, or that has no rule,
/// leaves that attribute of the resolved style as the earlier steps made it.
pub proof fn lemma_merge_never_clears(
    rules: Map<Seq<char>, GenericStyle>,
    names: Seq<Seq<char>>,
    c: Seq<char>,
    node_type: Seq<char>,
    state: State,
)
    ensures
        ({
            let before = resolve(rules, names, node_type, state);
            let after = resolve(rules, names.push(c), node_type, state);
            let rule = rule_or_empty(rules, c + suffix_of(state));
            &&& after == merge(before, rule)
            &&& agrees_where_unset(before, after, rule)
            &&& never_cleared(before, after)
        }),
{
    let sels = selectors(names.push(c), node_type, state);
    assert(sels.drop_last() =~= selectors(names, node_type, state));
    assert(sels.last() == c + suffix_of(state));
}

/// The rules of a style table, by selector, and the fonts its rules name.
pub struct StyleLookup {
    pub styles: Vec<(String, GenericStyle)>,
    pub fonts: Vec<FontRequest>,
}

/// The rule table as a map from selector to record.
pub open spec fn rules_of(entries: Seq<(String, GenericStyle)>) -> Map<Seq<char>, GenericStyle> {
    Map::new(
        |k: Seq<char>| exists|i: int| 0 <= i < entries.len() && entries[i].0@ == k,
        |k: Seq<char>| entries[choose|i: int| 0 <= i < entries.len() && entries[i].0@ == k].1,
    )
}

pub open spec fn keys_unique(entries: Seq<(String, GenericStyle)>) -> bool {
    forall|i: int, j: int| 0 <= i < j < entries.len() ==> entries[i].0@ != entries[j].0@
}

proof fn lemma_rules_at(entries: Seq<(String, GenericStyle)>, i: int)
    requires
        keys_unique(entries),
        0 <= i < entries.len(),
    ensures
        rules_of(entries).contains_key(entries[i].0@),
        rules_of(entries)[entries[i].0@] == entries[i].1,
{
    let k = entries[i].0@;
    assert(rules_of(entries).contains_key(k));
    let c = choose|j: int| 0 <= j < entries.len() && entries[j].0@ == k;
    if c != i {
        if c < i {
            assert(entries[c].0@ != entries[i].0@);
        } else {
            assert(entries[i].0@ != entries[c].0@);
        }
    }
}

/// What the style section's rule blocks make, in order: a block for a
/// selector seen before is merged onto the earlier record.
#[verifier::opaque]
pub open spec fn rules_of_defs(defs: Seq<ConfigNode>) -> Result<(Map<Seq<char>, GenericStyle>, Seq<(Seq<char>, Span)>), ConfigError>
    decreases defs.len(),
{
    if defs.len() == 0 {
        Ok((Map::empty(), Seq::empty()))
    } else {
        match rules_of_defs(defs.drop_last()) {
            Err(e) => Err(e),
            Ok((m, fonts)) => {
                let d = defs.last();
                if d.children@.len() == 0 {
                    Err(ConfigError::EmptyStyle { attr_src: d.span })
                } else {
                    match style_of_attrs(d.children@, fonts.len()) {
                        Err(e) => Err(e),
                        Ok((st, more)) => Ok(
                            (
                                m.insert(d.name@, if m.contains_key(d.name@) { merge(m[d.name@], st) } else { st }),
                                fonts + more,
                            ),
                        ),
                    }
                }
            },
        }
    }
}

proof fn lemma_rules_of_defs_step(defs: Seq<ConfigNode>)
    ensures
        defs.len() == 0 ==> rules_of_defs(defs) == Ok::<(Map<Seq<char>, GenericStyle>, Seq<(Seq<char>, Span)>), ConfigError>(
            (Map::empty(), Seq::empty()),
        ),
        defs.len() > 0 ==> rules_of_defs(defs) == match rules_of_defs(defs.drop_last()) {
            Err(e) => Err(e),
            Ok((m, fonts)) => {
                let d = defs.last();
                if d.children@.len() == 0 {
                    Err(ConfigError::EmptyStyle { attr_src: d.span })
                } else {
                    match style_of_attrs(d.children@, fonts.len()) {
                        Err(e) => Err(e),
                        Ok((st, more)) => Ok(
                            (
                                m.insert(d.name@, if m.contains_key(d.name@) { merge(m[d.name@], st) } else { st }),
                                fonts + more,
                            ),
                        ),
                    }
                }
            },
        },
{
    reveal_with_fuel(rules_of_defs, 1);
}

proof fn lemma_defs_error_persists(defs: Seq<ConfigNode>, k: int)
    requires
        0 <= k <= defs.len(),
        rules_of_defs(defs.subrange(0, k)) is Err,
    ensures
        rules_of_defs(defs) == rules_of_defs(defs.subrange(0, k)),
    decreases defs.len() - k,
{
    if k < defs.len() {
        assert(defs.subrange(0, k + 1).drop_last() == defs.subrange(0, k));
        lemma_rules_of_defs_step(defs.subrange(0, k + 1));
        lemma_defs_error_persists(defs, k + 1);
    } else {
        assert(defs.subrange(0, k) == defs);
    }
}

/// The number of attribute nodes in the rule blocks.
pub open spec fn attribute_count(defs: Seq<ConfigNode>) -> nat
    decreases defs.len(),
{
    if defs.len() == 0 {
        0
    } else {
        attribute_count(defs.drop_last()) + defs.last().children@.len()
    }
}

impl StyleLookup {
    pub open spec fn wf(&self) -> bool {
        keys_unique(self.styles@)
    }

    pub open spec fn rules(&self) -> Map<Seq<char>, GenericStyle> {
        rules_of(self.styles@)
    }

    /// The position of the rule for `selector`, if there is one.
    fn rule_index(&self, selector: &str) -> (r: Option<usize>)
        requires
            self.wf(),
        ensures
            match r {
                Some(i) => i < self.styles@.len() && self.styles@[i as int].0@ == selector@,
                None => !self.rules().contains_key(selector@),
            },
    {
        let mut i: usize = 0;
        while i < self.styles.len()
            invariant
                i <= self.styles@.len(),
                forall|j: int| 0 <= j < i ==> self.styles@[j].0@ != selector@,
            decreases self.styles@.len() - i,
        {
            if same_text(self.styles[i].0.as_str(), selector) {
                return Some(i);
            }
            i = i + 1;
        }
        None
    }

    /// Merges the rule for `selector`, if any, onto `style`.
    fn apply_rule(&self, style: &mut GenericStyle, selector: &str)
        requires
            self.wf(),
        ensures
            *final(style) == if self.rules().contains_key(selector@) {
                merge(*old(style), self.rules()[selector@])
            } else {
                *old(style)
            },
    {
        match self.rule_index(selector) {
            Some(i) => {
                proof {
                    lemma_rules_at(self.styles@, i as int);
                }
                style.update_from(&self.styles[i].1);
            },
            None => {},
        }
    }

    /// The style of a node of type `node_type` with classes `style_names` in
    /// `state`: the rules for the type and then for each class, in order,
    /// merged onto the empty record.
    pub fn style_for(&self, style_names: &Vec<String>, node_type: &str, state: State) -> (r: GenericStyle)
        requires
            self.wf(),
        ensures
            r == resolve(self.rules(), string_views(style_names@), node_type@, state),
    {
        let ghost sels = selectors(string_views(style_names@), node_type@, state);
        let suffix = state.style_suffix();
        let mut style = GenericStyle::empty();
        let mut selector = node_type.to_owned();
        selector.append(suffix);
        self.apply_rule(&mut style, selector.as_str());
        proof {
            assert(sels.subrange(0, 1).drop_last() =~= Seq::<Seq<char>>::empty());
            assert(sels.subrange(0, 1).last() == sels[0]);
            assert(sels[0] == node_type@ + suffix_of(state));
            assert(cascade(self.rules(), Seq::<Seq<char>>::empty()) == empty_style());
        }
        let mut i: usize = 0;
        while i < style_names.len()
            invariant
                self.wf(),
                sels == selectors(string_views(style_names@), node_type@, state),
                suffix@ == suffix_of(state),
                i <= style_names@.len(),
                style == cascade(self.rules(), sels.subrange(0, i as int + 1)),
            decreases style_names@.len() - i,
        {
            let mut selector = style_names[i].clone();
            selector.append(suffix);
            self.apply_rule(&mut style, selector.as_str());
            proof {
                assert(sels.subrange(0, i as int + 2).drop_last() =~= sels.subrange(0, i as int + 1));
                assert(sels.subrange(0, i as int + 2).last() == sels[i as int + 1]);
                assert(sels[i as int + 1] == style_names@[i as int]@ + suffix_of(state));
            }
            i = i + 1;
        }
        assert(sels.subrange(0, style_names@.len() as int + 1) =~= sels);
        style
    }
}

/// Reads the style section: each child is a rule block named by its selector,
/// holding attribute nodes. Blocks for the same selector accumulate, later
/// ones overriding earlier ones attribute by attribute.
pub fn parse_styles(node: &ConfigNode) -> (r: Result<StyleLookup, ConfigError>)
    requires
        attribute_count(node.children@) <= usize::MAX,
    ensures
        match rules_of_defs(node.children@) {
            Ok((rules, fonts)) => r matches Ok(l) && l.wf() && l.rules() == rules && requests_view(l.fonts@) == fonts,
            Err(e) => r matches Err(x) && x == e,
        },
{
    let defs = &node.children;
    let mut styles: Vec<(String, GenericStyle)> = Vec::new();
    let mut fonts: Vec<FontRequest> = Vec::new();
    proof {
        lemma_rules_of_defs_step(defs@.subrange(0, 0));
        assert(defs@.subrange(0, 0) == Seq::<ConfigNode>::empty());
        assert(rules_of(styles@) =~= Map::<Seq<char>, GenericStyle>::empty());
        assert(requests_view(fonts@) =~= Seq::<(Seq<char>, Span)>::empty());
    }
    let mut i: usize = 0;
    while i < defs.len()
        invariant
            defs@ == node.children@,
            attribute_count(defs@) <= usize::MAX,
            i <= defs@.len(),
            keys_unique(styles@),
            fonts@.len() <= attribute_count(defs@.subrange(0, i as int)),
            rules_of_defs(defs@.subrange(0, i as int)) == Ok::<(Map<Seq<char>, GenericStyle>, Seq<(Seq<char>, Span)>), ConfigError>(
                (rules_of(styles@), requests_view(fonts@)),
            ),
        decreases defs@.len() - i,
    {
        let ghost pre = defs@.subrange(0, i as int);
        proof {
            assert(defs@.subrange(0, i as int + 1).drop_last() == pre);
            assert(defs@.subrange(0, i as int + 1).last() == defs@[i as int]);
            lemma_rules_of_defs_step(defs@.subrange(0, i as int + 1));
            lemma_attribute_count_prefix(defs@, i as int + 1);
        }
        let style_definition = &defs[i];
        proof {
            assert(requests_view(fonts@).len() == fonts@.len());
        }
        if style_definition.children.len() == 0 {
            proof {
                assert(rules_of_defs(defs@.subrange(0, i as int + 1)) == Err::<(Map<Seq<char>, GenericStyle>, Seq<(Seq<char>, Span)>), ConfigError>(
                    ConfigError::EmptyStyle { attr_src: style_definition.span },
                ));
                lemma_defs_error_persists(defs@, i as int + 1);
                assert(defs@ == node.children@);
            }
            return Err(ConfigError::EmptyStyle { attr_src: style_definition.span });
        }
        let ghost fonts_before = fonts@;
        let style = match GenericStyle::new(&style_definition.children, &mut fonts) {
            Ok(st) => st,
            Err(e) => {
                proof {
                    assert(rules_of_defs(defs@.subrange(0, i as int + 1)) == Err::<(Map<Seq<char>, GenericStyle>, Seq<(Seq<char>, Span)>), ConfigError>(e));
                    lemma_defs_error_persists(defs@, i as int + 1);
                    assert(defs@ == node.children@);
                }
                return Err(e);
            },
        };
        let ghost m = rules_of(styles@);
        let ghost key = style_definition.name@;
        let mut j: usize = 0;
        let mut found: Option<usize> = None;
        while j < styles.len()
            invariant
                j <= styles@.len(),
                key == style_definition.name@,
                match found {
                    Some(f) => f < styles@.len() && styles@[f as int].0@ == key,
                    None => forall|q: int| 0 <= q < j ==> styles@[q].0@ != key,
                },
            decreases styles@.len() - j,
        {
            if found.is_none() && same_text(styles[j].0.as_str(), style_definition.name.as_str()) {
                found = Some(j);
            }
            j = j + 1;
        }
        match found {
            Some(f) => {
                proof {
                    lemma_rules_at(styles@, f as int);
                }
                let ghost old_styles = styles@;
                let mut entry = styles[f].1;
                entry.update_from(&style);
                let name = styles[f].0.clone();
                styles.set(f, (name, entry));
                proof {
                    assert(keys_unique(styles@)) by {
                        assert forall|a: int, b: int| 0 <= a < b < styles@.len() implies styles@[a].0@ != styles@[b].0@ by {
                            assert(old_styles[a].0@ != old_styles[b].0@);
                        }
                    }
                    assert(rules_of(styles@) =~= m.insert(key, merge(m[key], style))) by {
                        assert forall|k: Seq<char>| #[trigger] rules_of(styles@).contains_key(k) implies rules_of(styles@)[k]
                            == m.insert(key, merge(m[key], style))[k] by {
                            let w = choose|w: int| 0 <= w < styles@.len() && styles@[w].0@ == k;
                            lemma_rules_at(styles@, w);
                            if w != f as int {
                                lemma_rules_at(old_styles, w);
                            }
                        }
                        assert forall|k: Seq<char>| m.insert(key, merge(m[key], style)).contains_key(k) implies #[trigger] rules_of(
                            styles@,
                        ).contains_key(k) by {
                            if k != key {
                                let w = choose|w: int| 0 <= w < old_styles.len() && old_styles[w].0@ == k;
                                assert(styles@[w].0@ == k);
                            } else {
                                assert(styles@[f as int].0@ == k);
                            }
                        }
                    }
                }
            },
            None => {
                let ghost old_styles = styles@;
                let name = style_definition.name.clone();
                styles.push((name, style));
                proof {
                    assert(!m.contains_key(key));
                    assert(keys_unique(styles@)) by {
                        assert forall|a: int, b: int| 0 <= a < b < styles@.len() implies styles@[a].0@ != styles@[b].0@ by {
                            if b < old_styles.len() {
                                assert(old_styles[a].0@ != old_styles[b].0@);
                            } else {
                                assert(styles@[a] == old_styles[a]);
                            }
                        }
                    }
                    assert(rules_of(styles@) =~= m.insert(key, style)) by {
                        assert forall|k: Seq<char>| #[trigger] rules_of(styles@).contains_key(k) implies rules_of(styles@)[k]
                            == m.insert(key, style)[k] by {
                            let w = choose|w: int| 0 <= w < styles@.len() && styles@[w].0@ == k;
                            lemma_rules_at(styles@, w);
                            if w < old_styles.len() {
                                lemma_rules_at(old_styles, w);
                            }
                        }
                        assert forall|k: Seq<char>| m.insert(key, style).contains_key(k) implies #[trigger] rules_of(
                            styles@,
                        ).contains_key(k) by {
                            if k != key {
                                let w = choose|w: int| 0 <= w < old_styles.len() && old_styles[w].0@ == k;
                                assert(styles@[w].0@ == k);
                            } else {
                                assert(styles@[old_styles.len() as int].0@ == k);
                            }
                        }
                    }
                }
            },
        }
        i = i + 1;
    }
    proof {
        assert(defs@.subrange(0, defs@.len() as int) == defs@);
    }
    Ok(StyleLookup { styles, fonts })
}

proof fn lemma_attribute_count_prefix(defs: Seq<ConfigNode>, k: int)
    requires
        0 < k <= defs.len(),
    ensures
        attribute_count(defs.subrange(0, k)) == attribute_count(defs.subrange(0, k - 1)) + defs[k - 1].children@.len(),
        attribute_count(defs.subrange(0, k)) <= attribute_count(defs),
    decreases defs.len() - k,
{
    assert(defs.subrange(0, k).drop_last() == defs.subrange(0, k - 1));
    if k < defs.len() {
        lemma_attribute_count_prefix(defs, k + 1);
    } else {
        assert(defs.subrange(0, k) == defs);
    }
}

/// The field that `src` sets, else the one `dst` has.
pub open spec fn pick<T>(dst: Option<T>, src: Option<T>) -> Option<T> {
    if src is Some {
        src
    } else {
        dst
    }
}

/// `dst` with every field that `src` sets replaced by `src`'s.
pub open spec fn merge(dst: GenericStyle, src: GenericStyle) -> GenericStyle {
    GenericStyle {
        padding: pick(dst.padding, src.padding),
        margin: pick(dst.margin, src.margin),
        spacing: pick(dst.spacing, src.spacing),
        max_width: pick(dst.max_width, src.max_width),
        max_height: pick(dst.max_height, src.max_height),
        border_radius: pick(dst.border_radius, src.border_radius),
        border_width: pick(dst.border_width, src.border_width),
        font_size: pick(dst.font_size, src.font_size),
        width: pick(dst.width, src.width),
        height: pick(dst.height, src.height),
        horizontal_alignment: pick(dst.horizontal_alignment, src.horizontal_alignment),
        vertical_alignment: pick(dst.vertical_alignment, src.vertical_alignment),
        align_items: pick(dst.align_items, src.align_items),
        border_color: pick(dst.border_color, src.border_color),
        text_color: pick(dst.text_color, src.text_color),
        match_text_color: pick(dst.match_text_color, src.match_text_color),
        placeholder_color: pick(dst.placeholder_color, src.placeholder_color),
        icon_color: pick(dst.icon_color, src.icon_color),
        background: pick(dst.background, src.background),
        font: pick(dst.font, src.font),
    }
}

/// The field that `src` sets, else the one `dst` has.
pub fn pick_opt<T: Copy>(dst: Option<T>, src: Option<T>) -> (r: Option<T>)
    ensures
        r == pick(dst, src),
{
    match src {
        Some(v) => Some(v),
        None => dst,
    }
}

/// The record with no attribute set.
pub open spec fn empty_style() -> GenericStyle {
    GenericStyle {
        padding: None,
        margin: None,
        spacing: None,
        max_width: None,
        max_height: None,
        border_radius: None,
        border_width: None,
        font_size: None,
        width: None,
        height: None,
        horizontal_alignment: None,
        vertical_alignment: None,
        align_items: None,
        border_color: None,
        text_color: None,
        match_text_color: None,
        placeholder_color: None,
        icon_color: None,
        background: None,
        font: None,
    }
}

impl GenericStyle {
    pub fn empty() -> (r: GenericStyle)
        ensures
            r == empty_style(),
    {
        GenericStyle {
            padding: None,
            margin: None,
            spacing: None,
            max_width: None,
            max_height: None,
            border_radius: None,
            border_width: None,
            font_size: None,
            width: None,
            height: None,
            horizontal_alignment: None,
            vertical_alignment: None,
            align_items: None,
            border_color: None,
            text_color: None,
            match_text_color: None,
            placeholder_color: None,
            icon_color: None,
            background: None,
            font: None,
        }
    }
}

impl Default for GenericStyle {
    fn default() -> (r: GenericStyle)
        ensures
            r == empty_style(),
    {
        GenericStyle::empty()
    }
}

impl UpdateFromOther for GenericStyle {
    open spec fn updated_by(&self, other: &Self) -> Self {
        merge(*self, *other)
    }

    fn update_from(&mut self, other: &Self) {
        *self = GenericStyle {
            padding: pick_opt(self.padding, other.padding),
            margin: pick_opt(self.margin, other.margin),
            spacing: pick_opt(self.spacing, other.spacing),
            max_width: pick_opt(self.max_width, other.max_width),
            max_height: pick_opt(self.max_height, other.max_height),
            border_radius: pick_opt(self.border_radius, other.border_radius),
            border_width: pick_opt(self.border_width, other.border_width),
            font_size: pick_opt(self.font_size, other.font_size),
            width: pick_opt(self.width, other.width),
            height: pick_opt(self.height, other.height),
            horizontal_alignment: pick_opt(self.horizontal_alignment, other.horizontal_alignment),
            vertical_alignment: pick_opt(self.vertical_alignment, other.vertical_alignment),
            align_items: pick_opt(self.align_items, other.align_items),
            border_color: pick_opt(self.border_color, other.border_color),
            text_color: pick_opt(self.text_color, other.text_color),
            match_text_color: pick_opt(self.match_text_color, other.match_text_color),
            placeholder_color: pick_opt(self.placeholder_color, other.placeholder_color),
            icon_color: pick_opt(self.icon_color, other.icon_color),
            background: pick_opt(self.background, other.background),
            font: pick_opt(self.font, other.font),
        };
    }
}

} // verus!
