use super::style::GenericStyle;
use super::{count_error, last_property, validate_children, LayoutNode};
use crate::config::{same_text, ConfigError, ConfigNode, ConfigValue, NodeKind};
use vstd::prelude::*;

verus! {

/// A fixed piece of text.
pub struct TextNodeData {
    pub style: GenericStyle,
    pub value: String,
}

/// A Text node: no children, and a string `value` property.
pub fn new(node: &ConfigNode, children: Vec<LayoutNode>, style: GenericStyle) -> (r: Result<LayoutNode, ConfigError>)
    requires
        children@.len() == node.children@.len(),
    ensures
        match count_error(*node, NodeKind::Text, 0) {
            Some(e) => r == Err::<LayoutNode, ConfigError>(e),
            None => match last_property(node.entries@, "value"@) {
                None => r == Err::<LayoutNode, ConfigError>(ConfigError::MissingArgument { node_src: node.span }),
                Some(i) => match node.entries@[i].value {
                    ConfigValue::String(s) => r matches Ok(LayoutNode::Text(d)) && d.value == s && d.style == style,
                    _ => r == Err::<LayoutNode, ConfigError>(ConfigError::InvalidArgument { arg_src: node.entries@[i].span }),
                },
            },
        },
{
    validate_children(node, children.len(), 0, NodeKind::Text)?;
    match value_property(node) {
        Some(i) => match &node.entries[i].value {
            ConfigValue::String(v) => Ok(LayoutNode::Text(TextNodeData { style, value: v.clone() })),
            _ => Err(ConfigError::InvalidArgument { arg_src: node.entries[i].span }),
        },
        None => Err(ConfigError::MissingArgument { node_src: node.span }),
    }
}

/// The position of the node's last `value` property.
fn value_property(node: &ConfigNode) -> (r: Option<usize>)
    ensures
        match r {
            Some(i) => last_property(node.entries@, "value"@) == Some(i as int) && i < node.entries@.len(),
            None => last_property(node.entries@, "value"@) is None,
        },
{
    let mut found: Option<usize> = None;
    let mut i: usize = 0;
    while i < node.entries.len()
        invariant
            i <= node.entries@.len(),
            match found {
                Some(f) => last_property(node.entries@.subrange(0, i as int), "value"@) == Some(f as int) && f < i,
                None => last_property(node.entries@.subrange(0, i as int), "value"@) is None,
            },
        decreases node.entries@.len() - i,
    {
        proof {
            assert(node.entries@.subrange(0, i as int + 1).drop_last() == node.entries@.subrange(0, i as int));
        }
        match &node.entries[i].name {
            Some(n) => {
                if same_text(n.as_str(), "value") {
                    found = Some(i);
                }
            },
            None => {},
        }
        i = i + 1;
    }
    proof {
        assert(node.entries@.subrange(0, node.entries@.len() as int) == node.entries@);
    }
    found
}

} // verus!
