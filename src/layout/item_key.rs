use super::style::GenericStyle;
use super::{count_error, validate_children, LayoutNode};
use crate::config::{ConfigError, ConfigNode, NodeKind};
use vstd::prelude::*;

verus! {

/// The key of the entry being laid out, with its styles when hovered and
/// when selected.
pub struct ItemKeyNodeData {
    pub style: GenericStyle,
    pub hovered_style: GenericStyle,
    pub selected_style: GenericStyle,
}

/// The key of the current entry; it takes no children.
pub fn new(
    node: &ConfigNode,
    children: Vec<LayoutNode>,
    style: GenericStyle,
    hovered_style: GenericStyle,
    selected_style: GenericStyle,
) -> (r: Result<LayoutNode, ConfigError>)
    requires
        children@.len() == node.children@.len(),
    ensures
        match count_error(*node, NodeKind::ItemKey, 0) {
            Some(e) => r == Err::<LayoutNode, ConfigError>(e),
            None => r == Ok::<LayoutNode, ConfigError>(LayoutNode::ItemKey(ItemKeyNodeData { style, hovered_style, selected_style })),
        },
{
    validate_children(node, children.len(), 0, NodeKind::ItemKey)?;
    Ok(LayoutNode::ItemKey(ItemKeyNodeData { style, hovered_style, selected_style }))
}

} // verus!
