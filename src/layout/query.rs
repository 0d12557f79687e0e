use super::style::GenericStyle;
use super::{count_error, validate_children, LayoutNode};
use crate::config::{ConfigError, ConfigNode, NodeKind};
use vstd::prelude::*;

verus! {

/// The query input, with its styles when focused and when hovered.
pub struct QueryNodeData {
    pub style: GenericStyle,
    pub focused_style: GenericStyle,
    pub hovered_style: GenericStyle,
}

/// The query input; it takes no children.
pub fn new(
    node: &ConfigNode,
    children: Vec<LayoutNode>,
    style: GenericStyle,
    focused_style: GenericStyle,
    hovered_style: GenericStyle,
) -> (r: Result<LayoutNode, ConfigError>)
    requires
        children@.len() == node.children@.len(),
    ensures
        match count_error(*node, NodeKind::Query, 0) {
            Some(e) => r == Err::<LayoutNode, ConfigError>(e),
            None => r == Ok::<LayoutNode, ConfigError>(LayoutNode::Query(QueryNodeData { style, focused_style, hovered_style })),
        },
{
    validate_children(node, children.len(), 0, NodeKind::Query)?;
    Ok(LayoutNode::Query(QueryNodeData { style, focused_style, hovered_style }))
}

} // verus!
