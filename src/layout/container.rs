use super::style::GenericStyle;
use super::{count_error, validate_children, LayoutNode};
use crate::config::{ConfigError, ConfigNode, NodeKind};
use vstd::prelude::*;

verus! {

/// A node with exactly one child.
pub struct ContainerNodeData {
    pub child: Box<LayoutNode>,
    pub style: GenericStyle,
}

/// A Container around its only child.
pub fn new(node: &ConfigNode, children: Vec<LayoutNode>, style: GenericStyle) -> (r: Result<LayoutNode, ConfigError>)
    requires
        children@.len() == node.children@.len(),
    ensures
        match count_error(*node, NodeKind::Container, 1) {
            Some(e) => r == Err::<LayoutNode, ConfigError>(e),
            None => r matches Ok(LayoutNode::Container(d)) && *d.child == children@[0] && d.style == style,
        },
{
    validate_children(node, children.len(), 1, NodeKind::Container)?;
    let mut children = children;
    let child = children.pop().unwrap();
    Ok(LayoutNode::Container(ContainerNodeData { child: Box::new(child), style }))
}

} // verus!
