use super::style::GenericStyle;
use super::{LayoutNode, NodeData};
use crate::config::{ConfigError, ConfigNode};
use vstd::prelude::*;

verus! {

/// A Column of any number of children.
pub fn new(node: &ConfigNode, children: Vec<LayoutNode>, style: GenericStyle) -> (r: Result<LayoutNode, ConfigError>)
    ensures
        r matches Ok(LayoutNode::Column(d)) && d.children == children && d.style == style,
{
    Ok(LayoutNode::Column(NodeData { children, style }))
}

} // verus!
