use super::style::GenericStyle;
use super::{LayoutNode, NodeData};
use crate::config::ConfigError;
use vstd::prelude::*;

verus! {

/// A Row of any number of children.
pub fn new(children: Vec<LayoutNode>, style: GenericStyle) -> (r: Result<LayoutNode, ConfigError>)
    ensures
        r matches Ok(LayoutNode::Row(d)) && d.children == children && d.style == style,
{
    Ok(LayoutNode::Row(NodeData { children, style }))
}

} // verus!
