use super::style::GenericStyle;
use super::{count_error, validate_children, LayoutNode};
use crate::config::{ChildrenProblem, ConfigError, ConfigNode, NodeKind};
use vstd::prelude::*;

verus! {

/// The repeater: its child is laid out once per visible entry.
pub struct ItemsNodeData {
    pub child: Box<LayoutNode>,
    pub style: GenericStyle,
    pub hovered_style: GenericStyle,
    pub pressed_style: GenericStyle,
}

/// The repeater around its only child, which must be a Container, a Row or a
/// Column.
pub fn new(
    node: &ConfigNode,
    children: Vec<LayoutNode>,
    style: GenericStyle,
    hovered_style: GenericStyle,
    pressed_style: GenericStyle,
) -> (r: Result<LayoutNode, ConfigError>)
    requires
        children@.len() == node.children@.len(),
    ensures
        match count_error(*node, NodeKind::Items, 1) {
            Some(e) => r == Err::<LayoutNode, ConfigError>(e),
            None => if children@[0] is Container || children@[0] is Row || children@[0] is Column {
                r matches Ok(LayoutNode::Items(d)) && *d.child == children@[0] && d.style == style && d.hovered_style
                    == hovered_style && d.pressed_style == pressed_style
            } else {
                r == Err::<LayoutNode, ConfigError>(
                    ConfigError::InvalidChildren { parent_src: node.span, problem: ChildrenProblem::ItemsChild },
                )
            },
        },
{
    validate_children(node, children.len(), 1, NodeKind::Items)?;
    match &children[0] {
        LayoutNode::Container(_) | LayoutNode::Row(_) | LayoutNode::Column(_) => {},
        _ => {
            return Err(ConfigError::InvalidChildren { parent_src: node.span, problem: ChildrenProblem::ItemsChild });
        },
    }
    let mut children = children;
    let child = children.pop().unwrap();
    Ok(LayoutNode::Items(ItemsNodeData { child: Box::new(child), style, hovered_style, pressed_style }))
}

} // verus!
