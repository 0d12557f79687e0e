use crate::config::{same_text, ChildrenProblem, ConfigEntry, ConfigError, ConfigNode, ConfigValue, NodeKind};
use crate::{Reflective, UpdateFromOther};
use vstd::prelude::*;

use self::container::ContainerNodeData;
use self::item_key::ItemKeyNodeData;
use self::items::ItemsNodeData;
use self::query::QueryNodeData;
use self::style::{merge, resolve, GenericStyle, State, StyleLookup};
use self::text::TextNodeData;

pub mod column;
pub mod container;
pub mod item_key;
pub mod items;
pub mod query;
pub mod row;
pub mod style;
pub mod text;

verus! {

/// A node that lays out any number of children.
pub struct NodeData {
    pub children: Vec<LayoutNode>,
    pub style: GenericStyle,
}

/// A node of the layout tree, with its resolved styles.
pub enum LayoutNode {
    Container(ContainerNodeData),
    Row(NodeData),
    Column(NodeData),
    Query(QueryNodeData),
    Items(ItemsNodeData),
    ItemKey(ItemKeyNodeData),
    Text(TextNodeData),
}

/// The node kind names, in declaration order.
pub open spec fn node_kind_names() -> Seq<Seq<char>> {
    seq!["Container"@, "Row"@, "Column"@, "Query"@, "Items"@, "ItemKey"@, "Text"@]
}

impl Reflective for LayoutNode {
    open spec fn attr_names() -> Seq<Seq<char>> {
        node_kind_names()
    }

    fn reflect_attr_names() -> (r: Vec<&'static str>) {
        let r = vec!["Container", "Row", "Column", "Query", "Items", "ItemKey", "Text"];
        assert(r@.map_values(|s: &'static str| s@) =~= node_kind_names());
        r
    }
}

/// The node kind that a node name stands for.
pub open spec fn kind_of(name: Seq<char>) -> Option<NodeKind> {
    if name == "Container"@ || name == "Layout"@ {
        Some(NodeKind::Container)
    } else if name == "Row"@ {
        Some(NodeKind::Row)
    } else if name == "Column"@ || name == "Col"@ {
        Some(NodeKind::Column)
    } else if name == "Text"@ {
        Some(NodeKind::Text)
    } else if name == "Query"@ {
        Some(NodeKind::Query)
    } else if name == "Items"@ {
        Some(NodeKind::Items)
    } else if name == "ItemKey"@ {
        Some(NodeKind::ItemKey)
    } else {
        None
    }
}

impl NodeKind {
    /// The node kind that a node name stands for.
    pub fn of_name(name: &str) -> (r: Option<NodeKind>)
        ensures
            r == kind_of(name@),
    {
        if same_text(name, "Container") || same_text(name, "Layout") {
            Some(NodeKind::Container)
        } else if same_text(name, "Row") {
            Some(NodeKind::Row)
        } else if same_text(name, "Column") || same_text(name, "Col") {
            Some(NodeKind::Column)
        } else if same_text(name, "Text") {
            Some(NodeKind::Text)
        } else if same_text(name, "Query") {
            Some(NodeKind::Query)
        } else if same_text(name, "Items") {
            Some(NodeKind::Items)
        } else if same_text(name, "ItemKey") {
            Some(NodeKind::ItemKey)
        } else {
            None
        }
    }
}

/// The node's classes: its positional string arguments, in order.
pub open spec fn class_names(entries: Seq<ConfigEntry>) -> Seq<Seq<char>>
    decreases entries.len(),
{
    if entries.len() == 0 {
        Seq::empty()
    } else {
        let prev = class_names(entries.drop_last());
        match (entries.last().name, entries.last().value) {
            (None, ConfigValue::String(s)) => prev.push(s@),
            _ => prev,
        }
    }
}

/// The position of the last property named `name`, if any.
pub open spec fn last_property(entries: Seq<ConfigEntry>, name: Seq<char>) -> Option<int>
    decreases entries.len(),
{
    if entries.len() == 0 {
        None
    } else {
        match entries.last().name {
            Some(n) => if n@ == name {
                Some(entries.len() - 1)
            } else {
                last_property(entries.drop_last(), name)
            },
            None => last_property(entries.drop_last(), name),
        }
    }
}

/// The error for a node whose number of children is not `expected`.
pub open spec fn count_error(node: ConfigNode, kind: NodeKind, expected: usize) -> Option<ConfigError> {
    if node.children@.len() == expected {
        None
    } else {
        Some(
            ConfigError::InvalidChildren {
                parent_src: node.span,
                problem: ChildrenProblem::WrongCount { kind, expected, found: node.children@.len() as usize },
            },
        )
    }
}

/// What is wrong with a node itself once its children are fine.
pub open spec fn own_error(node: ConfigNode) -> Option<ConfigError> {
    match kind_of(node.name@) {
        None => Some(ConfigError::InvalidLayoutNode { node_src: node.name_span }),
        Some(NodeKind::Container) => count_error(node, NodeKind::Container, 1),
        Some(NodeKind::Row) | Some(NodeKind::Column) => None,
        Some(NodeKind::Query) => count_error(node, NodeKind::Query, 0),
        Some(NodeKind::ItemKey) => count_error(node, NodeKind::ItemKey, 0),
        Some(NodeKind::Text) => match count_error(node, NodeKind::Text, 0) {
            Some(e) => Some(e),
            None => match last_property(node.entries@, "value"@) {
                None => Some(ConfigError::MissingArgument { node_src: node.span }),
                Some(i) => if node.entries@[i].value is String {
                    None
                } else {
                    Some(ConfigError::InvalidArgument { arg_src: node.entries@[i].span })
                },
            },
        },
        Some(NodeKind::Items) => match count_error(node, NodeKind::Items, 1) {
            Some(e) => Some(e),
            None => {
                let k = kind_of(node.children@[0].name@);
                if k == Some(NodeKind::Container) || k == Some(NodeKind::Row) || k == Some(NodeKind::Column) {
                    None
                } else {
                    Some(ConfigError::InvalidChildren { parent_src: node.span, problem: ChildrenProblem::ItemsChild })
                }
            },
        },
    }
}

/// The first error among the first `k` children of `node`: an error inside a
/// child, or an Items child under a parent other than Row or Column.
pub open spec fn children_error(node: ConfigNode, k: int) -> Option<ConfigError>
    decreases node, k,
{
    if k <= 0 || k > node.children@.len() {
        None
    } else {
        match children_error(node, k - 1) {
            Some(e) => Some(e),
            None => {
                let c = node.children[k - 1];
                match layout_error(c) {
                    Some(e) => Some(e),
                    None => {
                        let p = kind_of(node.name@);
                        if kind_of(c.name@) == Some(NodeKind::Items) && p != Some(NodeKind::Row) && p != Some(
                            NodeKind::Column,
                        ) {
                            Some(
                                ConfigError::InvalidChildren {
                                    parent_src: node.span,
                                    problem: ChildrenProblem::ItemsParent { parent: p },
                                },
                            )
                        } else {
                            None
                        }
                    },
                }
            },
        }
    }
}

/// The first error in the tree rooted at `node`, children first, or none.
pub open spec fn layout_error(node: ConfigNode) -> Option<ConfigError>
    decreases node, node.children@.len() + 1,
{
    match children_error(node, node.children@.len() as int) {
        Some(e) => Some(e),
        None => own_error(node),
    }
}

/// `n` is the layout node built from `cfg`: the kind its name gives, its
/// default style resolved from its type and classes, each further state's
/// style merged onto it, and children built from `cfg`'s children.
pub open spec fn built_from(n: LayoutNode, cfg: ConfigNode, rules: Map<Seq<char>, GenericStyle>) -> bool
    decreases n,
{
    let classes = class_names(cfg.entries@);
    let base = resolve(rules, classes, cfg.name@, State::Default);
    let kind = kind_of(cfg.name@);
    match n {
        LayoutNode::Container(d) => {
            &&& kind == Some(NodeKind::Container)
            &&& cfg.children@.len() == 1
            &&& d.style == base
            &&& built_from(*d.child, cfg.children[0], rules)
        },
        LayoutNode::Row(d) => {
            &&& kind == Some(NodeKind::Row)
            &&& d.style == base
            &&& d.children@.len() == cfg.children@.len()
            &&& forall|i: int| 0 <= i < d.children@.len() ==> built_from(d.children[i], cfg.children[i], rules)
        },
        LayoutNode::Column(d) => {
            &&& kind == Some(NodeKind::Column)
            &&& d.style == base
            &&& d.children@.len() == cfg.children@.len()
            &&& forall|i: int| 0 <= i < d.children@.len() ==> built_from(d.children[i], cfg.children[i], rules)
        },
        LayoutNode::Query(d) => {
            &&& kind == Some(NodeKind::Query)
            &&& d.style == base
            &&& d.focused_style == merge(base, resolve(rules, classes, cfg.name@, State::Focused))
            &&& d.hovered_style == merge(base, resolve(rules, classes, cfg.name@, State::Hovered))
        },
        LayoutNode::Items(d) => {
            &&& kind == Some(NodeKind::Items)
            &&& cfg.children@.len() == 1
            &&& d.style == base
            &&& d.hovered_style == merge(base, resolve(rules, classes, cfg.name@, State::Hovered))
            &&& d.pressed_style == merge(base, resolve(rules, classes, cfg.name@, State::Pressed))
            &&& built_from(*d.child, cfg.children[0], rules)
        },
        LayoutNode::ItemKey(d) => {
            &&& kind == Some(NodeKind::ItemKey)
            &&& d.style == base
            &&& d.hovered_style == merge(base, resolve(rules, classes, cfg.name@, State::Hovered))
            &&& d.selected_style == merge(base, resolve(rules, classes, cfg.name@, State::Selected))
        },
        LayoutNode::Text(d) => {
            &&& kind == Some(NodeKind::Text)
            &&& d.style == base
            &&& ConfigValue::String(d.value) == cfg.entries@[last_property(cfg.entries@, "value"@)->0].value
        },
    }
}

/// Fails unless the node has exactly `constraint` children.
pub fn validate_children(node: &ConfigNode, n_children: usize, constraint: usize, kind: NodeKind) -> (r: Result<(), ConfigError>)
    requires
        n_children == node.children@.len(),
    ensures
        match count_error(*node, kind, constraint) {
            Some(e) => r == Err::<(), ConfigError>(e),
            None => r is Ok,
        },
{
    if constraint != n_children {
        return Err(
            ConfigError::InvalidChildren {
                parent_src: node.span,
                problem: ChildrenProblem::WrongCount { kind, expected: constraint, found: n_children },
            },
        );
    }
    Ok(())
}

/// The node's classes: its positional string arguments, in order.
pub fn class_list(node: &ConfigNode) -> (r: Vec<String>)
    ensures
        style::string_views(r@) == class_names(node.entries@),
{
    let mut r: Vec<String> = Vec::new();
    let mut i: usize = 0;
    while i < node.entries.len()
        invariant
            i <= node.entries@.len(),
            style::string_views(r@) == class_names(node.entries@.subrange(0, i as int)),
        decreases node.entries@.len() - i,
    {
        proof {
            assert(node.entries@.subrange(0, i as int + 1).drop_last() == node.entries@.subrange(0, i as int));
        }
        let e = &node.entries[i];
        if e.name.is_none() {
            if let ConfigValue::String(s) = &e.value {
                let ghost before = r@;
                r.push(s.clone());
                proof {
                    assert(style::string_views(r@) =~= style::string_views(before).push(s@));
                }
            }
        }
        i = i + 1;
    }
    proof {
        assert(node.entries@.subrange(0, node.entries@.len() as int) == node.entries@);
    }
    r
}

proof fn lemma_children_error_persists(node: ConfigNode, k: int)
    requires
        0 <= k <= node.children@.len(),
        children_error(node, k) is Some,
    ensures
        children_error(node, node.children@.len() as int) == children_error(node, k),
    decreases node.children@.len() - k,
{
    if k < node.children@.len() {
        lemma_children_error_persists(node, k + 1);
    }
}

impl LayoutNode {
    /// Builds the layout tree for `node`: each child first, in order, stopping
    /// at the first error; an Items child only under a Row or a Column; then
    /// the node's own kind, children and arguments checked, and its styles
    /// resolved from its type and classes.
    pub fn new(node: &ConfigNode, style_lookup: &StyleLookup) -> (r: Result<Self, ConfigError>)
        requires
            style_lookup.wf(),
        ensures
            match r {
                Ok(n) => layout_error(*node) is None && built_from(n, *node, style_lookup.rules()),
                Err(e) => layout_error(*node) == Some(e),
            },
        decreases node,
    {
        let ghost rules = style_lookup.rules();
        let node_type = node.name.as_str();
        let kind = NodeKind::of_name(node_type);
        let takes_items = match kind {
            Some(NodeKind::Row) | Some(NodeKind::Column) => true,
            _ => false,
        };
        let mut children: Vec<LayoutNode> = Vec::new();
        let mut i: usize = 0;
        while i < node.children.len()
            invariant
                style_lookup.wf(),
                rules == style_lookup.rules(),
                kind == kind_of(node.name@),
                takes_items == (kind == Some(NodeKind::Row) || kind == Some(NodeKind::Column)),
                i <= node.children@.len(),
                children@.len() == i,
                children_error(*node, i as int) is None,
                forall|j: int| 0 <= j < i ==> built_from(#[trigger] children@[j], node.children[j], rules),
            decreases node.children@.len() - i,
        {
            proof {
                assert(decreases_to!(node.children => node.children[i as int]));
            }
            let c = match Self::new(&node.children[i], style_lookup) {
                Ok(c) => c,
                Err(e) => {
                    proof {
                        lemma_children_error_persists(*node, i as int + 1);
                    }
                    return Err(e);
                },
            };
            proof {
                lemma_built_kind(c, node.children[i as int], rules);
            }
            if let LayoutNode::Items(_) = c {
                if !takes_items {
                    proof {
                        lemma_children_error_persists(*node, i as int + 1);
                    }
                    return Err(
                        ConfigError::InvalidChildren {
                            parent_src: node.span,
                            problem: ChildrenProblem::ItemsParent { parent: kind },
                        },
                    );
                }
            }
            children.push(c);
            i = i + 1;
        }
        let style_names = class_list(node);
        let style = style_lookup.style_for(&style_names, node_type, State::Default);
        let ghost classes = class_names(node.entries@);
        proof {
            if node.children@.len() > 0 {
                lemma_built_kind(children@[0], node.children[0], rules);
            }
        }
        let r = match kind {
            None => Err(ConfigError::InvalidLayoutNode { node_src: node.name_span }),
            Some(NodeKind::Container) => container::new(node, children, style),
            Some(NodeKind::Row) => row::new(children, style),
            Some(NodeKind::Column) => column::new(node, children, style),
            Some(NodeKind::Text) => text::new(node, children, style),
            Some(NodeKind::Query) => {
                let mut focused_style = style;
                focused_style.update_from(&style_lookup.style_for(&style_names, node_type, State::Focused));
                let mut hovered_style = style;
                hovered_style.update_from(&style_lookup.style_for(&style_names, node_type, State::Hovered));
                query::new(node, children, style, focused_style, hovered_style)
            },
            Some(NodeKind::Items) => {
                let mut hovered_style = style;
                hovered_style.update_from(&style_lookup.style_for(&style_names, node_type, State::Hovered));
                let mut pressed_style = style;
                pressed_style.update_from(&style_lookup.style_for(&style_names, node_type, State::Pressed));
                items::new(node, children, style, hovered_style, pressed_style)
            },
            Some(NodeKind::ItemKey) => {
                let mut hovered_style = style;
                hovered_style.update_from(&style_lookup.style_for(&style_names, node_type, State::Hovered));
                let mut selected_style = style;
                selected_style.update_from(&style_lookup.style_for(&style_names, node_type, State::Selected));
                item_key::new(node, children, style, hovered_style, selected_style)
            },
        };
        r
    }
}

/// The variant of a built node is the kind that its configuration names.
pub proof fn lemma_built_kind(n: LayoutNode, cfg: ConfigNode, rules: Map<Seq<char>, GenericStyle>)
    requires
        built_from(n, cfg, rules),
    ensures
        kind_of(cfg.name@) == Some(NodeKind::Container) <==> n is Container,
        kind_of(cfg.name@) == Some(NodeKind::Row) <==> n is Row,
        kind_of(cfg.name@) == Some(NodeKind::Column) <==> n is Column,
        kind_of(cfg.name@) == Some(NodeKind::Items) <==> n is Items,
{
}

} // verus!
