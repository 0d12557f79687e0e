use crate::layout::style::StyleAttribute;
use vstd::prelude::*;
use vstd::string::*;

verus! {

/// The name of the top-level node that holds the layout tree.
pub const LAYOUT_KEY: &'static str = "Layout";

/// The name of the top-level node that holds the style rules.
pub const STYLES_KEY: &'static str = "Styles";

/// A stretch of the configuration text, by byte offset and length.
#[derive(Debug, Clone, Copy, PartialEq, Eq, Structural)]
pub struct Span {
    pub offset: usize,
    pub len: usize,
}

/// A value written in the configuration document.
pub enum ConfigValue {
    String(String),
    Integer(i64),
    /// A floating-point literal, by the bits of its `f64`.
    Float(u64),
    Bool(bool),
    Null,
}

/// An argument (positional, when `name` is absent) or a property of a node.
pub struct ConfigEntry {
    pub name: Option<String>,
    pub value: ConfigValue,
    pub span: Span,
}

/// A node of the configuration document: its name, its entries, and the
/// nodes of its block.
pub struct ConfigNode {
    pub name: String,
    pub name_span: Span,
    pub span: Span,
    pub entries: Vec<ConfigEntry>,
    pub children: Vec<ConfigNode>,
}

/// The kinds of layout node.
#[derive(Debug, Clone, Copy, PartialEq, Eq, Structural)]
pub enum NodeKind {
    Container,
    Row,
    Column,
    Query,
    Items,
    ItemKey,
    Text,
}

/// What is wrong with the children of a layout node.
#[derive(Debug, Clone, Copy, PartialEq, Eq, Structural)]
pub enum ChildrenProblem {
    /// The node must have exactly `expected` children but has `found`.
    WrongCount { kind: NodeKind, expected: usize, found: usize },
    /// The child of an Items node is not a Container, Row or Column.
    ItemsChild,
    /// An Items node stands under a parent other than Row or Column (`None`
    /// when the parent's own name is not a node kind).
    ItemsParent { parent: Option<NodeKind> },
}

/// An error in the configuration, with the place it was found.
#[derive(Debug, Clone, Copy, PartialEq, Eq, Structural)]
pub enum ConfigError {
    InvalidLayoutNode { node_src: Span },
    InvalidChildren { parent_src: Span, problem: ChildrenProblem },
    MissingArgument { node_src: Span },
    InvalidArgument { arg_src: Span },
    EmptyStyle { attr_src: Span },
    InvalidStyleAttribute { attr_src: Span },
    InvalidValue { attr_src: Span, value_src: Span, attribute: StyleAttribute },
    FontNotFound { value_src: Span },
}

/// Whether two strings hold the same characters.
pub fn same_text(a: &str, b: &str) -> (r: bool)
    ensures
        r == (a@ == b@),
{
    let n = a.unicode_len();
    if n != b.unicode_len() {
        return false;
    }
    let mut i: usize = 0;
    while i < n
        invariant
            n == a@.len() == b@.len(),
            i <= n,
            forall|k: int| 0 <= k < i ==> a@[k] == b@[k],
        decreases n - i,
    {
        if a.get_char(i) != b.get_char(i) {
            return false;
        }
        i = i + 1;
    }
    assert(a@ =~= b@);
    true
}

/// The first positional argument of a node's entry list, if any.
pub open spec fn first_argument(entries: Seq<ConfigEntry>) -> Option<int> {
    if exists|i: int| 0 <= i < entries.len() && entries[i].name is None {
        Some(choose|i: int| 0 <= i < entries.len() && entries[i].name is None && forall|j: int| 0 <= j < i ==> entries[j].name is Some)
    } else {
        None
    }
}

impl ConfigNode {
    /// The position of the node's first positional argument.
    pub fn first_argument(&self) -> (r: Option<usize>)
        ensures
            match r {
                Some(i) => first_argument(self.entries@) == Some(i as int) && i < self.entries@.len()
                    && self.entries@[i as int].name is None,
                None => first_argument(self.entries@) is None,
            },
    {
        let mut i: usize = 0;
        while i < self.entries.len()
            invariant
                i <= self.entries@.len(),
                forall|j: int| 0 <= j < i ==> self.entries@[j].name is Some,
            decreases self.entries@.len() - i,
        {
            if self.entries[i].name.is_none() {
                proof {
                    let w = choose|w: int| 0 <= w < self.entries@.len() && self.entries@[w].name is None && forall|j: int| 0 <= j < w ==> self.entries@[j].name is Some;
                    if w < i {
                        assert(self.entries@[w].name is Some);
                    }
                    if w > i {
                        assert(self.entries@[i as int].name is Some);
                    }
                }
                return Some(i);
            }
            i = i + 1;
        }
        None
    }
}

} // verus!
