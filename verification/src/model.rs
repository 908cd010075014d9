//! The ink runtime document: containers of runtime nodes.
use vstd::prelude::*;

use crate::json::text_lt;

verus! {

/// A loaded runtime document.
#[derive(Debug)]
pub struct InkDoc {
    pub ink_version: i32,
    pub root: Container,
}

/// A runtime container: ordered content, named content, an optional name
/// and optional flags.
///
/// `named` holds each name once, in increasing order of the names
/// (`names_in_order`).
#[derive(Debug)]
pub struct Container {
    pub content: Vec<RuntimeNode>,
    pub named: Vec<(String, RuntimeNode)>,
    pub name: Option<String>,
    pub flags: Option<i32>,
}

/// One node of runtime content. A float is held by its IEEE-754 bits.
#[derive(Debug)]
pub enum RuntimeNode {
    Str(String),
    Newline,
    Int(i64),
    Float(u64),
    Bool(bool),
    Container(Container),
    Command(String),
    DivertTarget(String),
    UnknownJson(String),
    Null,
}

/// Errors of the runtime model.
#[derive(Debug, Clone, PartialEq, Eq)]
pub enum InkModelError {
    UnsupportedNode(String),
}

/// The view of a [`RuntimeNode`].
pub enum SpecNode {
    Str(Seq<char>),
    Newline,
    Int(i64),
    Float(u64),
    Bool(bool),
    Container(SpecContainer),
    Command(Seq<char>),
    DivertTarget(Seq<char>),
    UnknownJson(Seq<char>),
    Null,
}

/// The view of a [`Container`].
pub struct SpecContainer {
    pub content: Seq<SpecNode>,
    pub named: Seq<(Seq<char>, SpecNode)>,
    pub name: Option<Seq<char>>,
    pub flags: Option<i32>,
}

/// The view of an [`InkDoc`].
pub struct SpecDoc {
    pub ink_version: i32,
    pub root: SpecContainer,
}

/// Each name of the named content once, in increasing order.
pub open spec fn names_in_order(named: Seq<(Seq<char>, SpecNode)>) -> bool {
    forall|i: int, j: int| 0 <= i < j < named.len() ==> text_lt(named[i].0, named[j].0)
}

/// The view of an optional string.
pub open spec fn opt_string_view(o: Option<String>) -> Option<Seq<char>> {
    match o {
        Some(s) => Some(s@),
        None => None,
    }
}

/// The view of a node.
pub open spec fn node_view(n: RuntimeNode) -> SpecNode
    decreases n, 0int,
{
    match n {
        RuntimeNode::Str(s) => SpecNode::Str(s@),
        RuntimeNode::Newline => SpecNode::Newline,
        RuntimeNode::Int(i) => SpecNode::Int(i),
        RuntimeNode::Float(b) => SpecNode::Float(b),
        RuntimeNode::Bool(b) => SpecNode::Bool(b),
        RuntimeNode::Container(c) => SpecNode::Container(container_view(c)),
        RuntimeNode::Command(s) => SpecNode::Command(s@),
        RuntimeNode::DivertTarget(s) => SpecNode::DivertTarget(s@),
        RuntimeNode::UnknownJson(s) => SpecNode::UnknownJson(s@),
        RuntimeNode::Null => SpecNode::Null,
    }
}

/// The views of a sequence of nodes.
pub open spec fn nodes_view(s: Seq<RuntimeNode>) -> Seq<SpecNode>
    decreases s, 0int,
{
    if s.len() == 0 {
        seq![]
    } else {
        nodes_view(s.subrange(0, s.len() - 1)).push(node_view(s[s.len() - 1]))
    }
}

/// The views of named nodes.
pub open spec fn named_view(s: Seq<(String, RuntimeNode)>) -> Seq<(Seq<char>, SpecNode)>
    decreases s, 0int,
{
    if s.len() == 0 {
        seq![]
    } else {
        named_view(s.subrange(0, s.len() - 1)).push(
            (s[s.len() - 1].0@, node_view(s[s.len() - 1].1)),
        )
    }
}

/// The view of a container.
pub open spec fn container_view(c: Container) -> SpecContainer
    decreases c, 1int,
{
    SpecContainer {
        content: nodes_view(c.content@),
        named: named_view(c.named@),
        name: opt_string_view(c.name),
        flags: c.flags,
    }
}

impl View for RuntimeNode {
    type V = SpecNode;

    open spec fn view(&self) -> SpecNode {
        node_view(*self)
    }
}

impl View for Container {
    type V = SpecContainer;

    open spec fn view(&self) -> SpecContainer {
        container_view(*self)
    }
}

impl View for InkDoc {
    type V = SpecDoc;

    open spec fn view(&self) -> SpecDoc {
        SpecDoc { ink_version: self.ink_version, root: container_view(self.root) }
    }
}

/// The text that a node contributes: its string, or a newline.
pub open spec fn text_fragment(n: SpecNode) -> Option<Seq<char>> {
    match n {
        SpecNode::Str(s) => Some(s),
        SpecNode::Newline => Some("\n"@),
        _ => None,
    }
}

impl Default for Container {
    fn default() -> (c: Self)
        ensures
            c@ == (SpecContainer { content: seq![], named: seq![], name: None, flags: None }),
    {
        let c = Container { content: Vec::new(), named: Vec::new(), name: None, flags: None };
        assert(nodes_view(c.content@) =~= seq![]);
        assert(named_view(c.named@) =~= seq![]);
        c
    }
}

impl RuntimeNode {
    /// The text that this node contributes: a string's text, or a newline.
    pub fn as_text_fragment(&self) -> (r: Option<&str>)
        ensures
            match r {
                Some(t) => text_fragment(self@) == Some(t@),
                None => text_fragment(self@) is None,
            },
    {
        match self {
            RuntimeNode::Str(s) => Some(s.as_str()),
            RuntimeNode::Newline => Some("\n"),
            _ => None,
        }
    }
}

} // verus!
