//! The values and nodes of a parsed program, and what they stand for in
//! contracts.

use vstd::prelude::*;

verus! {

/// The mathematical counterpart of a [`Value`].
pub enum ValueModel {
    NodeRef(nat),
    BackReference(nat),
    Name(Seq<char>),
    Integer(int),
    Float(Seq<char>),
}

/// One entry of a sub's body, or its modifier.
#[derive(Debug, PartialEq)]
pub enum Value {
    /// A nested sub, by its index in the arena. The nested sub belongs to the
    /// node that holds this value.
    NodeRef(usize),
    /// A reference `&N` to the node with index `N`, which it does not own.
    BackReference(usize),
    /// A bare identifier that is not bound to any sub yet.
    Name(String),
    /// An integer literal.
    Integer(i64),
    /// A literal with a fraction, kept as it was written: digits, a dot,
    /// digits. Its numeric value is left to the caller.
    Float(String),
}

impl DeepView for Value {
    type V = ValueModel;

    open spec fn deep_view(&self) -> ValueModel {
        match *self {
            Value::NodeRef(i) => ValueModel::NodeRef(i as nat),
            Value::BackReference(i) => ValueModel::BackReference(i as nat),
            Value::Name(s) => ValueModel::Name(s@),
            Value::Integer(i) => ValueModel::Integer(i as int),
            Value::Float(s) => ValueModel::Float(s@),
        }
    }
}

/// The mathematical counterpart of a [`Node`].
pub struct NodeModel {
    pub name: Seq<char>,
    pub children: Seq<ValueModel>,
    pub modifier: Option<ValueModel>,
    pub parent: Option<nat>,
}

impl NodeModel {
    /// A node that was just opened below `parent`: no name, no children, no
    /// modifier.
    pub open spec fn fresh(parent: Option<nat>) -> NodeModel {
        NodeModel { name: Seq::empty(), children: Seq::empty(), modifier: None, parent }
    }

    /// The node under another name.
    pub open spec fn with_name(self, name: Seq<char>) -> NodeModel {
        NodeModel { name, ..self }
    }

    /// The node with one more child.
    pub open spec fn with_child(self, child: ValueModel) -> NodeModel {
        NodeModel { children: self.children.push(child), ..self }
    }

    /// The node with a modifier.
    pub open spec fn with_modifier(self, modifier: ValueModel) -> NodeModel {
        NodeModel { modifier: Some(modifier), ..self }
    }
}

/// A sub: the single syntactic unit of the language.
#[derive(Debug, PartialEq)]
pub struct Node {
    /// The sub's name; empty when it has none.
    pub name: String,
    /// The body, in source order.
    pub children: Vec<Value>,
    /// What follows the body's closing bracket, if anything.
    pub modifier: Option<Value>,
    /// The enclosing sub; `None` for the outermost one.
    pub parent: Option<usize>,
}

/// An index, or none, as a mathematical number.
pub open spec fn index_model(i: Option<usize>) -> Option<nat> {
    match i {
        Some(i) => Some(i as nat),
        None => None,
    }
}

impl DeepView for Node {
    type V = NodeModel;

    open spec fn deep_view(&self) -> NodeModel {
        NodeModel {
            name: self.name@,
            children: self.children.deep_view(),
            modifier: self.modifier.deep_view(),
            parent: index_model(self.parent),
        }
    }
}

impl Node {
    /// A sub that was just opened below `parent`.
    pub fn new(parent: Option<usize>) -> (node: Node)
        ensures
            node.deep_view() == NodeModel::fresh(index_model(parent)),
    {
        let node = Node { name: String::new(), children: Vec::new(), modifier: None, parent };
        assert(node.children.deep_view() =~= Seq::empty());
        node
    }
}

} // verus!
