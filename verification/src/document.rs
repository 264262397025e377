//! The result of a conversion: the root element under its tag name.

use crate::node::{Node, NodeView, Value, ValueView};
use vstd::prelude::*;

verus! {

/// The model of a [`Document`].
pub struct DocumentView {
    /// The root element's tag name and the root element; `None` where the document
    /// holds no element.
    pub root: Option<(Seq<char>, NodeView)>,
}

impl DocumentView {
    /// The document without a root element.
    pub open spec fn empty() -> DocumentView {
        DocumentView { root: None }
    }

    /// The document as a mapping: the root element under its tag name, and nothing else.
    pub open spec fn as_node(self) -> NodeView {
        match self.root {
            Some((name, node)) => NodeView::empty().set(name, ValueView::Node(node)),
            None => NodeView::empty(),
        }
    }
}

/// A mapping with one key, the root element's tag name, or with none where the
/// document held no element.
#[derive(Debug, PartialEq, Eq)]
pub struct Document {
    root: Option<(String, Node)>,
}

impl View for Document {
    type V = DocumentView;

    closed spec fn view(&self) -> DocumentView {
        match self.root {
            Some((name, node)) => DocumentView { root: Some((name@, node@)) },
            None => DocumentView::empty(),
        }
    }
}

impl Document {
    /// The document without a root element.
    pub fn empty() -> (document: Document)
        ensures
            document@ == DocumentView::empty(),
    {
        Document { root: None }
    }

    /// The document whose root element is `node`, with tag name `name`.
    pub fn with_root(name: String, node: Node) -> (document: Document)
        ensures
            document@ == (DocumentView { root: Some((name@, node@)) }),
    {
        Document { root: Some((name, node)) }
    }

    /// Whether the document holds no element.
    pub fn is_empty(&self) -> (answer: bool)
        ensures
            answer == (self@.root is None),
    {
        self.root.is_none()
    }

    /// The root element's tag name.
    pub fn root_name(&self) -> (name: Option<&str>)
        ensures
            match name {
                Some(text) => self@.root matches Some(root) && root.0 == text@,
                None => self@.root is None,
            },
    {
        match &self.root {
            Some(root) => Some(root.0.as_str()),
            None => None,
        }
    }

    /// The root element.
    pub fn root(&self) -> (node: Option<&Node>)
        ensures
            match node {
                Some(found) => self@.root matches Some(root) && root.1 == found@,
                None => self@.root is None,
            },
    {
        match &self.root {
            Some(root) => Some(&root.1),
            None => None,
        }
    }

    /// The document as a mapping: the root element under its tag name, and nothing else.
    pub fn into_node(self) -> (node: Node)
        ensures
            node@ == self@.as_node(),
    {
        let mut node = Node::new();
        match self.root {
            Some((name, root)) => {
                node.set(name, Value::Node(root));
            },
            None => {},
        }
        node
    }
}

} // verus!
