//! Turning a stream of events into a tree, one event at a time.
//!
//! The builder keeps the elements that are open, outermost first. An element is added
//! to its parent when it closes: while it is open nothing else touches the parent, so
//! the parent ends up as if the element had been added when it opened.

use crate::document::{Document, DocumentView};
use crate::event::{attributes_view, events_view, EventView, XmlEvent};
use crate::laws::lemma_document_is_well_formed;
use crate::node::{Node, NodeView, Value, ValueView};
use crate::text::{blank, is_blank};
use vstd::prelude::*;

verus! {

/// The key under which an element's own text is kept.
pub open spec fn text_key() -> Seq<char> {
    "#text"@
}

/// `node` after each of `attributes` has been set as a text, first to last: where a name
/// occurs twice, or is in `node` already, the last value stays.
pub open spec fn with_attributes(
    node: NodeView,
    attributes: Seq<(Seq<char>, Seq<char>)>,
) -> NodeView
    decreases attributes.len(),
{
    if attributes.len() == 0 {
        node
    } else {
        with_attributes(node, attributes.drop_last()).set(
            attributes.last().0,
            ValueView::Text(attributes.last().1),
        )
    }
}

/// An open element: its tag name and what it holds so far.
pub struct FrameView {
    pub name: Seq<char>,
    pub node: NodeView,
}

/// The model of a [`TreeBuilder`].
pub struct BuilderView {
    /// The open elements, outermost first.
    pub open: Seq<FrameView>,
    /// The root element, once it has closed.
    pub root: Option<(Seq<char>, NodeView)>,
}

impl BuilderView {
    /// The builder before any event.
    pub open spec fn initial() -> BuilderView {
        BuilderView { open: Seq::empty(), root: None }
    }

    /// The number of open elements.
    pub open spec fn depth(self) -> nat {
        self.open.len()
    }

    /// An element opens: it becomes the innermost open element, holding its attributes.
    pub open spec fn start_tag(
        self,
        name: Seq<char>,
        attributes: Seq<(Seq<char>, Seq<char>)>,
    ) -> BuilderView {
        BuilderView {
            open: self.open.push(
                FrameView { name, node: with_attributes(NodeView::empty(), attributes) },
            ),
            root: self.root,
        }
    }

    /// The innermost open element closes and is added to its parent. The first element
    /// that closes with no parent is the root; a later one is dropped. With no element
    /// open nothing changes.
    pub open spec fn end_tag(self) -> BuilderView {
        if self.open.len() == 0 {
            self
        } else if self.open.len() == 1 {
            BuilderView {
                open: Seq::empty(),
                root: if self.root is None {
                    Some((self.open[0].name, self.open[0].node))
                } else {
                    self.root
                },
            }
        } else {
            let child = self.open.last();
            let parent = self.open[self.open.len() - 2];
            BuilderView {
                open: self.open.take(self.open.len() - 2).push(
                    FrameView {
                        name: parent.name,
                        node: parent.node.attach(child.name, child.node),
                    },
                ),
                root: self.root,
            }
        }
    }

    /// Character data arrives: unless it is blank, it becomes the text of the innermost
    /// open element, untrimmed, in place of an earlier text. With no element open
    /// nothing changes.
    pub open spec fn text(self, content: Seq<char>) -> BuilderView {
        if blank(content) || self.open.len() == 0 {
            self
        } else {
            let top = self.open.last();
            BuilderView {
                open: self.open.drop_last().push(
                    FrameView {
                        name: top.name,
                        node: top.node.set(text_key(), ValueView::Text(content)),
                    },
                ),
                root: self.root,
            }
        }
    }

    /// The builder after `event`. The end of input changes nothing.
    pub open spec fn step(self, event: EventView) -> BuilderView {
        match event {
            EventView::StartTag { name, attributes } => self.start_tag(name, attributes),
            EventView::EndTag => self.end_tag(),
            EventView::Text { content } => self.text(content),
            EventView::EndOfInput => self,
        }
    }

    /// The builder after the events of `events` that stand before the first end of input.
    pub open spec fn run(self, events: Seq<EventView>) -> BuilderView
        decreases events.len(),
    {
        if events.len() == 0 || events[0] is EndOfInput {
            self
        } else {
            self.step(events[0]).run(events.skip(1))
        }
    }

    /// The builder after every open element has closed, innermost first.
    pub open spec fn close_all(self) -> BuilderView
        decreases self.open.len(),
    {
        if self.open.len() == 0 {
            self
        } else {
            self.end_tag().close_all()
        }
    }

    /// The document that the builder would hand out now: the elements that are still
    /// open count as closed.
    pub open spec fn document(self) -> DocumentView {
        DocumentView { root: self.close_all().root }
    }
}

/// The document that a stream of events describes.
pub open spec fn document_of(events: Seq<EventView>) -> DocumentView {
    BuilderView::initial().run(events).document()
}

struct Frame {
    name: String,
    node: Node,
}

/// Builds a [`Document`] from events, one at a time.
pub struct TreeBuilder {
    open: Vec<Frame>,
    root: Option<(String, Node)>,
}

spec fn frames_view(frames: Seq<Frame>) -> Seq<FrameView> {
    Seq::new(frames.len(), |i: int| FrameView { name: frames[i].name@, node: frames[i].node@ })
}

impl View for TreeBuilder {
    type V = BuilderView;

    closed spec fn view(&self) -> BuilderView {
        BuilderView {
            open: frames_view(self.open@),
            root: match self.root {
                Some((name, node)) => Some((name@, node@)),
                None => None,
            },
        }
    }
}

impl TreeBuilder {
    /// A builder that has seen no event.
    pub fn new() -> (builder: TreeBuilder)
        ensures
            builder@ == BuilderView::initial(),
    {
        let builder = TreeBuilder { open: Vec::new(), root: None };
        assert(builder@.open =~= Seq::empty());
        builder
    }

    /// The number of open elements.
    pub fn depth(&self) -> (depth: usize)
        ensures
            depth == self@.depth(),
    {
        self.open.len()
    }

    /// The innermost open element, as far as it has been built.
    pub fn current(&self) -> (node: Option<&Node>)
        ensures
            match node {
                Some(top) => self@.open.len() > 0 && top@ == self@.open.last().node,
                None => self@.open.len() == 0,
            },
    {
        if self.open.len() > 0 {
            Some(&self.open[self.open.len() - 1].node)
        } else {
            None
        }
    }

    /// An element opens.
    pub fn on_start_tag(&mut self, name: &str, attributes: &Vec<(String, String)>)
        ensures
            final(self)@ == old(self)@.start_tag(name@, attributes_view(attributes@)),
    {
        let ghost all = attributes_view(attributes@);
        let mut node = Node::new();
        let mut i: usize = 0;
        while i < attributes.len()
            invariant
                i <= attributes.len(),
                all == attributes_view(attributes@),
                node@ == with_attributes(NodeView::empty(), all.take(i as int)),
            decreases attributes.len() - i,
        {
            let key = attributes[i].0.clone();
            let value = attributes[i].1.clone();
            node.set(key, Value::Text(value));
            proof {
                assert(all.take(i + 1).drop_last() =~= all.take(i as int));
                assert(all.take(i + 1).last() == all[i as int]);
            }
            i += 1;
        }
        assert(all.take(i as int) =~= all);
        self.open.push(Frame { name: name.to_owned(), node });
        assert(self@.open =~= old(self)@.start_tag(name@, all).open);
    }

    /// The innermost open element closes.
    pub fn on_end_tag(&mut self)
        ensures
            final(self)@ == old(self)@.end_tag(),
    {
        match self.open.pop() {
            None => {
                assert(self@.open =~= old(self)@.open);
            },
            Some(child) => {
                match self.open.pop() {
                    None => {
                        if self.root.is_none() {
                            self.root = Some((child.name, child.node));
                        }
                        assert(self@.open =~= Seq::empty());
                    },
                    Some(parent) => {
                        let mut parent = parent;
                        parent.node.attach(child.name, child.node);
                        self.open.push(parent);
                        assert(self@.open =~= old(self)@.end_tag().open);
                    },
                }
            },
        }
    }

    /// Character data arrives.
    pub fn on_text(&mut self, content: &str)
        ensures
            final(self)@ == old(self)@.text(content@),
    {
        if is_blank(content) {
            return ;
        }
        match self.open.pop() {
            None => {
                assert(self@.open =~= old(self)@.open);
            },
            Some(top) => {
                let mut top = top;
                top.node.set("#text".to_owned(), Value::Text(content.to_owned()));
                self.open.push(top);
                assert(self@.open =~= old(self)@.text(content@).open);
            },
        }
    }

    /// Takes one event. The end of input changes nothing.
    pub fn on_event(&mut self, event: &XmlEvent)
        ensures
            final(self)@ == old(self)@.step(event@),
    {
        match event {
            XmlEvent::StartTag { name, attributes } => self.on_start_tag(name.as_str(), attributes),
            XmlEvent::EndTag => self.on_end_tag(),
            XmlEvent::Text { content } => self.on_text(content.as_str()),
            XmlEvent::EndOfInput => {},
        }
    }

    /// The input has ended: hands out the document. Elements that are still open count
    /// as closed; with no element seen the document is empty.
    pub fn on_end_of_input(self) -> (document: Document)
        ensures
            document@ == self@.document(),
    {
        let mut builder = self;
        while builder.open.len() > 0
            invariant
                builder@.document() == self@.document(),
            decreases builder@.open.len(),
        {
            builder.on_end_tag();
        }
        match builder.root {
            Some((name, node)) => Document::with_root(name, node),
            None => Document::empty(),
        }
    }
}

/// The document that `events` describe: the events before the first end of input,
/// taken in order, then the end of input.
pub fn build_document(events: &Vec<XmlEvent>) -> (document: Document)
    ensures
        document@ == document_of(events_view(events@)),
        document@.root matches Some(root) ==> root.1.well_formed(),
{
    let ghost all = events_view(events@);
    let mut builder = TreeBuilder::new();
    let mut i: usize = 0;
    assert(all.skip(0) =~= all);
    while i < events.len()
        invariant
            i <= events.len(),
            all == events_view(events@),
            builder@.run(all.skip(i as int)) == BuilderView::initial().run(all),
        decreases events.len() - i,
    {
        if let XmlEvent::EndOfInput = events[i] {
            proof {
                lemma_document_is_well_formed(all);
            }
            return builder.on_end_of_input();
        }
        builder.on_event(&events[i]);
        proof {
            assert(all.skip(i as int).skip(1) =~= all.skip(i + 1));
        }
        i += 1;
    }
    proof {
        lemma_document_is_well_formed(all);
    }
    builder.on_end_of_input()
}

} // verus!
