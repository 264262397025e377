//! The tree that a document is turned into, and its mathematical model.

use vstd::prelude::*;

verus! {

/// The model of a [`Value`].
pub enum ValueView {
    Text(Seq<char>),
    Node(NodeView),
    List(Seq<NodeView>),
}

/// The model of a [`Node`]: its entries in the order in which their keys were first set.
pub struct NodeView {
    pub entries: Seq<(Seq<char>, ValueView)>,
}

impl NodeView {
    /// The node without entries.
    pub open spec fn empty() -> NodeView {
        NodeView { entries: Seq::empty() }
    }

    /// The keys, in entry order.
    pub open spec fn keys(self) -> Seq<Seq<char>> {
        Seq::new(self.entries.len(), |i: int| self.entries[i].0)
    }

    /// No key occurs twice.
    pub open spec fn distinct_keys(self) -> bool {
        forall|i: int, j: int|
            0 <= i < j < self.entries.len() ==> self.entries[i].0 != self.entries[j].0
    }

    /// The position of the first entry under `key` at or after position `from`, if there is one.
    pub open spec fn position_from(self, key: Seq<char>, from: int) -> Option<int>
        decreases self.entries.len() - from,
    {
        if from < 0 || from >= self.entries.len() {
            None
        } else if self.entries[from].0 == key {
            Some(from)
        } else {
            self.position_from(key, from + 1)
        }
    }

    /// The position of the entry under `key`, if there is one.
    pub open spec fn position(self, key: Seq<char>) -> Option<int> {
        self.position_from(key, 0)
    }

    /// Whether there is an entry under `key`.
    pub open spec fn contains_key(self, key: Seq<char>) -> bool {
        self.position(key) is Some
    }

    /// The value under `key`, if there is one.
    pub open spec fn get(self, key: Seq<char>) -> Option<ValueView> {
        match self.position(key) {
            Some(i) => Some(self.entries[i].1),
            None => None,
        }
    }

    /// The node with `value` under `key`: an entry that is there keeps its place and
    /// loses its old value, a new one goes to the end.
    pub open spec fn set(self, key: Seq<char>, value: ValueView) -> NodeView {
        match self.position(key) {
            Some(i) => NodeView { entries: self.entries.update(i, (key, value)) },
            None => NodeView { entries: self.entries.push((key, value)) },
        }
    }

    /// The node to which the child element `child` with tag name `name` has been added.
    ///
    /// The first child under a name stands alone, the second turns the entry into a
    /// list of both, and every later one is appended to that list. A text under the
    /// same key is overwritten.
    pub open spec fn attach(self, name: Seq<char>, child: NodeView) -> NodeView {
        match self.get(name) {
            Some(ValueView::Node(first)) => self.set(name, ValueView::List(seq![first, child])),
            Some(ValueView::List(earlier)) => self.set(name, ValueView::List(earlier.push(child))),
            _ => self.set(name, ValueView::Node(child)),
        }
    }

    /// What [`NodeView::position_from`] finds is the first entry under `key` from `from` on.
    pub proof fn lemma_position_from(self, key: Seq<char>, from: int)
        requires
            0 <= from,
        ensures
            match self.position_from(key, from) {
                Some(i) => {
                    &&& from <= i < self.entries.len()
                    &&& self.entries[i].0 == key
                    &&& forall|j: int| from <= j < i ==> self.entries[j].0 != key
                },
                None => forall|j: int| from <= j < self.entries.len() ==> self.entries[j].0 != key,
            },
        decreases self.entries.len() - from,
    {
        if from < self.entries.len() && self.entries[from].0 != key {
            self.lemma_position_from(key, from + 1);
        }
    }

    /// No key occurs twice, here or in any element below, and every list holds at
    /// least two elements.
    pub open spec fn well_formed(self) -> bool
        decreases self,
    {
        &&& self.distinct_keys()
        &&& forall|i: int|
            0 <= i < self.entries.len() ==> (#[trigger] self.entries[i]).1.well_formed()
    }

    /// The node as an unordered mapping.
    pub open spec fn as_map(self) -> Map<Seq<char>, ValueView> {
        Map::new(|k: Seq<char>| self.contains_key(k), |k: Seq<char>| self.get(k).unwrap())
    }
}

impl ValueView {
    /// A text is well formed; an element is if it is as a node; a list is if it holds
    /// at least two elements, each of them well formed.
    pub open spec fn well_formed(self) -> bool
        decreases self,
    {
        match self {
            ValueView::Text(_) => true,
            ValueView::Node(node) => node.well_formed(),
            ValueView::List(nodes) => {
                &&& nodes.len() >= 2
                &&& forall|i: int| 0 <= i < nodes.len() ==> (#[trigger] nodes[i]).well_formed()
            },
        }
    }
}

/// What a key of a [`Node`] stands for.
#[derive(Debug, PartialEq, Eq)]
pub enum Value {
    /// An attribute's value, or an element's own text.
    Text(String),
    /// The only child element with that tag name.
    Node(Node),
    /// The child elements with that tag name, in document order.
    List(Vec<Node>),
}

/// One element: a mapping from attribute names, child tag names and `#text` to values.
#[derive(Debug, PartialEq, Eq)]
pub struct Node {
    entries: Vec<(String, Value)>,
}

/// The model of a node's entries.
pub closed spec fn entries_view(entries: Seq<(String, Value)>) -> Seq<(Seq<char>, ValueView)>
    decreases entries,
{
    Seq::new(
        entries.len(),
        |i: int|
            if 0 <= i < entries.len() {
                (entries[i].0@, value_view(entries[i].1))
            } else {
                (Seq::empty(), ValueView::Text(Seq::empty()))
            },
    )
}

/// The model of a list of nodes.
pub open spec fn nodes_view(nodes: Seq<Node>) -> Seq<NodeView>
    decreases nodes,
{
    Seq::new(
        nodes.len(),
        |i: int|
            if 0 <= i < nodes.len() {
                node_view(nodes[i])
            } else {
                NodeView::empty()
            },
    )
}

/// The model of a node.
pub closed spec fn node_view(node: Node) -> NodeView
    decreases node,
{
    NodeView { entries: entries_view(node.entries@) }
}

/// The model of a value.
pub open spec fn value_view(value: Value) -> ValueView
    decreases value,
{
    match value {
        Value::Text(s) => ValueView::Text(s@),
        Value::Node(n) => ValueView::Node(node_view(n)),
        Value::List(l) => ValueView::List(nodes_view(l@)),
    }
}

impl View for Value {
    type V = ValueView;

    open spec fn view(&self) -> ValueView {
        value_view(*self)
    }
}

impl View for Node {
    type V = NodeView;

    open spec fn view(&self) -> NodeView {
        node_view(*self)
    }
}

impl Node {
    #[verifier::type_invariant]
    spec fn keys_are_distinct(self) -> bool {
        forall|i: int, j: int|
            0 <= i < j < self.entries.len() ==> self.entries[i].0@ != self.entries[j].0@
    }

    /// A node without entries.
    pub fn new() -> (node: Node)
        ensures
            node@ == NodeView::empty(),
    {
        let node = Node { entries: Vec::new() };
        assert(node@.entries =~= Seq::empty());
        node
    }

    /// The number of entries.
    pub fn len(&self) -> (n: usize)
        ensures
            n == self@.entries.len(),
            self@.distinct_keys(),
    {
        proof {
            use_type_invariant(self);
        }
        self.entries.len()
    }

    /// Whether the node has no entry.
    pub fn is_empty(&self) -> (answer: bool)
        ensures
            answer == (self@.entries.len() == 0),
    {
        self.entries.len() == 0
    }

    /// The key of the entry at `index`, counted from 0 in the order in which the keys
    /// were first set.
    pub fn key_at(&self, index: usize) -> (key: Option<&str>)
        ensures
            match key {
                Some(text) => index < self@.entries.len() && text@ == self@.entries[index as int].0,
                None => index >= self@.entries.len(),
            },
    {
        if index < self.entries.len() {
            Some(self.entries[index].0.as_str())
        } else {
            None
        }
    }

    /// The value of the entry at `index`, counted from 0 in the order in which the keys
    /// were first set.
    pub fn value_at(&self, index: usize) -> (value: Option<&Value>)
        ensures
            match value {
                Some(found) => index < self@.entries.len() && found@ == self@.entries[index as int].1,
                None => index >= self@.entries.len(),
            },
    {
        if index < self.entries.len() {
            Some(&self.entries[index].1)
        } else {
            None
        }
    }

    /// Whether the node has an entry under `key`.
    pub fn contains_key(&self, key: &str) -> (answer: bool)
        ensures
            answer == self@.contains_key(key@),
    {
        let key = key.to_owned();
        self.find(&key).is_some()
    }

    /// The value under `key`, if the node has one.
    pub fn get(&self, key: &str) -> (value: Option<&Value>)
        ensures
            match value {
                Some(v) => self@.get(key@) == Some(v@),
                None => self@.get(key@) is None,
            },
    {
        let key = key.to_owned();
        match self.find(&key) {
            Some(i) => {
                proof {
                    self@.lemma_position_from(key@, 0);
                }
                Some(&self.entries[i].1)
            },
            None => None,
        }
    }

    /// Puts `value` under `key`. An entry that is there keeps its place and loses its
    /// old value; a new one goes to the end.
    pub fn set(&mut self, key: String, value: Value)
        ensures
            final(self)@ == old(self)@.set(key@, value@),
            final(self)@.distinct_keys(),
    {
        proof {
            use_type_invariant(&*self);
            self@.lemma_position_from(key@, 0);
        }
        let found = self.find(&key);
        let mut entries: Vec<(String, Value)> = Vec::new();
        std::mem::swap(&mut entries, &mut self.entries);
        match found {
            Some(i) => {
                entries.set(i, (key, value));
            },
            None => {
                entries.push((key, value));
            },
        }
        assert forall|a: int, b: int| 0 <= a < b < entries.len() implies entries[a].0@
            != entries[b].0@ by {
            assert(old(self)@.entries[a].0 == old(self).entries[a].0@);
            if b < old(self).entries.len() {
                assert(old(self)@.entries[b].0 == old(self).entries[b].0@);
            }
        }
        self.entries = entries;
        assert(self@.entries =~= old(self)@.set(key@, value@).entries);
    }

    /// Adds the child element `child` with tag name `name`.
    ///
    /// The first child under a name stands alone, the second turns the entry into a
    /// list of both, and every later one is appended to that list. A text under the
    /// same key is overwritten.
    pub fn attach(&mut self, name: String, child: Node)
        ensures
            final(self)@ == old(self)@.attach(name@, child@),
            final(self)@.distinct_keys(),
    {
        proof {
            use_type_invariant(&*self);
            self@.lemma_position_from(name@, 0);
        }
        let found = self.find(&name);
        let mut entries: Vec<(String, Value)> = Vec::new();
        std::mem::swap(&mut entries, &mut self.entries);
        match found {
            Some(i) => {
                let (key, earlier) = entries.remove(i);
                let value = match earlier {
                    Value::Node(first) => {
                        let mut nodes: Vec<Node> = Vec::new();
                        nodes.push(first);
                        nodes.push(child);
                        assert(nodes_view(nodes@) =~= seq![first@, child@]);
                        Value::List(nodes)
                    },
                    Value::List(nodes) => {
                        let mut nodes = nodes;
                        let ghost before = nodes@;
                        nodes.push(child);
                        assert(nodes_view(nodes@) =~= nodes_view(before).push(child@));
                        Value::List(nodes)
                    },
                    Value::Text(_) => Value::Node(child),
                };
                entries.insert(i, (key, value));
                assert(entries_view(entries@) =~= old(self)@.entries.update(
                    i as int,
                    (name@, value@),
                ));
            },
            None => {
                entries.push((name, Value::Node(child)));
                assert(entries_view(entries@) =~= old(self)@.entries.push(
                    (name@, ValueView::Node(child@)),
                ));
            },
        }
        assert forall|a: int, b: int| 0 <= a < b < entries.len() implies entries[a].0@
            != entries[b].0@ by {
            assert(old(self)@.entries[a].0 == old(self).entries[a].0@);
            if b < old(self).entries.len() {
                assert(old(self)@.entries[b].0 == old(self).entries[b].0@);
            }
        }
        self.entries = entries;
    }

    /// The position of the entry under `key`.
    fn find(&self, key: &String) -> (found: Option<usize>)
        ensures
            found is Some <==> self@.position(key@) is Some,
            found matches Some(i) ==> self@.position(key@) == Some(i as int),
    {
        let mut i: usize = 0;
        while i < self.entries.len()
            invariant
                i <= self.entries.len(),
                self@.position(key@) == self@.position_from(key@, i as int),
            decreases self.entries.len() - i,
        {
            if self.entries[i].0 == *key {
                return Some(i);
            }
            i += 1;
        }
        None
    }
}

} // verus!
