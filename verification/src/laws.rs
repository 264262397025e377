//! What holds of the tree and of the builder, whatever the document.

use crate::builder::{document_of, text_key, with_attributes, BuilderView};
use crate::document::DocumentView;
use crate::event::EventView;
use crate::node::{NodeView, ValueView};
use crate::parse::{events_of, outcome};
use crate::source::{document_tokens, Token};
use crate::text::blank;
use vstd::prelude::*;

verus! {

/// After `set`, the key holds the new value and every other key holds what it held.
pub proof fn lemma_set_get(node: NodeView, key: Seq<char>, value: ValueView, other: Seq<char>)
    ensures
        node.set(key, value).get(key) == Some(value),
        other != key ==> node.set(key, value).get(other) == node.get(other),
{
    let after = node.set(key, value);
    node.lemma_position_from(key, 0);
    node.lemma_position_from(other, 0);
    after.lemma_position_from(key, 0);
    after.lemma_position_from(other, 0);
    let at = match node.position(key) {
        Some(i) => i,
        None => node.entries.len() as int,
    };
    assert(after.entries[at] == (key, value));
    assert(forall|j: int|
        0 <= j < node.entries.len() && j != at ==> after.entries[j] == node.entries[j]);
    match after.position(key) {
        Some(j) => {
            if j < at {
                assert(node.entries[j].0 == key);
            }
        },
        None => {
            assert(after.entries[at].0 != key);
        },
    }
    if other != key {
        match (node.position(other), after.position(other)) {
            (Some(i), Some(j)) => {
                assert(after.entries[i].0 == other);
                assert(node.entries[j].0 == other);
            },
            (Some(i), None) => {
                assert(after.entries[i].0 == other);
            },
            (None, Some(j)) => {
                assert(node.entries[j].0 == other);
            },
            (None, None) => {},
        }
    }
}

/// `set` adds no key twice, and keeps the order of the keys that were there.
pub proof fn lemma_set_keeps_keys_distinct(node: NodeView, key: Seq<char>, value: ValueView)
    requires
        node.distinct_keys(),
    ensures
        node.set(key, value).distinct_keys(),
        node.keys().is_prefix_of(node.set(key, value).keys()),
{
    node.lemma_position_from(key, 0);
}

/// The child elements that `node` holds under `name`, in document order.
pub open spec fn children_named(node: NodeView, name: Seq<char>) -> Seq<NodeView> {
    match node.get(name) {
        Some(ValueView::Node(only)) => seq![only],
        Some(ValueView::List(all)) => all,
        _ => Seq::empty(),
    }
}

/// Adding a child appends it to the children of its name and touches no other key.
pub proof fn lemma_attach_appends(
    node: NodeView,
    name: Seq<char>,
    child: NodeView,
    other: Seq<char>,
)
    ensures
        children_named(node.attach(name, child), name) == children_named(node, name).push(child),
        other != name ==> node.attach(name, child).get(other) == node.get(other),
{
    let value = node.attach(name, child).get(name);
    match node.get(name) {
        Some(ValueView::Node(first)) => {
            lemma_set_get(node, name, ValueView::List(seq![first, child]), other);
            assert(seq![first, child] =~= seq![first].push(child));
        },
        Some(ValueView::List(earlier)) => {
            lemma_set_get(node, name, ValueView::List(earlier.push(child)), other);
        },
        _ => {
            lemma_set_get(node, name, ValueView::Node(child), other);
            assert(seq![child] =~= Seq::<NodeView>::empty().push(child));
        },
    }
}

/// A key turns from a single element into a list when a second child of its name is
/// added, and a list stays a list: it only grows at its end.
pub proof fn lemma_attach_promotes_once(node: NodeView, name: Seq<char>, child: NodeView)
    ensures
        node.get(name) matches Some(ValueView::Node(first)) ==> node.attach(name, child).get(name)
            == Some(ValueView::List(seq![first, child])),
        node.get(name) matches Some(ValueView::List(earlier)) ==> node.attach(name, child).get(name)
            == Some(ValueView::List(earlier.push(child))),
        node.get(name) is None ==> node.attach(name, child).get(name) == Some(
            ValueView::Node(child),
        ),
        node.get(name) matches Some(ValueView::Text(_)) ==> node.attach(name, child).get(name)
            == Some(ValueView::Node(child)),
{
    match node.get(name) {
        Some(ValueView::Node(first)) => {
            lemma_set_get(node, name, ValueView::List(seq![first, child]), name);
        },
        Some(ValueView::List(earlier)) => {
            lemma_set_get(node, name, ValueView::List(earlier.push(child)), name);
        },
        _ => {
            lemma_set_get(node, name, ValueView::Node(child), name);
        },
    }
}

/// Adding a child adds no key twice.
pub proof fn lemma_attach_keeps_keys_distinct(node: NodeView, name: Seq<char>, child: NodeView)
    requires
        node.distinct_keys(),
    ensures
        node.attach(name, child).distinct_keys(),
{
    match node.get(name) {
        Some(ValueView::Node(first)) => {
            lemma_set_keeps_keys_distinct(node, name, ValueView::List(seq![first, child]));
        },
        Some(ValueView::List(earlier)) => {
            lemma_set_keeps_keys_distinct(node, name, ValueView::List(earlier.push(child)));
        },
        _ => {
            lemma_set_keeps_keys_distinct(node, name, ValueView::Node(child));
        },
    }
}

/// Setting a well-formed value in a well-formed node leaves it well formed.
pub proof fn lemma_set_keeps_well_formed(node: NodeView, key: Seq<char>, value: ValueView)
    requires
        node.well_formed(),
        value.well_formed(),
    ensures
        node.set(key, value).well_formed(),
{
    let after = node.set(key, value);
    lemma_set_keeps_keys_distinct(node, key, value);
    node.lemma_position_from(key, 0);
    assert forall|i: int| 0 <= i < after.entries.len() implies (#[trigger] after.entries[i]).1
        .well_formed() by {
        if i < node.entries.len() && after.entries[i] != (key, value) {
            assert(after.entries[i] == node.entries[i]);
        }
    }
}

/// Adding a well-formed child to a well-formed node leaves it well formed: a list that
/// comes to be holds two elements, and one that is there grows.
pub proof fn lemma_attach_keeps_well_formed(node: NodeView, name: Seq<char>, child: NodeView)
    requires
        node.well_formed(),
        child.well_formed(),
    ensures
        node.attach(name, child).well_formed(),
{
    node.lemma_position_from(name, 0);
    match node.get(name) {
        Some(ValueView::Node(first)) => {
            let i = node.position(name).unwrap();
            assert(node.entries[i].1.well_formed());
            lemma_set_keeps_well_formed(node, name, ValueView::List(seq![first, child]));
        },
        Some(ValueView::List(earlier)) => {
            let i = node.position(name).unwrap();
            assert(node.entries[i].1.well_formed());
            let grown = earlier.push(child);
            assert forall|j: int| 0 <= j < grown.len() implies (#[trigger] grown[j])
                .well_formed() by {
                if j < earlier.len() {
                    assert(earlier[j].well_formed());
                }
            }
            lemma_set_keeps_well_formed(node, name, ValueView::List(grown));
        },
        _ => {
            lemma_set_keeps_well_formed(node, name, ValueView::Node(child));
        },
    }
}

/// Copying attributes into a well-formed node leaves it well formed.
pub proof fn lemma_attributes_keep_well_formed(
    node: NodeView,
    attributes: Seq<(Seq<char>, Seq<char>)>,
)
    requires
        node.well_formed(),
    ensures
        with_attributes(node, attributes).well_formed(),
    decreases attributes.len(),
{
    if attributes.len() > 0 {
        lemma_attributes_keep_well_formed(node, attributes.drop_last());
        lemma_set_keeps_well_formed(
            with_attributes(node, attributes.drop_last()),
            attributes.last().0,
            ValueView::Text(attributes.last().1),
        );
    }
}

/// Every open element of a builder, and its root, is well formed.
pub open spec fn builder_well_formed(state: BuilderView) -> bool {
    &&& forall|i: int| 0 <= i < state.open.len() ==> (#[trigger] state.open[i]).node.well_formed()
    &&& state.root matches Some(root) ==> root.1.well_formed()
}

/// No event takes a builder out of well-formedness.
pub proof fn lemma_step_keeps_well_formed(state: BuilderView, event: EventView)
    requires
        builder_well_formed(state),
    ensures
        builder_well_formed(state.step(event)),
{
    let after = state.step(event);
    match event {
        EventView::StartTag { name, attributes } => {
            lemma_attributes_keep_well_formed(NodeView::empty(), attributes);
            assert forall|i: int| 0 <= i < after.open.len() implies (#[trigger] after.open[i])
                .node.well_formed() by {
                if i < state.open.len() {
                    assert(after.open[i] == state.open[i]);
                }
            }
        },
        EventView::EndTag => {
            lemma_end_tag_keeps_well_formed(state);
        },
        EventView::Text { content } => {
            if !blank(content) && state.open.len() > 0 {
                let top = state.open.last();
                assert(state.open[state.open.len() - 1].node.well_formed());
                lemma_set_keeps_well_formed(top.node, text_key(), ValueView::Text(content));
                assert forall|i: int| 0 <= i < after.open.len() implies (#[trigger] after.open[i])
                    .node.well_formed() by {
                    if i < state.open.len() - 1 {
                        assert(after.open[i] == state.open[i]);
                    }
                }
            }
        },
        EventView::EndOfInput => {},
    }
}

/// Closing an element does not take a builder out of well-formedness.
proof fn lemma_end_tag_keeps_well_formed(state: BuilderView)
    requires
        builder_well_formed(state),
    ensures
        builder_well_formed(state.end_tag()),
{
    let after = state.end_tag();
    if state.open.len() == 1 {
        assert(state.open[0].node.well_formed());
    } else if state.open.len() >= 2 {
        let child = state.open.last();
        let parent = state.open[state.open.len() - 2];
        assert(state.open[state.open.len() - 1].node.well_formed());
        assert(state.open[state.open.len() - 2].node.well_formed());
        lemma_attach_keeps_well_formed(parent.node, child.name, child.node);
        assert forall|i: int| 0 <= i < after.open.len() implies (#[trigger] after.open[i])
            .node.well_formed() by {
            if i < state.open.len() - 2 {
                assert(after.open[i] == state.open[i]);
            }
        }
    }
}

/// No stream of events takes a builder out of well-formedness.
proof fn lemma_run_keeps_well_formed(state: BuilderView, events: Seq<EventView>)
    requires
        builder_well_formed(state),
    ensures
        builder_well_formed(state.run(events)),
    decreases events.len(),
{
    if events.len() > 0 && !(events[0] is EndOfInput) {
        lemma_step_keeps_well_formed(state, events[0]);
        lemma_run_keeps_well_formed(state.step(events[0]), events.skip(1));
    }
}

/// Closing every element does not take a builder out of well-formedness.
proof fn lemma_close_all_keeps_well_formed(state: BuilderView)
    requires
        builder_well_formed(state),
    ensures
        builder_well_formed(state.close_all()),
    decreases state.open.len(),
{
    if state.open.len() > 0 {
        lemma_end_tag_keeps_well_formed(state);
        lemma_close_all_keeps_well_formed(state.end_tag());
    }
}

/// Whatever the events, the root of the document is well formed: no element has a key
/// twice, and every list holds at least two elements.
pub proof fn lemma_document_is_well_formed(events: Seq<EventView>)
    ensures
        document_of(events).root matches Some(root) ==> root.1.well_formed(),
{
    lemma_run_keeps_well_formed(BuilderView::initial(), events);
    lemma_close_all_keeps_well_formed(BuilderView::initial().run(events));
}

/// Where the tokens of a document give a tree, its root is well formed.
pub proof fn lemma_outcome_is_well_formed(tokens: Seq<Token>)
    ensures
        outcome(tokens) matches Ok(document) ==> (document.root matches Some(root)
            ==> root.1.well_formed()),
{
    if let Ok(events) = events_of(tokens) {
        lemma_document_is_well_formed(events);
    }
}

/// The value that the last of `attributes` named `key` gives, if one is named so.
pub open spec fn last_value(attributes: Seq<(Seq<char>, Seq<char>)>, key: Seq<char>) -> Option<
    Seq<char>,
>
    decreases attributes.len(),
{
    if attributes.len() == 0 {
        None
    } else if attributes.last().0 == key {
        Some(attributes.last().1)
    } else {
        last_value(attributes.drop_last(), key)
    }
}

/// A node with attributes copied in holds, under each key, the value of the last
/// attribute of that name, and what it held before where no attribute has that name.
pub proof fn lemma_attributes_get(
    node: NodeView,
    attributes: Seq<(Seq<char>, Seq<char>)>,
    key: Seq<char>,
)
    ensures
        with_attributes(node, attributes).get(key) == match last_value(attributes, key) {
            Some(value) => Some(ValueView::Text(value)),
            None => node.get(key),
        },
    decreases attributes.len(),
{
    if attributes.len() > 0 {
        lemma_attributes_get(node, attributes.drop_last(), key);
        lemma_set_get(
            with_attributes(node, attributes.drop_last()),
            attributes.last().0,
            ValueView::Text(attributes.last().1),
            key,
        );
    }
}

/// The last value under a key is the value of an attribute of that name, and there is
/// none only where no attribute has that name.
proof fn lemma_last_value_is_written(attributes: Seq<(Seq<char>, Seq<char>)>, key: Seq<char>)
    ensures
        match last_value(attributes, key) {
            Some(value) => attributes.contains((key, value)),
            None => forall|i: int| 0 <= i < attributes.len() ==> attributes[i].0 != key,
        },
    decreases attributes.len(),
{
    if attributes.len() > 0 {
        let earlier = attributes.drop_last();
        lemma_last_value_is_written(earlier, key);
        if attributes.last().0 == key {
            assert(attributes[attributes.len() - 1] == (key, attributes.last().1));
        } else {
            match last_value(earlier, key) {
                Some(value) => {
                    let i = choose|i: int| 0 <= i < earlier.len() && earlier[i] == (key, value);
                    assert(attributes[i] == (key, value));
                },
                None => {
                    assert forall|i: int| 0 <= i < attributes.len() implies attributes[i].0
                        != key by {
                        if i < earlier.len() {
                            assert(earlier[i] == attributes[i]);
                        }
                    }
                },
            }
        }
    }
}

/// The order in which attributes are written does not change the mapping: two lists
/// that hold the same attributes, no name twice, give the same mapping.
pub proof fn lemma_attribute_order(
    one: Seq<(Seq<char>, Seq<char>)>,
    other: Seq<(Seq<char>, Seq<char>)>,
)
    requires
        forall|i: int, j: int| 0 <= i < j < one.len() ==> one[i].0 != one[j].0,
        forall|attribute: (Seq<char>, Seq<char>)|
            one.contains(attribute) <==> other.contains(attribute),
    ensures
        with_attributes(NodeView::empty(), one).as_map() == with_attributes(
            NodeView::empty(),
            other,
        ).as_map(),
{
    let left = with_attributes(NodeView::empty(), one);
    let right = with_attributes(NodeView::empty(), other);
    assert forall|key: Seq<char>| left.get(key) == right.get(key) by {
        lemma_attributes_get(NodeView::empty(), one, key);
        lemma_attributes_get(NodeView::empty(), other, key);
        lemma_last_value_is_written(one, key);
        lemma_last_value_is_written(other, key);
        match last_value(other, key) {
            Some(value) => {
                assert(one.contains((key, value)));
                let at = choose|i: int| 0 <= i < one.len() && one[i] == (key, value);
                match last_value(one, key) {
                    Some(found) => {
                        let there = choose|i: int| 0 <= i < one.len() && one[i] == (key, found);
                        assert(at == there);
                    },
                    None => {
                        assert(one[at].0 == key);
                    },
                }
            },
            None => {
                match last_value(one, key) {
                    Some(found) => {
                        assert(other.contains((key, found)));
                        let there = choose|i: int|
                            0 <= i < other.len() && other[i] == (key, found);
                        assert(other[there].0 == key);
                    },
                    None => {},
                }
            },
        }
    }
    assert forall|key: Seq<char>| left.contains_key(key) == right.contains_key(key) by {
        assert(left.get(key) == right.get(key));
    }
    assert(left.as_map() =~= right.as_map());
}

/// Blank text leaves the builder as it was.
pub proof fn lemma_blank_text_is_dropped(state: BuilderView, content: Seq<char>)
    requires
        blank(content),
    ensures
        state.text(content) == state,
{
}

/// The name of the first element that opens before the end of input.
pub open spec fn first_start_tag(events: Seq<EventView>) -> Option<Seq<char>>
    decreases events.len(),
{
    if events.len() == 0 {
        None
    } else {
        match events[0] {
            EventView::EndOfInput => None,
            EventView::StartTag { name, attributes } => Some(name),
            _ => first_start_tag(events.skip(1)),
        }
    }
}

/// The tag name under which a builder will hand out its document.
pub open spec fn root_name(state: BuilderView) -> Option<Seq<char>> {
    match state.root {
        Some((name, node)) => Some(name),
        None => if state.open.len() > 0 {
            Some(state.open[0].name)
        } else {
            None
        },
    }
}

/// Closing an element does not change the name of the root.
proof fn lemma_end_tag_keeps_root_name(state: BuilderView)
    ensures
        root_name(state.end_tag()) == root_name(state),
{
}

/// Closing every element does not change the name of the root.
proof fn lemma_close_all_keeps_root_name(state: BuilderView)
    ensures
        root_name(state.close_all()) == root_name(state),
        state.close_all().open.len() == 0,
    decreases state.open.len(),
{
    if state.open.len() > 0 {
        lemma_end_tag_keeps_root_name(state);
        lemma_close_all_keeps_root_name(state.end_tag());
    }
}

/// Once the root has a name, events do not change it; until then, the first element
/// that opens gives it.
proof fn lemma_run_root_name(state: BuilderView, events: Seq<EventView>)
    ensures
        root_name(state.run(events)) == match root_name(state) {
            Some(name) => Some(name),
            None => first_start_tag(events),
        },
    decreases events.len(),
{
    if events.len() > 0 && !(events[0] is EndOfInput) {
        lemma_end_tag_keeps_root_name(state);
        lemma_run_root_name(state.step(events[0]), events.skip(1));
    }
}

/// A document has a root exactly where an element opens before the end of input, and
/// the root is named as the first such element.
pub proof fn lemma_root_is_first_element(events: Seq<EventView>)
    ensures
        match document_of(events).root {
            Some((name, node)) => first_start_tag(events) == Some(name),
            None => first_start_tag(events) is None,
        },
{
    let end = BuilderView::initial().run(events);
    lemma_run_root_name(BuilderView::initial(), events);
    lemma_close_all_keeps_root_name(end);
}

/// A document is a mapping with one key, the root's tag name, under which the root
/// element stands; or with no key, where it has no root.
pub proof fn lemma_document_has_one_key(document: DocumentView)
    ensures
        match document.root {
            Some((name, node)) => {
                &&& document.as_node().entries.len() == 1
                &&& document.as_node().get(name) == Some(ValueView::Node(node))
            },
            None => document.as_node().entries.len() == 0,
        },
{
    if let Some((name, node)) = document.root {
        lemma_set_get(NodeView::empty(), name, ValueView::Node(node), name);
        NodeView::empty().lemma_position_from(name, 0);
    }
}

/// The same text gives the same result, tree or failure.
pub proof fn lemma_same_text_same_outcome(one: Seq<char>, other: Seq<char>)
    requires
        one == other,
    ensures
        outcome(document_tokens(one)) == outcome(document_tokens(other)),
{
}

} // verus!
