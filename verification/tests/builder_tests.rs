use xml_tree::{build_document, Document, Node, TreeBuilder, Value, XmlEvent};

fn text(value: &str) -> Value {
    Value::Text(value.to_string())
}

fn start(name: &str, attributes: &[(&str, &str)]) -> XmlEvent {
    XmlEvent::StartTag {
        name: name.to_string(),
        attributes: attributes.iter().map(|(k, v)| (k.to_string(), v.to_string())).collect(),
    }
}

fn chars(content: &str) -> XmlEvent {
    XmlEvent::Text { content: content.to_string() }
}

fn document(name: &str, root: Node) -> Document {
    Document::with_root(name.to_string(), root)
}

#[test]
fn no_events_give_the_empty_document() {
    assert_eq!(build_document(&vec![]), Document::empty());
    assert_eq!(build_document(&vec![XmlEvent::EndOfInput]), Document::empty());
    assert_eq!(TreeBuilder::new().on_end_of_input(), Document::empty());
}

#[test]
fn one_element_from_events() {
    let events = vec![start("a", &[]), XmlEvent::EndTag, XmlEvent::EndOfInput];
    assert_eq!(build_document(&events), document("a", Node::new()));
}

#[test]
fn attributes_from_events() {
    let events = vec![start("a", &[("x", "1"), ("y", "2")]), XmlEvent::EndTag, XmlEvent::EndOfInput];
    let mut root = Node::new();
    root.set("x".to_string(), text("1"));
    root.set("y".to_string(), text("2"));
    assert_eq!(build_document(&events), document("a", root));
}

#[test]
fn the_last_of_two_attributes_of_one_name_stays() {
    let events = vec![start("a", &[("x", "1"), ("y", "2"), ("x", "3")]), XmlEvent::EndTag];
    let built = build_document(&events);
    let root = built.root().unwrap();
    assert_eq!(root.len(), 2);
    assert_eq!(root.get("x"), Some(&text("3")));
    assert_eq!(root.key_at(0), Some("x"));
    assert_eq!(root.key_at(1), Some("y"));
}

#[test]
fn text_from_events() {
    let events = vec![start("a", &[]), chars("hello"), XmlEvent::EndTag, XmlEvent::EndOfInput];
    let mut root = Node::new();
    root.set("#text".to_string(), text("hello"));
    assert_eq!(build_document(&events), document("a", root));
}

#[test]
fn blank_text_from_events_is_dropped() {
    for blank in ["", " ", "   ", "\n\t\r ", "\u{a0}\u{2003}\u{3000}"] {
        let events = vec![start("a", &[]), chars(blank), XmlEvent::EndTag, XmlEvent::EndOfInput];
        assert_eq!(build_document(&events), document("a", Node::new()), "{:?}", blank);
    }
}

#[test]
fn blank_text_does_not_replace_earlier_text() {
    let events = vec![start("a", &[]), chars("kept"), chars("  "), XmlEvent::EndTag];
    let mut root = Node::new();
    root.set("#text".to_string(), text("kept"));
    assert_eq!(build_document(&events), document("a", root));
}

#[test]
fn the_latest_text_stays_and_is_not_trimmed() {
    let events = vec![start("a", &[]), chars("one"), chars(" two \n"), XmlEvent::EndTag];
    let mut root = Node::new();
    root.set("#text".to_string(), text(" two \n"));
    assert_eq!(build_document(&events), document("a", root));
}

#[test]
fn text_takes_the_place_of_an_attribute_named_like_the_text_key() {
    let events = vec![start("a", &[("#text", "attribute")]), chars("content"), XmlEvent::EndTag];
    let built = build_document(&events);
    assert_eq!(built.root().unwrap().len(), 1);
    assert_eq!(built.root().unwrap().get("#text"), Some(&text("content")));
}

#[test]
fn one_child_from_events() {
    let events = vec![start("a", &[]), start("b", &[]), XmlEvent::EndTag, XmlEvent::EndTag];
    let mut root = Node::new();
    root.attach("b".to_string(), Node::new());
    assert_eq!(build_document(&events), document("a", root));
}

#[test]
fn two_children_of_one_name_from_events() {
    let events = vec![
        start("a", &[]),
        start("b", &[]),
        XmlEvent::EndTag,
        start("b", &[]),
        XmlEvent::EndTag,
        XmlEvent::EndTag,
        XmlEvent::EndOfInput,
    ];
    let built = build_document(&events);
    assert_eq!(built.root().unwrap().get("b"), Some(&Value::List(vec![Node::new(), Node::new()])));
}

#[test]
fn children_apart_still_share_a_list() {
    let events = vec![
        start("a", &[]),
        start("b", &[("n", "1")]),
        XmlEvent::EndTag,
        start("c", &[]),
        XmlEvent::EndTag,
        start("b", &[("n", "2")]),
        XmlEvent::EndTag,
        XmlEvent::EndTag,
    ];
    let built = build_document(&events);
    let root = built.root().unwrap();
    let mut one = Node::new();
    one.set("n".to_string(), text("1"));
    let mut two = Node::new();
    two.set("n".to_string(), text("2"));
    assert_eq!(root.get("b"), Some(&Value::List(vec![one, two])));
    assert_eq!(root.get("c"), Some(&Value::Node(Node::new())));
    assert_eq!(root.key_at(0), Some("b"));
    assert_eq!(root.key_at(1), Some("c"));
}

#[test]
fn grandchildren_go_to_their_own_parent() {
    let events = vec![
        start("a", &[]),
        start("b", &[]),
        start("c", &[]),
        chars("deep"),
        XmlEvent::EndTag,
        XmlEvent::EndTag,
        start("c", &[]),
        XmlEvent::EndTag,
        XmlEvent::EndTag,
    ];
    let mut deep = Node::new();
    deep.set("#text".to_string(), text("deep"));
    let mut b = Node::new();
    b.attach("c".to_string(), deep);
    let mut root = Node::new();
    root.attach("b".to_string(), b);
    root.attach("c".to_string(), Node::new());
    assert_eq!(build_document(&events), document("a", root));
}

#[test]
fn events_after_the_end_of_input_are_not_taken() {
    let events = vec![
        start("a", &[]),
        XmlEvent::EndOfInput,
        start("b", &[]),
        XmlEvent::EndTag,
        XmlEvent::EndTag,
    ];
    assert_eq!(build_document(&events), document("a", Node::new()));
}

#[test]
fn text_outside_the_root_is_ignored() {
    let events = vec![chars("before"), start("a", &[]), XmlEvent::EndTag, chars("after")];
    assert_eq!(build_document(&events), document("a", Node::new()));
}

#[test]
fn an_end_tag_with_nothing_open_changes_nothing() {
    let events = vec![XmlEvent::EndTag, start("a", &[]), XmlEvent::EndTag, XmlEvent::EndTag];
    assert_eq!(build_document(&events), document("a", Node::new()));
}

#[test]
fn a_second_top_level_element_is_dropped() {
    let events = vec![
        start("a", &[]),
        XmlEvent::EndTag,
        start("b", &[("x", "1")]),
        start("c", &[]),
        XmlEvent::EndTag,
        XmlEvent::EndTag,
    ];
    assert_eq!(build_document(&events), document("a", Node::new()));
}

#[test]
fn open_elements_count_as_closed_at_the_end() {
    let events = vec![start("a", &[]), start("b", &[]), start("c", &[]), chars("t")];
    let mut c = Node::new();
    c.set("#text".to_string(), text("t"));
    let mut b = Node::new();
    b.attach("c".to_string(), c);
    let mut root = Node::new();
    root.attach("b".to_string(), b);
    assert_eq!(build_document(&events), document("a", root));
}

#[test]
fn depth_follows_the_nesting() {
    let mut builder = TreeBuilder::new();
    assert_eq!(builder.depth(), 0);
    builder.on_end_tag();
    assert_eq!(builder.depth(), 0);
    builder.on_start_tag("a", &vec![]);
    assert_eq!(builder.depth(), 1);
    builder.on_text("t");
    assert_eq!(builder.depth(), 1);
    builder.on_start_tag("b", &vec![("k".to_string(), "v".to_string())]);
    assert_eq!(builder.depth(), 2);
    builder.on_event(&XmlEvent::EndOfInput);
    assert_eq!(builder.depth(), 2);
    builder.on_end_tag();
    assert_eq!(builder.depth(), 1);
    builder.on_event(&XmlEvent::EndTag);
    assert_eq!(builder.depth(), 0);
    let mut b = Node::new();
    b.set("k".to_string(), text("v"));
    let mut root = Node::new();
    root.set("#text".to_string(), text("t"));
    root.attach("b".to_string(), b);
    assert_eq!(builder.on_end_of_input(), document("a", root));
}

#[test]
fn the_root_is_the_first_element_that_opens() {
    let events = vec![
        chars("x"),
        XmlEvent::EndTag,
        start("first", &[]),
        start("second", &[]),
        XmlEvent::EndTag,
        XmlEvent::EndTag,
        start("third", &[]),
    ];
    assert_eq!(build_document(&events).root_name(), Some("first"));
}

#[test]
fn building_twice_gives_the_same_tree() {
    let events = vec![
        start("a", &[("x", "1")]),
        start("b", &[]),
        chars("t"),
        XmlEvent::EndTag,
        start("b", &[]),
        XmlEvent::EndTag,
        XmlEvent::EndTag,
        XmlEvent::EndOfInput,
    ];
    assert_eq!(build_document(&events), build_document(&events));
}

#[test]
fn the_element_that_opened_last_is_the_current_one() {
    let mut builder = TreeBuilder::new();
    assert_eq!(builder.current(), None);
    builder.on_start_tag("a", &vec![("x".to_string(), "1".to_string())]);
    let mut a = Node::new();
    a.set("x".to_string(), text("1"));
    assert_eq!(builder.current(), Some(&a));
    builder.on_start_tag("b", &vec![]);
    assert_eq!(builder.current(), Some(&Node::new()));
    builder.on_text("t");
    let mut b = Node::new();
    b.set("#text".to_string(), text("t"));
    assert_eq!(builder.current(), Some(&b));
    builder.on_end_tag();
    a.attach("b".to_string(), b);
    assert_eq!(builder.current(), Some(&a));
    builder.on_end_tag();
    assert_eq!(builder.current(), None);
    builder.on_text("outside");
    assert_eq!(builder.current(), None);
}
