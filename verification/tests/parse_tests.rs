use xml_tree::{parse_string_promise, Document, ErrorKind, Node, Stage, Value};

fn text(value: &str) -> Value {
    Value::Text(value.to_string())
}

fn document(name: &str, root: Node) -> Document {
    Document::with_root(name.to_string(), root)
}

#[test]
fn single_element() {
    let parsed = parse_string_promise("<a/>").unwrap();
    assert_eq!(parsed, document("a", Node::new()));
    assert_eq!(parsed.root_name(), Some("a"));
    assert_eq!(parsed.root().unwrap().len(), 0);
}

#[test]
fn single_element_with_end_tag() {
    assert_eq!(parse_string_promise("<a></a>").unwrap(), document("a", Node::new()));
}

#[test]
fn attributes_become_text_entries() {
    let mut root = Node::new();
    root.set("x".to_string(), text("1"));
    root.set("y".to_string(), text("2"));
    assert_eq!(parse_string_promise("<a x=\"1\" y=\"2\"/>").unwrap(), document("a", root));
}

#[test]
fn text_is_kept_under_the_text_key() {
    let mut root = Node::new();
    root.set("#text".to_string(), text("hello"));
    assert_eq!(parse_string_promise("<a>hello</a>").unwrap(), document("a", root));
}

#[test]
fn blank_text_is_dropped() {
    assert_eq!(parse_string_promise("<a>   </a>").unwrap(), document("a", Node::new()));
    assert_eq!(parse_string_promise("<a>\n\t \r\n</a>").unwrap(), document("a", Node::new()));
}

#[test]
fn text_is_stored_untrimmed() {
    let mut root = Node::new();
    root.set("#text".to_string(), text("  hi there \n"));
    assert_eq!(parse_string_promise("<a>  hi there \n</a>").unwrap(), document("a", root));
}

#[test]
fn text_has_its_references_resolved() {
    let mut root = Node::new();
    root.set("q".to_string(), text("\"<&>\""));
    root.set("#text".to_string(), text("1 < 2 & 3 > 2"));
    assert_eq!(
        parse_string_promise("<a q='&quot;&lt;&amp;&gt;&quot;'>1 &lt; 2 &amp; 3 &gt; 2</a>").unwrap(),
        document("a", root)
    );
}

#[test]
fn single_child_stands_alone() {
    let mut root = Node::new();
    root.attach("b".to_string(), Node::new());
    let parsed = parse_string_promise("<a><b/></a>").unwrap();
    assert_eq!(parsed, document("a", root));
    assert_eq!(parsed.root().unwrap().get("b"), Some(&Value::Node(Node::new())));
}

#[test]
fn siblings_of_one_name_become_a_list() {
    let parsed = parse_string_promise("<a><b/><b/></a>").unwrap();
    assert_eq!(
        parsed.root().unwrap().get("b"),
        Some(&Value::List(vec![Node::new(), Node::new()]))
    );
    assert_eq!(parsed.root().unwrap().len(), 1);
}

#[test]
fn three_siblings_keep_document_order() {
    let parsed = parse_string_promise("<a><b n='1'/><b n='2'/><b n='3'/></a>").unwrap();
    let mut first = Node::new();
    first.set("n".to_string(), text("1"));
    let mut second = Node::new();
    second.set("n".to_string(), text("2"));
    let mut third = Node::new();
    third.set("n".to_string(), text("3"));
    assert_eq!(
        parsed.root().unwrap().get("b"),
        Some(&Value::List(vec![first, second, third]))
    );
}

#[test]
fn mixed_siblings() {
    let parsed = parse_string_promise("<a><b/><c/><b/></a>").unwrap();
    let root = parsed.root().unwrap();
    assert_eq!(root.len(), 2);
    assert_eq!(root.get("b"), Some(&Value::List(vec![Node::new(), Node::new()])));
    assert_eq!(root.get("c"), Some(&Value::Node(Node::new())));
}

#[test]
fn empty_input_gives_the_empty_document() {
    let parsed = parse_string_promise("").unwrap();
    assert_eq!(parsed, Document::empty());
    assert!(parsed.is_empty());
    assert_eq!(parsed.into_node().len(), 0);
}

#[test]
fn input_without_an_element_gives_the_empty_document() {
    assert!(parse_string_promise("   \n").unwrap().is_empty());
    assert!(parse_string_promise("<!-- nothing here -->").unwrap().is_empty());
    assert!(parse_string_promise("<?xml version=\"1.0\"?>").unwrap().is_empty());
}

#[test]
fn mismatched_end_tag_is_malformed() {
    let error = parse_string_promise("<a><b></a>").unwrap_err();
    assert_eq!(error.kind(), ErrorKind::MalformedXml);
    assert_eq!(error.stage(), Stage::Reading);
    assert!(error.message().starts_with("Error parsing XML: "));
    assert_eq!(error.message(), format!("Error parsing XML: {}", error.cause()));
    assert!(!error.cause().is_empty());
}

#[test]
fn unknown_reference_in_text_is_an_escape_failure() {
    let error = parse_string_promise("<a>&nosuch;</a>").unwrap_err();
    assert_eq!(error.kind(), ErrorKind::InvalidEscapeSequence);
    assert_eq!(error.stage(), Stage::Text);
    assert!(error.message().starts_with("Error parsing text: "));
}

#[test]
fn unknown_reference_in_attribute_is_an_escape_failure() {
    let error = parse_string_promise("<a x='&nosuch;'/>").unwrap_err();
    assert_eq!(error.kind(), ErrorKind::InvalidEscapeSequence);
    assert_eq!(error.stage(), Stage::AttributeValue);
    assert!(error.message().starts_with("Error parsing attribute value: "));
}

#[test]
fn parsing_twice_gives_the_same_tree() {
    let xml = "<r a='1'><x>t</x><y/><x k='v'/></r>";
    assert_eq!(parse_string_promise(xml).unwrap(), parse_string_promise(xml).unwrap());
}

#[test]
fn attribute_order_does_not_change_the_mapping() {
    let one = parse_string_promise("<a x='1' y='2'/>").unwrap();
    let other = parse_string_promise("<a y='2' x='1'/>").unwrap();
    let (one, other) = (one.root().unwrap(), other.root().unwrap());
    assert_eq!(one.len(), other.len());
    assert_eq!(one.get("x"), other.get("x"));
    assert_eq!(one.get("y"), other.get("y"));
}

#[test]
fn nested_elements() {
    let parsed = parse_string_promise(
        "<?xml version=\"1.0\"?>\n<lib id=\"7\">\n  <book><title>One</title></book>\n  <book><title>Two</title></book>\n  <note>n</note>\n</lib>\n",
    )
    .unwrap();
    let mut title_one = Node::new();
    title_one.set("#text".to_string(), text("One"));
    let mut book_one = Node::new();
    book_one.attach("title".to_string(), title_one);
    let mut title_two = Node::new();
    title_two.set("#text".to_string(), text("Two"));
    let mut book_two = Node::new();
    book_two.attach("title".to_string(), title_two);
    let mut note = Node::new();
    note.set("#text".to_string(), text("n"));
    let mut lib = Node::new();
    lib.set("id".to_string(), text("7"));
    lib.attach("book".to_string(), book_one);
    lib.attach("book".to_string(), book_two);
    lib.attach("note".to_string(), note);
    assert_eq!(parsed, document("lib", lib));
}

#[test]
fn later_text_replaces_earlier_text() {
    let parsed = parse_string_promise("<a>one<b/>two</a>").unwrap();
    let root = parsed.root().unwrap();
    assert_eq!(root.get("#text"), Some(&text("two")));
    assert_eq!(root.get("b"), Some(&Value::Node(Node::new())));
}

#[test]
fn child_takes_the_place_of_an_attribute_of_its_name() {
    let parsed = parse_string_promise("<a b='1'><b/></a>").unwrap();
    let root = parsed.root().unwrap();
    assert_eq!(root.len(), 1);
    assert_eq!(root.get("b"), Some(&Value::Node(Node::new())));
}

#[test]
fn malformed_attribute_is_passed_over() {
    let parsed = parse_string_promise("<a x='1' y=2 z='3'/>").unwrap();
    let root = parsed.root().unwrap();
    assert_eq!(root.get("x"), Some(&text("1")));
    assert_eq!(root.get("y"), None);
    assert_eq!(root.get("z"), Some(&text("3")));
}

#[test]
fn what_follows_the_root_is_not_in_the_tree() {
    let parsed = parse_string_promise("<a/>tail<b/>").unwrap();
    assert_eq!(parsed, document("a", Node::new()));
}

#[test]
fn unclosed_elements_count_as_closed() {
    let parsed = parse_string_promise("<a><b>").unwrap();
    let mut root = Node::new();
    root.attach("b".to_string(), Node::new());
    assert_eq!(parsed, document("a", root));
}
