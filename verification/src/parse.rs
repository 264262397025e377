//! From the text of a document to its tree.

use crate::builder::{document_of, BuilderView, TreeBuilder};
use crate::document::{Document, DocumentView};
use crate::error::{ErrorView, ParseError, Stage};
use crate::event::{attributes_view, EventView, XmlEvent};
use crate::laws::lemma_outcome_is_well_formed;
use crate::source::{
    attribute_token, describe, document_tokens, key_of, next_event, open_reader, pending,
    start_attributes, start_name, tag_attributes, tag_token, text_of, utf8_failure, utf8_text,
    value_of, AttributeToken, RawEvent, TagToken, Token,
};
use quick_xml::events::attributes::Attribute;
use quick_xml::events::BytesStart;
use vstd::prelude::*;
use vstd::utf8::{decode_utf8, valid_utf8};

verus! {

/// The text that `bytes` encode, or the failure at `stage` where they are not UTF-8.
pub open spec fn decoded_name(bytes: Seq<u8>, stage: Stage) -> Result<Seq<char>, ErrorView> {
    if valid_utf8(bytes) {
        Ok(decode_utf8(bytes))
    } else {
        Err(ErrorView { stage, cause: utf8_failure(bytes) })
    }
}

/// The tokens that the items of a tag's attributes stand for.
pub open spec fn tokens_of(items: Seq<Option<Attribute>>) -> Seq<Option<AttributeToken>> {
    Seq::new(items.len(), |i: int| attribute_token(items[i]))
}

/// The attributes of a tag, decoded first to last. One that is not well formed is left
/// out. The first name that is not UTF-8, or value that cannot be resolved, is the
/// failure; of one attribute the name is looked at first.
pub open spec fn decode_attributes(items: Seq<Option<AttributeToken>>) -> Result<
    Seq<(Seq<char>, Seq<char>)>,
    ErrorView,
>
    decreases items.len(),
{
    if items.len() == 0 {
        Ok(Seq::empty())
    } else {
        match decode_attributes(items.drop_last()) {
            Err(error) => Err(error),
            Ok(earlier) => match items.last() {
                None => Ok(earlier),
                Some(attribute) => match decoded_name(attribute.key, Stage::AttributeKey) {
                    Err(error) => Err(error),
                    Ok(key) => match attribute.value {
                        Err(cause) => Err(ErrorView { stage: Stage::AttributeValue, cause }),
                        Ok(value) => Ok(earlier.push((key, value))),
                    },
                },
            },
        }
    }
}

/// The event that a start tag stands for: its name is decoded first, then its
/// attributes.
pub open spec fn decode_tag(tag: TagToken) -> Result<EventView, ErrorView> {
    match decoded_name(tag.name, Stage::TagName) {
        Err(error) => Err(error),
        Ok(name) => match decode_attributes(tag.attributes) {
            Err(error) => Err(error),
            Ok(attributes) => Ok(EventView::StartTag { name, attributes }),
        },
    }
}

/// The events that `tokens` stand for, up to the first end of input, or the first
/// failure met before it. A tag that closes itself opens and closes; comments,
/// declarations, processing instructions, document types and `CDATA` sections are
/// passed over. Tokens that stop short of an end of input count as ended there.
pub open spec fn events_of(tokens: Seq<Token>) -> Result<Seq<EventView>, ErrorView>
    decreases tokens.len(),
{
    if tokens.len() == 0 {
        Ok(Seq::empty())
    } else {
        match tokens[0] {
            Token::Eof => Ok(Seq::empty()),
            Token::Failed(cause) => Err(ErrorView { stage: Stage::Reading, cause }),
            Token::Text(Err(cause)) => Err(ErrorView { stage: Stage::Text, cause }),
            Token::Text(Ok(content)) => followed_by(
                seq![EventView::Text { content }],
                events_of(tokens.skip(1)),
            ),
            Token::CData | Token::Comment | Token::Decl | Token::PI | Token::DocType => events_of(
                tokens.skip(1),
            ),
            Token::End => followed_by(seq![EventView::EndTag], events_of(tokens.skip(1))),
            Token::Start(tag) => match decode_tag(tag) {
                Err(error) => Err(error),
                Ok(start) => followed_by(seq![start], events_of(tokens.skip(1))),
            },
            Token::Empty(tag) => match decode_tag(tag) {
                Err(error) => Err(error),
                Ok(start) => followed_by(
                    seq![start, EventView::EndTag],
                    events_of(tokens.skip(1)),
                ),
            },
        }
    }
}

/// `first`, then what `rest` holds, if it holds events.
pub open spec fn followed_by(
    first: Seq<EventView>,
    rest: Result<Seq<EventView>, ErrorView>,
) -> Result<Seq<EventView>, ErrorView> {
    match rest {
        Ok(events) => Ok(first + events),
        Err(error) => Err(error),
    }
}

/// What a builder in state `state` makes of `tokens`.
pub open spec fn outcome_from(state: BuilderView, tokens: Seq<Token>) -> Result<
    DocumentView,
    ErrorView,
> {
    match events_of(tokens) {
        Ok(events) => Ok(state.run(events).document()),
        Err(error) => Err(error),
    }
}

/// What becomes of a document whose tokens are `tokens`: the tree that their events
/// describe, or the first failure.
pub open spec fn outcome(tokens: Seq<Token>) -> Result<DocumentView, ErrorView> {
    match events_of(tokens) {
        Ok(events) => Ok(document_of(events)),
        Err(error) => Err(error),
    }
}

/// The model of the result of a conversion.
pub open spec fn result_view(result: Result<Document, ParseError>) -> Result<
    DocumentView,
    ErrorView,
> {
    match result {
        Ok(document) => Ok(document@),
        Err(error) => Err(error@),
    }
}

/// Decodes a tag name or an attribute name: the text that `bytes` encode, or the failure
/// at `stage` where they are not UTF-8.
pub fn decode_name(bytes: &[u8], stage: Stage) -> (name: Result<String, ParseError>)
    ensures
        match name {
            Ok(text) => decoded_name(bytes@, stage) == Ok::<Seq<char>, ErrorView>(text@),
            Err(error) => decoded_name(bytes@, stage) == Err::<Seq<char>, ErrorView>(error@),
        },
{
    match utf8_text(bytes) {
        Ok(text) => Ok(text),
        Err(cause) => Err(ParseError::new(stage, cause)),
    }
}

/// Decodes the attributes of a tag.
fn attribute_list(items: &Vec<Option<Attribute>>) -> (list: Result<
    Vec<(String, String)>,
    ParseError,
>)
    ensures
        match list {
            Ok(attributes) => decode_attributes(tokens_of(items@)) == Ok::<
                Seq<(Seq<char>, Seq<char>)>,
                ErrorView,
            >(attributes_view(attributes@)),
            Err(error) => decode_attributes(tokens_of(items@)) == Err::<
                Seq<(Seq<char>, Seq<char>)>,
                ErrorView,
            >(error@),
        },
{
    let ghost all = tokens_of(items@);
    let mut attributes: Vec<(String, String)> = Vec::new();
    let mut i: usize = 0;
    assert(all.take(0) =~= Seq::empty());
    assert(attributes_view(attributes@) =~= Seq::empty());
    while i < items.len()
        invariant
            i <= items.len(),
            all == tokens_of(items@),
            decode_attributes(all.take(i as int)) == Ok::<Seq<(Seq<char>, Seq<char>)>, ErrorView>(
                attributes_view(attributes@),
            ),
        decreases items.len() - i,
    {
        proof {
            assert(all.take(i + 1).drop_last() =~= all.take(i as int));
            assert(all.take(i + 1).last() == all[i as int]);
        }
        match &items[i] {
            None => {},
            Some(attribute) => {
                let key = match decode_name(key_of(attribute), Stage::AttributeKey) {
                    Ok(key) => key,
                    Err(error) => {
                        proof {
                            lemma_failure_stays(all, i + 1);
                        }
                        return Err(error);
                    },
                };
                let value = match value_of(attribute) {
                    Ok(value) => value,
                    Err(error) => {
                        proof {
                            lemma_failure_stays(all, i + 1);
                        }
                        return Err(ParseError::new(Stage::AttributeValue, describe(&error)));
                    },
                };
                let ghost before = attributes_view(attributes@);
                attributes.push((key, value));
                assert(attributes_view(attributes@) =~= before.push((key@, value@)));
            },
        }
        i += 1;
    }
    assert(all.take(i as int) =~= all);
    Ok(attributes)
}

/// Decodes a start tag.
fn start_event(tag: &BytesStart) -> (event: Result<XmlEvent, ParseError>)
    ensures
        match event {
            Ok(start) => decode_tag(tag_token(*tag)) == Ok::<EventView, ErrorView>(start@),
            Err(error) => decode_tag(tag_token(*tag)) == Err::<EventView, ErrorView>(error@),
        },
{
    let name = match decode_name(start_name(tag), Stage::TagName) {
        Ok(name) => name,
        Err(error) => {
            return Err(error);
        },
    };
    let items = start_attributes(tag);
    assert(tokens_of(items@) =~= tag_attributes(*tag));
    match attribute_list(&items) {
        Ok(attributes) => Ok(XmlEvent::StartTag { name, attributes }),
        Err(error) => Err(error),
    }
}

/// Converts the text of an XML document into its tree.
///
/// The document is tokenized, its tokens are decoded into events, and the events are
/// built into a tree: the result is the root element under its tag name, or the empty
/// document where `xml` holds no element. The first failure, of the tokenizer or of
/// decoding, is returned in place of a tree.
pub fn parse_string_promise(xml: &str) -> (result: Result<Document, ParseError>)
    ensures
        result_view(result) == outcome(document_tokens(xml@)),
        result matches Ok(document) ==> (document@.root matches Some(root)
            ==> root.1.well_formed()),
{
    let mut reader = open_reader(xml);
    let mut builder = TreeBuilder::new();
    loop
        invariant
            outcome_from(builder@, pending(reader)) == outcome(document_tokens(xml@)),
        decreases pending(reader).len(),
    {
        let ghost state = builder@;
        let ghost tokens = pending(reader);
        match next_event(&mut reader) {
            Err(error) => {
                return Err(ParseError::new(Stage::Reading, describe(&error)));
            },
            Ok(RawEvent::Eof) => {
                proof {
                    assert(state.run(Seq::empty()) == state);
                    lemma_outcome_is_well_formed(document_tokens(xml@));
                }
                return Ok(builder.on_end_of_input());
            },
            Ok(RawEvent::CData) | Ok(RawEvent::Comment) | Ok(RawEvent::Decl) | Ok(RawEvent::PI) | Ok(
                RawEvent::DocType,
            ) => {},
            Ok(RawEvent::End) => {
                builder.on_end_tag();
                proof {
                    lemma_run_one(state, EventView::EndTag, events_of(tokens.skip(1)));
                }
            },
            Ok(RawEvent::Text(text)) => {
                match text_of(&text) {
                    Err(error) => {
                        return Err(ParseError::new(Stage::Text, describe(&error)));
                    },
                    Ok(content) => {
                        builder.on_text(content.as_str());
                        proof {
                            lemma_run_one(
                                state,
                                EventView::Text { content: content@ },
                                events_of(tokens.skip(1)),
                            );
                        }
                    },
                }
            },
            Ok(RawEvent::Start(tag)) => {
                match start_event(&tag) {
                    Err(error) => {
                        return Err(error);
                    },
                    Ok(start) => {
                        builder.on_event(&start);
                        proof {
                            lemma_run_one(state, start@, events_of(tokens.skip(1)));
                        }
                    },
                }
            },
            Ok(RawEvent::Empty(tag)) => {
                match start_event(&tag) {
                    Err(error) => {
                        return Err(error);
                    },
                    Ok(start) => {
                        builder.on_event(&start);
                        builder.on_end_tag();
                        proof {
                            lemma_run_two(
                                state,
                                start@,
                                EventView::EndTag,
                                events_of(tokens.skip(1)),
                            );
                        }
                    },
                }
            },
        }
    }
}

/// Running one event, then others, is running them all.
proof fn lemma_run_one(
    state: BuilderView,
    first: EventView,
    rest: Result<Seq<EventView>, ErrorView>,
)
    requires
        !(first is EndOfInput),
    ensures
        followed_by(seq![first], rest) matches Ok(events) ==> rest matches Ok(others)
            && state.run(events) == state.step(first).run(others),
{
    if let Ok(others) = rest {
        assert((seq![first] + others).skip(1) =~= others);
    }
}

/// Running two events, then others, is running them all.
proof fn lemma_run_two(
    state: BuilderView,
    first: EventView,
    second: EventView,
    rest: Result<Seq<EventView>, ErrorView>,
)
    requires
        !(first is EndOfInput),
        !(second is EndOfInput),
    ensures
        followed_by(seq![first, second], rest) matches Ok(events) ==> rest matches Ok(others)
            && state.run(events) == state.step(first).step(second).run(others),
{
    if let Ok(others) = rest {
        assert((seq![first, second] + others).skip(1) =~= seq![second] + others);
        lemma_run_one(state.step(first), second, rest);
    }
}

/// A failure among the first attributes of a tag is the failure of them all.
proof fn lemma_failure_stays(items: Seq<Option<AttributeToken>>, n: int)
    requires
        0 <= n <= items.len(),
        decode_attributes(items.take(n)) is Err,
    ensures
        decode_attributes(items) == decode_attributes(items.take(n)),
    decreases items.len() - n,
{
    if n < items.len() {
        assert(items.take(n + 1).drop_last() =~= items.take(n));
        lemma_failure_stays(items, n + 1);
    } else {
        assert(items.take(n) =~= items);
    }
}

} // verus!
