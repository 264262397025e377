//! The tokenizer, `quick_xml`, and two functions of `std`, behind contracts that are
//! taken on trust.
//!
//! Nothing in this file is proved. Each function makes one call into `quick_xml` or
//! `std`, and its contract says what that call is relied on to do. What the tokenizer
//! computes is not written out: its results have names, [`document_tokens`] first among
//! them, and the contracts say no more than that a call returns what its name stands for.

use quick_xml::events::attributes::Attribute;
use quick_xml::events::{BytesStart, BytesText, Event};
use quick_xml::reader::Reader;
use vstd::prelude::*;
use vstd::utf8::{decode_utf8, valid_utf8};

verus! {

/// `quick_xml::reader::Reader`: carried from call to call, never looked into.
#[verifier::external_type_specification]
#[verifier::external_body]
#[verifier::reject_recursive_types(R)]
pub struct ExReader<R>(Reader<R>);

/// `quick_xml::events::BytesStart`: what stands between `<` and `>` in a start tag.
#[verifier::external_type_specification]
#[verifier::external_body]
pub struct ExBytesStart<'a>(BytesStart<'a>);

/// `quick_xml::events::BytesText`: character data as it stands in the document.
#[verifier::external_type_specification]
#[verifier::external_body]
pub struct ExBytesText<'a>(BytesText<'a>);

/// `quick_xml::events::attributes::Attribute`: one attribute as it stands in the tag.
#[verifier::external_type_specification]
#[verifier::external_body]
pub struct ExAttribute<'a>(Attribute<'a>);

/// `quick_xml::Error`: why the tokenizer gave up.
#[verifier::external_type_specification]
#[verifier::external_body]
pub struct ExError(quick_xml::Error);

/// One attribute of a tag: its name as bytes, and its value with references resolved,
/// or what the tokenizer said where they cannot be.
pub struct AttributeToken {
    pub key: Seq<u8>,
    pub value: Result<Seq<char>, Seq<char>>,
}

/// A start tag: its name as bytes and its attributes in the order in which they are
/// written. `None` stands for an attribute that is not well formed.
pub struct TagToken {
    pub name: Seq<u8>,
    pub attributes: Seq<Option<AttributeToken>>,
}

/// What the tokenizer hands out in one step.
pub enum Token {
    /// `<tag ...>`
    Start(TagToken),
    /// `<tag ... />`
    Empty(TagToken),
    /// `</tag>`
    End,
    /// Character data with references resolved, or what the tokenizer said where they
    /// cannot be.
    Text(Result<Seq<char>, Seq<char>>),
    /// `<![CDATA[...]]>`
    CData,
    /// `<!-- ... -->`
    Comment,
    /// `<?xml ...?>`
    Decl,
    /// `<?...?>`
    PI,
    /// `<!DOCTYPE ...>`
    DocType,
    /// The input is used up.
    Eof,
    /// The tokenizer gave up, and what it said.
    Failed(Seq<char>),
}

/// An event of the tokenizer, told apart by its kind and not yet looked into. Of the
/// kinds that the library passes over, only the kind is kept.
pub enum RawEvent<'a> {
    Start(BytesStart<'a>),
    End,
    Empty(BytesStart<'a>),
    Text(BytesText<'a>),
    CData,
    Comment,
    Decl,
    PI,
    DocType,
    Eof,
}

/// What a reader made from `xml` hands out, call after call, up to the first end of
/// input or failure, which stands last.
pub uninterp spec fn document_tokens(xml: Seq<char>) -> Seq<Token>;

/// What `reader` has yet to hand out, up to the first end of input or failure, which
/// stands last.
pub uninterp spec fn pending(reader: Reader<&[u8]>) -> Seq<Token>;

/// The name of `tag`, as bytes.
pub uninterp spec fn tag_name(tag: BytesStart) -> Seq<u8>;

/// The attributes of `tag`.
pub uninterp spec fn tag_attributes(tag: BytesStart) -> Seq<Option<AttributeToken>>;

/// The name of `attribute`, as bytes.
pub uninterp spec fn attribute_key(attribute: Attribute) -> Seq<u8>;

/// The value of `attribute` with references resolved, or what the tokenizer says where
/// they cannot be.
pub uninterp spec fn attribute_value(attribute: Attribute) -> Result<Seq<char>, Seq<char>>;

/// The content of `text` with references resolved, or what the tokenizer says where
/// they cannot be.
pub uninterp spec fn text_content(text: BytesText) -> Result<Seq<char>, Seq<char>>;

/// What `error` looks like when it is written out for debugging.
pub uninterp spec fn failure_text(error: quick_xml::Error) -> Seq<char>;

/// What `std` says of `bytes`, which are not UTF-8, when its complaint is written out
/// for debugging.
pub uninterp spec fn utf8_failure(bytes: Seq<u8>) -> Seq<char>;

/// Whether `c` has the Unicode property `White_Space`, which is what `char::is_whitespace`
/// tests and what `str::trim` removes.
pub uninterp spec fn is_white_space(c: char) -> bool;

/// `kept` is the part of `text` that begins at `start`, and all that lies before and
/// after it is white space.
pub open spec fn kept_from(text: Seq<char>, kept: Seq<char>, start: int) -> bool {
    &&& 0 <= start
    &&& start + kept.len() <= text.len()
    &&& kept == text.subrange(start, start + kept.len())
    &&& forall|i: int|
        0 <= i < start || start + kept.len() <= i < text.len() ==> is_white_space(
            #[trigger] text[i],
        )
}

/// The token that a tag stands for.
pub open spec fn tag_token(tag: BytesStart) -> TagToken {
    TagToken { name: tag_name(tag), attributes: tag_attributes(tag) }
}

/// The token that the result of one step stands for.
pub open spec fn token_of(pulled: Result<RawEvent, quick_xml::Error>) -> Token {
    match pulled {
        Ok(RawEvent::Start(tag)) => Token::Start(tag_token(tag)),
        Ok(RawEvent::Empty(tag)) => Token::Empty(tag_token(tag)),
        Ok(RawEvent::End) => Token::End,
        Ok(RawEvent::Text(text)) => Token::Text(text_content(text)),
        Ok(RawEvent::CData) => Token::CData,
        Ok(RawEvent::Comment) => Token::Comment,
        Ok(RawEvent::Decl) => Token::Decl,
        Ok(RawEvent::PI) => Token::PI,
        Ok(RawEvent::DocType) => Token::DocType,
        Ok(RawEvent::Eof) => Token::Eof,
        Err(error) => Token::Failed(failure_text(error)),
    }
}

/// The token that an item of a tag's attributes stands for.
pub open spec fn attribute_token(item: Option<Attribute>) -> Option<AttributeToken> {
    match item {
        Some(attribute) => Some(
            AttributeToken { key: attribute_key(attribute), value: attribute_value(attribute) },
        ),
        None => None,
    }
}

/// A text, or what the tokenizer said in place of one.
pub open spec fn text_or_failure(result: Result<String, quick_xml::Error>) -> Result<
    Seq<char>,
    Seq<char>,
> {
    match result {
        Ok(text) => Ok(text@),
        Err(error) => Err(failure_text(error)),
    }
}

/// `Reader::from_str`: the reader hands out the tokens of `xml`.
#[verifier::external_body]
pub(crate) fn open_reader<'a>(xml: &'a str) -> (reader: Reader<&'a [u8]>)
    ensures
        pending(reader) == document_tokens(xml@),
{
    Reader::from_str(xml)
}

/// `Reader::read_event`: hands out the first of the tokens that `reader` has yet to hand
/// out, of which there is always one. Unless that is the end of input or a failure, the
/// others are left.
#[verifier::external_body]
pub(crate) fn next_event<'a>(reader: &mut Reader<&'a [u8]>) -> (pulled: Result<
    RawEvent<'a>,
    quick_xml::Error,
>)
    ensures
        pending(*old(reader)).len() > 0 && token_of(pulled) == pending(*old(reader))[0],
        pulled is Ok && !(pulled matches Ok(RawEvent::Eof)) ==> pending(*final(reader)) == pending(
            *old(reader),
        ).skip(1),
{
    Ok(
        match reader.read_event()? {
            Event::Start(tag) => RawEvent::Start(tag),
            Event::End(_) => RawEvent::End,
            Event::Empty(tag) => RawEvent::Empty(tag),
            Event::Text(text) => RawEvent::Text(text),
            Event::CData(_) => RawEvent::CData,
            Event::Comment(_) => RawEvent::Comment,
            Event::Decl(_) => RawEvent::Decl,
            Event::PI(_) => RawEvent::PI,
            Event::DocType(_) => RawEvent::DocType,
            Event::Eof => RawEvent::Eof,
        },
    )
}

/// `BytesStart::name`: the name of the tag, as bytes.
#[verifier::external_body]
pub(crate) fn start_name<'a>(tag: &'a BytesStart) -> (name: &'a [u8])
    ensures
        name@ == tag_name(*tag),
{
    tag.name().into_inner()
}

/// `BytesStart::attributes`, walked to its end: the attributes of the tag in the order
/// in which they are written, with `None` in place of one that is not well formed.
#[verifier::external_body]
pub(crate) fn start_attributes<'a>(tag: &'a BytesStart) -> (items: Vec<Option<Attribute<'a>>>)
    ensures
        items@.len() == tag_attributes(*tag).len(),
        forall|i: int|
            0 <= i < items@.len() ==> attribute_token(#[trigger] items@[i]) == tag_attributes(
                *tag,
            )[i],
{
    tag.attributes().map(|item| item.ok()).collect()
}

/// The field `key` of an `Attribute`: the name of the attribute, as bytes.
#[verifier::external_body]
pub(crate) fn key_of<'a>(attribute: &'a Attribute) -> (key: &'a [u8])
    ensures
        key@ == attribute_key(*attribute),
{
    attribute.key.into_inner()
}

/// `Attribute::unescape_value`: the value with references resolved, or why they cannot be.
#[verifier::external_body]
pub(crate) fn value_of(attribute: &Attribute) -> (value: Result<String, quick_xml::Error>)
    ensures
        text_or_failure(value) == attribute_value(*attribute),
{
    attribute.unescape_value().map(|text| text.into_owned())
}

/// `BytesText::unescape`: the content with references resolved, or why they cannot be.
#[verifier::external_body]
pub(crate) fn text_of(text: &BytesText) -> (content: Result<String, quick_xml::Error>)
    ensures
        text_or_failure(content) == text_content(*text),
{
    text.unescape().map(|content| content.into_owned())
}

/// `Debug` for `quick_xml::Error`: the error written out for debugging.
#[verifier::external_body]
pub(crate) fn describe(error: &quick_xml::Error) -> (text: String)
    ensures
        text@ == failure_text(*error),
{
    format!("{:?}", error)
}

/// `std::str::from_utf8`: the text that `bytes` encode where they are UTF-8, and else
/// the complaint of `std`, written out for debugging.
#[verifier::external_body]
pub(crate) fn utf8_text(bytes: &[u8]) -> (text: Result<String, String>)
    ensures
        match text {
            Ok(decoded) => valid_utf8(bytes@) && decoded@ == decode_utf8(bytes@),
            Err(cause) => !valid_utf8(bytes@) && cause@ == utf8_failure(bytes@),
        },
{
    match std::str::from_utf8(bytes) {
        Ok(text) => Ok(text.to_string()),
        Err(error) => Err(format!("{:?}", error)),
    }
}

/// `str::trim`: the result is a part of `text`, it neither begins nor ends with white
/// space, and what was cut off on either side is white space.
#[verifier::external_body]
pub(crate) fn trim(text: &str) -> (kept: &str)
    ensures
        kept@.len() > 0 ==> !is_white_space(kept@.first()) && !is_white_space(kept@.last()),
        exists|start: int| kept_from(text@, kept@, start),
{
    text.trim()
}

} // verus!
