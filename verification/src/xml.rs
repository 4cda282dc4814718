//! The tokens of a markup document, as the XML reader hands them out.

use quick_xml::events::Event;
use quick_xml::Reader;
use vstd::prelude::*;

verus! {

/// One attribute of a start tag: its name and its raw value.
#[derive(Debug, Clone, PartialEq, Eq)]
pub struct XmlAttribute {
    pub key: Vec<u8>,
    pub value: Vec<u8>,
}

/// The mathematical model of an [`XmlAttribute`].
pub struct AttributeModel {
    pub key: Seq<u8>,
    pub value: Seq<u8>,
}

impl View for XmlAttribute {
    type V = AttributeModel;

    open spec fn view(&self) -> AttributeModel {
        AttributeModel { key: self.key@, value: self.value@ }
    }
}

/// What the reader found next in a document.
#[derive(Debug, Clone, PartialEq, Eq)]
pub enum XmlToken {
    /// A start tag. Its attributes stand in the order of the tag; `None`
    /// stands for the first one that is malformed, after which the reader
    /// looks no further.
    Start { name: Vec<u8>, attributes: Vec<Option<XmlAttribute>> },
    /// An end tag.
    End { name: Vec<u8> },
    /// Character data between tags, unescaped; `None` where it cannot be
    /// unescaped or is not UTF-8.
    Text { content: Option<String> },
    /// Anything else: a comment, a declaration, an element that is empty
    /// and not expanded, or markup that the reader gave up on.
    Other,
    /// The end of the document.
    Eof,
}

/// The mathematical model of an [`XmlToken`].
pub enum TokenModel {
    Start { name: Seq<u8>, attributes: Seq<Option<AttributeModel>> },
    End { name: Seq<u8> },
    Text { content: Option<Seq<char>> },
    Other,
    Eof,
}

/// The model of the attributes of a start tag.
pub open spec fn attributes_model(attributes: Seq<Option<XmlAttribute>>) -> Seq<
    Option<AttributeModel>,
> {
    Seq::new(
        attributes.len(),
        |i: int|
            match attributes[i] {
                Some(a) => Some(a@),
                None => None,
            },
    )
}

impl View for XmlToken {
    type V = TokenModel;

    open spec fn view(&self) -> TokenModel {
        match self {
            XmlToken::Start { name, attributes } => TokenModel::Start {
                name: name@,
                attributes: attributes_model(attributes@),
            },
            XmlToken::End { name } => TokenModel::End { name: name@ },
            XmlToken::Text { content } => TokenModel::Text {
                content: match content {
                    Some(t) => Some(t@),
                    None => None,
                },
            },
            XmlToken::Other => TokenModel::Other,
            XmlToken::Eof => TokenModel::Eof,
        }
    }
}

/// The models of a sequence of tokens.
pub open spec fn tokens_model(tokens: Seq<XmlToken>) -> Seq<TokenModel> {
    Seq::new(tokens.len(), |i: int| tokens[i]@)
}

/// A quick-xml `Reader` over a document that is held in memory. Nothing is
/// known of it but what [`pending_tokens`] says.
#[verifier::external_body]
pub struct TokenReader<'a> {
    inner: Reader<&'a [u8]>,
}

/// The tokens that a reader hands out for the document `xml` before it
/// reports the end: none of them is [`TokenModel::Eof`]. The reader does not
/// hold end tags against start tags; with `expand_empty` it hands out an
/// empty element as a start tag and an end tag.
pub uninterp spec fn xml_tokens(xml: Seq<u8>, expand_empty: bool) -> Seq<TokenModel>;

/// The tokens that a reader has yet to hand out before it reports the end.
pub uninterp spec fn pending_tokens(reader: &TokenReader) -> Seq<TokenModel>;

/// `Reader::from_reader` of quick-xml, followed by `check_end_names(false)`
/// and `expand_empty_elements(expand_empty)`: a reader at the start of `xml`
/// that does not hold end tags against start tags and expands empty
/// elements as asked. The contract claims that what the reader will hand
/// out depends on `xml` and `expand_empty` alone.
#[verifier::external_body]
pub(crate) fn open_reader<'a>(xml: &'a [u8], expand_empty: bool) -> (reader: TokenReader<'a>)
    ensures
        pending_tokens(&reader) == xml_tokens(xml@, expand_empty),
{
    let mut inner = Reader::from_reader(xml);
    inner.check_end_names(false);
    inner.expand_empty_elements(expand_empty);
    TokenReader { inner }
}

/// `Reader::read_event` of quick-xml, with the event copied out of the
/// reader's buffer by `BytesStart::name`, `BytesStart::attributes`,
/// `BytesEnd::name` and `BytesText::unescape_and_decode`. The contract
/// claims that the reader hands out its pending tokens one by one and then
/// `Eof`, and `Eof` only then. That the pending tokens are finitely many
/// rests on this: each event takes up at least one byte of the document,
/// but for the end tag of an expanded empty element, and after an error the
/// reader hands out `Eof` alone.
#[verifier::external_body]
pub(crate) fn next_token(reader: &mut TokenReader) -> (token: XmlToken)
    ensures
        pending_tokens(old(reader)).len() == 0 ==> token@ == TokenModel::Eof
            && pending_tokens(final(reader)).len() == 0,
        pending_tokens(old(reader)).len() > 0 ==> token@ == pending_tokens(old(reader))[0]
            && token@ != TokenModel::Eof && pending_tokens(final(reader)) == pending_tokens(
            old(reader),
        ).drop_first(),
{
    let mut buf = Vec::new();
    match reader.inner.read_event(&mut buf) {
        Ok(Event::Start(e)) => XmlToken::Start {
            name: e.name().to_vec(),
            attributes: e.attributes().map(
                |a| a.ok().map(|a| XmlAttribute { key: a.key.to_vec(), value: a.value.to_vec() }),
            ).collect(),
        },
        Ok(Event::End(e)) => XmlToken::End { name: e.name().to_vec() },
        Ok(Event::Text(e)) => XmlToken::Text { content: e.unescape_and_decode(&reader.inner).ok() },
        Ok(Event::Eof) => XmlToken::Eof,
        _ => XmlToken::Other,
    }
}

/// The tokens of a document, in order and without the end.
pub fn tokenize(xml: &[u8], expand_empty: bool) -> (tokens: Vec<XmlToken>)
    ensures
        tokens_model(tokens@) == xml_tokens(xml@, expand_empty),
{
    let mut reader = open_reader(xml, expand_empty);
    let mut tokens: Vec<XmlToken> = Vec::new();
    let ghost all = xml_tokens(xml@, expand_empty);
    assert(tokens_model(tokens@) + pending_tokens(&reader) =~= all);
    loop
        invariant
            tokens_model(tokens@) + pending_tokens(&reader) == all,
        ensures
            tokens_model(tokens@) == all,
        decreases pending_tokens(&reader).len(),
    {
        let ghost seen = tokens_model(tokens@);
        let ghost pending = pending_tokens(&reader);
        let token = next_token(&mut reader);
        match token {
            XmlToken::Eof => {
                assert(seen + pending =~= seen);
                break ;
            },
            _ => {
                tokens.push(token);
                assert(tokens_model(tokens@) =~= seen.push(pending[0]));
                assert(seen.push(pending[0]) + pending.drop_first() =~= seen + pending);
            },
        }
    }
    tokens
}

} // verus!
