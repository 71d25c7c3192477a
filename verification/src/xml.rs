//! The XML tokenizer, behind trusted contracts.

use quick_xml::events::Event;
use quick_xml::Reader;
use vstd::prelude::*;

verus! {

/// `quick_xml::Reader`, the tokenizer over a source of bytes. Nothing of
/// its inside is known here.
#[verifier::external_type_specification]
#[verifier::external_body]
#[verifier::reject_recursive_types(R)]
pub struct ExReader<R>(Reader<R>);

/// One piece of an XML document, as far as sitemaps are concerned.
#[derive(Debug, Clone)]
pub enum XmlToken {
    /// A start tag; holds the element's local name, without any namespace
    /// prefix.
    Open(String),
    /// An end tag; holds the element's local name.
    Close(String),
    /// Character data between tags, as written in the document.
    Text(String),
    /// The content of a CDATA section.
    CData(String),
    /// Anything else: an empty-element tag, a comment, a declaration, a
    /// processing instruction, a document type.
    Other,
    /// The document has ended or is not readable any further.
    End,
}

/// Mathematical model of [`XmlToken`].
pub enum Token {
    Open(Seq<char>),
    Close(Seq<char>),
    Text(Seq<char>),
    CData(Seq<char>),
    Other,
    End,
}

impl View for XmlToken {
    type V = Token;

    open spec fn view(&self) -> Token {
        match self {
            XmlToken::Open(name) => Token::Open(name@),
            XmlToken::Close(name) => Token::Close(name@),
            XmlToken::Text(text) => Token::Text(text@),
            XmlToken::CData(text) => Token::CData(text@),
            XmlToken::Other => Token::Other,
            XmlToken::End => Token::End,
        }
    }
}

/// The tokens of an XML text up to its end or to the first place at which
/// the tokenizer gives up, when text between tags is stripped of the white
/// space around it.
pub uninterp spec fn xml_tokens(content: Seq<char>) -> Seq<Token>;

/// The tokens that a reader will still give before it next reports the end
/// of its input or an error.
pub uninterp spec fn pending_tokens(reader: Reader<&[u8]>) -> Seq<Token>;

/// `quick_xml::Reader::from_str` on `content`, with `trim_text(true)` set
/// on the reader's configuration. The contract names the tokens that the
/// new reader will give: they are a function of the text alone.
#[verifier::external_body]
pub(crate) fn open_reader<'a>(content: &'a str) -> (reader: Reader<&'a [u8]>)
    ensures
        pending_tokens(reader) == xml_tokens(content@),
{
    let mut reader = Reader::from_str(content);
    reader.config_mut().trim_text(true);
    reader
}

/// `quick_xml::Reader::read_event` on a reader over a slice. A start tag,
/// an end tag, text and CDATA come back with their bytes read as UTF-8
/// (lossily), tags by their local name; the end of input and every error
/// come back as [`XmlToken::End`]; every other event as
/// [`XmlToken::Other`]. The contract says that the reader hands out its
/// pending tokens one by one, first to last, and `End` once none is left.
#[verifier::external_body]
pub(crate) fn next_token(reader: &mut Reader<&[u8]>) -> (token: XmlToken)
    ensures
        pending_tokens(*old(reader)).len() == 0 ==> token is End,
        pending_tokens(*old(reader)).len() > 0 ==> {
            &&& !(token is End)
            &&& token@ == pending_tokens(*old(reader))[0]
            &&& pending_tokens(*final(reader)) == pending_tokens(*old(reader)).drop_first()
        },
{
    match reader.read_event() {
        Ok(Event::Start(e)) => XmlToken::Open(
            String::from_utf8_lossy(e.local_name().as_ref()).into_owned(),
        ),
        Ok(Event::End(e)) => XmlToken::Close(
            String::from_utf8_lossy(e.local_name().as_ref()).into_owned(),
        ),
        Ok(Event::Text(e)) => XmlToken::Text(String::from_utf8_lossy(&e).into_owned()),
        Ok(Event::CData(e)) => XmlToken::CData(String::from_utf8_lossy(&e).into_owned()),
        Ok(Event::Eof) | Err(_) => XmlToken::End,
        Ok(_) => XmlToken::Other,
    }
}

} // verus!
