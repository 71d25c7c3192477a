//! Decoding of sitemap documents: the structured decoder over XML tokens
//! and the lenient scan for documents that the decoder gets nothing from.

use crate::error::SitemapError;
use crate::text::{
    chars_of, contains, contains_text, find, find_from, lemma_find_from_is_first, same_text,
    string_of, trim, trim_slice,
};
use crate::url_set::{texts, with_url, UrlSet};
use crate::urls::{absolute, make_absolute_url};
use crate::xml::{next_token, open_reader, pending_tokens, xml_tokens, Token, XmlToken};
use vstd::prelude::*;
use vstd::slice::slice_subrange;
use vstd::string::StringExecFns;

verus! {

/// What one sitemap document holds.
pub struct SitemapParseResult {
    /// The content URLs, each once, in document order.
    pub urls: UrlSet,
    /// The sitemaps that the document refers to, in document order.
    pub nested_sitemaps: Vec<String>,
}

/// Mathematical model of [`SitemapParseResult`].
pub struct Decoded {
    pub urls: Seq<Seq<char>>,
    pub nested_sitemaps: Seq<Seq<char>>,
}

impl Decoded {
    /// Nothing found.
    pub open spec fn empty() -> Decoded {
        Decoded { urls: Seq::empty(), nested_sitemaps: Seq::empty() }
    }

    /// Whether nothing was found.
    pub open spec fn is_empty(self) -> bool {
        self.urls.len() == 0 && self.nested_sitemaps.len() == 0
    }

    /// With one more content URL, unless it is there already.
    pub open spec fn with_page(self, url: Seq<char>) -> Decoded {
        Decoded { urls: with_url(self.urls, url), nested_sitemaps: self.nested_sitemaps }
    }

    /// With one more reference to a sitemap.
    pub open spec fn with_sitemap(self, url: Seq<char>) -> Decoded {
        Decoded { urls: self.urls, nested_sitemaps: self.nested_sitemaps.push(url) }
    }
}

impl View for SitemapParseResult {
    type V = Decoded;

    open spec fn view(&self) -> Decoded {
        Decoded { urls: self.urls@, nested_sitemaps: texts(self.nested_sitemaps@) }
    }
}

impl Default for SitemapParseResult {
    fn default() -> (r: SitemapParseResult)
        ensures
            r@ == Decoded::empty(),
    {
        let nested_sitemaps: Vec<String> = Vec::new();
        assert(texts(nested_sitemaps@) =~= Seq::<Seq<char>>::empty());
        SitemapParseResult { urls: UrlSet::new(), nested_sitemaps }
    }
}

impl SitemapParseResult {
    /// Whether the document gave neither a content URL nor a reference.
    pub fn is_empty(&self) -> (r: bool)
        ensures
            r == self@.is_empty(),
    {
        self.urls.is_empty() && self.nested_sitemaps.len() == 0
    }

    /// Records a reference to another sitemap.
    pub fn push_sitemap(&mut self, url: String)
        ensures
            final(self)@ == old(self)@.with_sitemap(url@),
    {
        let ghost before = self.nested_sitemaps@;
        self.nested_sitemaps.push(url);
        assert(texts(self.nested_sitemaps@) =~= texts(before).push(url@));
    }

    /// Records a content URL.
    pub fn insert_page(&mut self, url: String)
        ensures
            final(self)@ == old(self)@.with_page(url@),
    {
        self.urls.insert(url);
    }
}

/// Where the structured decoder stands in a document.
pub struct DecoderState {
    /// Inside a `url` element.
    pub in_url: bool,
    /// Inside a `sitemap` element.
    pub in_sitemap: bool,
    /// Inside an `image` element.
    pub in_image: bool,
    /// Inside a `loc` element.
    pub in_loc: bool,
    /// The text of the open `loc` element so far.
    pub text: Seq<char>,
    /// What the document has given so far.
    pub found: Decoded,
}

impl DecoderState {
    /// The state before the first token.
    pub open spec fn initial() -> DecoderState {
        DecoderState {
            in_url: false,
            in_sitemap: false,
            in_image: false,
            in_loc: false,
            text: Seq::empty(),
            found: Decoded::empty(),
        }
    }

    /// The state after a start tag.
    pub open spec fn open_tag(self, name: Seq<char>) -> DecoderState {
        if name == "url"@ {
            DecoderState { in_url: true, ..self }
        } else if name == "sitemap"@ {
            DecoderState { in_sitemap: true, ..self }
        } else if name == "image"@ {
            DecoderState { in_image: true, ..self }
        } else if name == "loc"@ {
            DecoderState { in_loc: true, text: Seq::empty(), ..self }
        } else {
            self
        }
    }

    /// The state after the end tag of a `loc` element. Inside a `sitemap`
    /// element its trimmed text is a reference to a sitemap, made absolute
    /// against `base`; else, inside a `url` element and outside any `image`
    /// element, it is a content URL; anywhere else, or with nothing but
    /// white space in it, it is dropped. The error is the message for a
    /// reference that cannot be made absolute.
    pub open spec fn close_loc(self, base: Seq<char>) -> Result<DecoderState, Seq<char>> {
        let url = trim(self.text);
        let closed = DecoderState { in_loc: false, text: Seq::empty(), ..self };
        if !self.in_loc {
            Ok(self)
        } else if url.len() == 0 {
            Ok(closed)
        } else if self.in_sitemap {
            match absolute(url, base) {
                Ok(u) => Ok(DecoderState { found: self.found.with_sitemap(u), ..closed }),
                Err(m) => Err(m),
            }
        } else if self.in_url && !self.in_image {
            Ok(DecoderState { found: self.found.with_page(url), ..closed })
        } else {
            Ok(closed)
        }
    }

    /// The state after an end tag.
    pub open spec fn close_tag(self, name: Seq<char>, base: Seq<char>) -> Result<
        DecoderState,
        Seq<char>,
    > {
        if name == "url"@ {
            Ok(DecoderState { in_url: false, ..self })
        } else if name == "sitemap"@ {
            Ok(DecoderState { in_sitemap: false, ..self })
        } else if name == "image"@ {
            Ok(DecoderState { in_image: false, ..self })
        } else if name == "loc"@ {
            self.close_loc(base)
        } else {
            Ok(self)
        }
    }

    /// The state after character data.
    pub open spec fn characters(self, text: Seq<char>) -> DecoderState {
        if self.in_loc {
            DecoderState { text: self.text + text, ..self }
        } else {
            self
        }
    }

    /// The state after one token.
    pub open spec fn step(self, token: Token, base: Seq<char>) -> Result<DecoderState, Seq<char>> {
        match token {
            Token::Open(name) => Ok(self.open_tag(name)),
            Token::Close(name) => self.close_tag(name, base),
            Token::Text(text) => Ok(self.characters(text)),
            Token::CData(text) => Ok(self.characters(text)),
            Token::Other => Ok(self),
            Token::End => Ok(self),
        }
    }

    /// The state after a run of tokens, or the first error on the way.
    pub open spec fn run(self, tokens: Seq<Token>, base: Seq<char>) -> Result<
        DecoderState,
        Seq<char>,
    >
        decreases tokens.len(),
    {
        if tokens.len() == 0 {
            Ok(self)
        } else {
            match self.step(tokens[0], base) {
                Ok(next) => next.run(tokens.drop_first(), base),
                Err(m) => Err(m),
            }
        }
    }
}

/// The structured decoder: it is fed the tokens of a document one by one.
pub struct SitemapDecoder {
    in_url: bool,
    in_sitemap: bool,
    in_image: bool,
    in_loc: bool,
    current_text: String,
    result: SitemapParseResult,
}

impl View for SitemapDecoder {
    type V = DecoderState;

    closed spec fn view(&self) -> DecoderState {
        DecoderState {
            in_url: self.in_url,
            in_sitemap: self.in_sitemap,
            in_image: self.in_image,
            in_loc: self.in_loc,
            text: self.current_text@,
            found: self.result@,
        }
    }
}

impl SitemapDecoder {
    /// A decoder at the start of a document.
    pub fn new() -> (d: SitemapDecoder)
        ensures
            d@ == DecoderState::initial(),
    {
        SitemapDecoder {
            in_url: false,
            in_sitemap: false,
            in_image: false,
            in_loc: false,
            current_text: String::new(),
            result: SitemapParseResult::default(),
        }
    }

    /// What the tokens fed so far have given.
    pub fn into_result(self) -> (r: SitemapParseResult)
        ensures
            r@ == self@.found,
    {
        self.result
    }

    fn close_loc(&mut self, base_url: &str) -> (r: Result<(), SitemapError>)
        ensures
            match r {
                Ok(()) => old(self)@.close_loc(base_url@) == Ok::<DecoderState, Seq<char>>(
                    final(self)@,
                ),
                Err(e) => {
                    &&& e is InvalidUrl
                    &&& old(self)@.close_loc(base_url@) == Err::<DecoderState, Seq<char>>(e.text())
                    &&& final(self)@ == old(self)@
                },
            },
    {
        if !self.in_loc {
            return Ok(());
        }
        let chars = chars_of(self.current_text.as_str());
        let url = trim_slice(chars.as_slice());
        if url.len() > 0 {
            if self.in_sitemap {
                let reference = string_of(url);
                match make_absolute_url(reference.as_str(), base_url) {
                    Ok(absolute_url) => {
                        self.result.push_sitemap(absolute_url);
                    },
                    Err(e) => {
                        return Err(e);
                    },
                }
            } else if self.in_url && !self.in_image {
                self.result.insert_page(string_of(url));
            }
        }
        self.in_loc = false;
        self.current_text = String::new();
        Ok(())
    }

    /// Takes the next token of the document. Fails with
    /// [`SitemapError::InvalidUrl`], and stays as it was, exactly where the
    /// token closes a reference to a sitemap that cannot be made absolute
    /// against `base_url`.
    pub fn feed(&mut self, token: &XmlToken, base_url: &str) -> (r: Result<(), SitemapError>)
        ensures
            match r {
                Ok(()) => old(self)@.step(token@, base_url@) == Ok::<DecoderState, Seq<char>>(
                    final(self)@,
                ),
                Err(e) => {
                    &&& e is InvalidUrl
                    &&& old(self)@.step(token@, base_url@) == Err::<DecoderState, Seq<char>>(
                        e.text(),
                    )
                    &&& final(self)@ == old(self)@
                },
            },
    {
        match token {
            XmlToken::Open(name) => {
                if same_text(name.as_str(), "url") {
                    self.in_url = true;
                } else if same_text(name.as_str(), "sitemap") {
                    self.in_sitemap = true;
                } else if same_text(name.as_str(), "image") {
                    self.in_image = true;
                } else if same_text(name.as_str(), "loc") {
                    self.in_loc = true;
                    self.current_text = String::new();
                }
                Ok(())
            },
            XmlToken::Close(name) => {
                if same_text(name.as_str(), "url") {
                    self.in_url = false;
                    Ok(())
                } else if same_text(name.as_str(), "sitemap") {
                    self.in_sitemap = false;
                    Ok(())
                } else if same_text(name.as_str(), "image") {
                    self.in_image = false;
                    Ok(())
                } else if same_text(name.as_str(), "loc") {
                    self.close_loc(base_url)
                } else {
                    Ok(())
                }
            },
            XmlToken::Text(text) => {
                if self.in_loc {
                    self.current_text.append(text.as_str());
                }
                Ok(())
            },
            XmlToken::CData(text) => {
                if self.in_loc {
                    self.current_text.append(text.as_str());
                }
                Ok(())
            },
            XmlToken::Other => Ok(()),
            XmlToken::End => Ok(()),
        }
    }
}

/// The next complete pair of `<loc>` and `</loc>` at or after `start`: where
/// its opening tag and its closing tag begin.
pub open spec fn next_loc(text: Seq<char>, start: int) -> Option<(int, int)> {
    match find_from(text, "<loc>"@, start) {
        Some(open) => match find_from(text, "</loc>"@, open + "<loc>"@.len()) {
            Some(close) => Some((open, close)),
            None => None,
        },
        None => None,
    }
}

/// The hundred characters before index `at`, or as many as there are.
pub open spec fn window_before(text: Seq<char>, at: int) -> Seq<char> {
    text.subrange(
        if at > 100 {
            at - 100
        } else {
            0
        },
        at,
    )
}

/// Whether a window opens a `sitemap` element and does not close one.
pub open spec fn opens_sitemap(window: Seq<char>) -> bool {
    contains_text(window, "<sitemap"@) && !contains_text(window, "</sitemap>"@)
}

/// The lenient scan of `text` from index `start` on, added to `found`.
/// Each pair of `<loc>` and `</loc>` gives its trimmed text, unless that is
/// empty: as a reference to a sitemap, made absolute against `base`, where
/// the window before the pair opens a `sitemap` element; as a content URL
/// otherwise. The error is the message for the first reference that cannot
/// be made absolute.
pub open spec fn scan_from(text: Seq<char>, start: int, base: Seq<char>, found: Decoded) -> Result<
    Decoded,
    Seq<char>,
>
    decreases text.len() - start,
    via scan_from_decreases
{
    match next_loc(text, start) {
        None => Ok(found),
        Some((open, close)) => {
            let url = trim(text.subrange(open + "<loc>"@.len(), close));
            let next = close + "</loc>"@.len();
            if url.len() == 0 {
                scan_from(text, next, base, found)
            } else if opens_sitemap(window_before(text, open)) {
                match absolute(url, base) {
                    Ok(u) => scan_from(text, next, base, found.with_sitemap(u)),
                    Err(m) => Err(m),
                }
            } else {
                scan_from(text, next, base, found.with_page(url))
            }
        },
    }
}

#[via_fn]
proof fn scan_from_decreases(text: Seq<char>, start: int, base: Seq<char>, found: Decoded) {
    lemma_next_loc_bounds(text, start);
}

/// A pair found at or after `start` lies within the text, its closing tag
/// behind its opening tag.
pub proof fn lemma_next_loc_bounds(text: Seq<char>, start: int)
    ensures
        "<loc>"@.len() == 5,
        "</loc>"@.len() == 6,
        match next_loc(text, start) {
            Some((open, close)) => {
                &&& 0 <= start <= open
                &&& open + 5 <= close
                &&& close + 6 <= text.len()
            },
            None => true,
        },
{
    reveal_strlit("<loc>");
    reveal_strlit("</loc>");
    if start >= 0 {
        lemma_find_from_is_first(text, "<loc>"@, start);
        match find_from(text, "<loc>"@, start) {
            Some(open) => {
                lemma_find_from_is_first(text, "</loc>"@, open + "<loc>"@.len());
            },
            None => {},
        }
    }
}

/// The lenient scan of a whole document.
pub open spec fn scan(text: Seq<char>, base: Seq<char>) -> Result<Decoded, Seq<char>> {
    scan_from(text, 0, base, Decoded::empty())
}

/// What a document gives: what the structured decoder found in its tokens
/// or, where that is nothing, what the lenient scan finds in its text.
pub open spec fn completed(found: Decoded, text: Seq<char>, base: Seq<char>) -> Result<
    Decoded,
    Seq<char>,
> {
    if found.is_empty() {
        scan(text, base)
    } else {
        Ok(found)
    }
}

/// What a document with the given tokens and text gives.
pub open spec fn decoded(tokens: Seq<Token>, text: Seq<char>, base: Seq<char>) -> Result<
    Decoded,
    Seq<char>,
> {
    match DecoderState::initial().run(tokens, base) {
        Ok(state) => completed(state.found, text, base),
        Err(m) => Err(m),
    }
}

/// The lenient scan: finds every `<loc>`..`</loc>` pair of `content` in
/// document order, whatever stands around it. A pair counts as a reference
/// to a sitemap where the hundred characters before it hold `<sitemap` and
/// no `</sitemap>`, and as a content URL otherwise. Fails with
/// [`SitemapError::InvalidUrl`] exactly where a reference cannot be made
/// absolute against `base_url`.
pub fn parse_fallback(content: &str, base_url: &str) -> (r: Result<
    SitemapParseResult,
    SitemapError,
>)
    ensures
        match r {
            Ok(found) => scan(content@, base_url@) == Ok::<Decoded, Seq<char>>(found@),
            Err(e) => e is InvalidUrl && scan(content@, base_url@) == Err::<Decoded, Seq<char>>(
                e.text(),
            ),
        },
{
    let chars = chars_of(content);
    let text = chars.as_slice();
    let loc_open = chars_of("<loc>");
    let loc_close = chars_of("</loc>");
    let sitemap_open = chars_of("<sitemap");
    let sitemap_close = chars_of("</sitemap>");
    let mut found = SitemapParseResult::default();
    let mut start: usize = 0;
    let length = text.len();
    loop
        invariant
            text@ == content@,
            length == text@.len(),
            loc_open@ == "<loc>"@,
            loc_close@ == "</loc>"@,
            sitemap_open@ == "<sitemap"@,
            sitemap_close@ == "</sitemap>"@,
            start <= text@.len(),
            scan_from(text@, start as int, base_url@, found@) == scan(content@, base_url@),
        decreases text@.len() - start,
    {
        proof {
            lemma_next_loc_bounds(text@, start as int);
        }
        let open = match find(text, loc_open.as_slice(), start) {
            Some(i) => i,
            None => {
                return Ok(found);
            },
        };
        let body = open + loc_open.len();
        let close = match find(text, loc_close.as_slice(), body) {
            Some(i) => i,
            None => {
                return Ok(found);
            },
        };
        let url = trim_slice(slice_subrange(text, body, close));
        if url.len() > 0 {
            let window = slice_subrange(
                text,
                if open > 100 {
                    open - 100
                } else {
                    0
                },
                open,
            );
            if contains(window, sitemap_open.as_slice()) && !contains(
                window,
                sitemap_close.as_slice(),
            ) {
                let reference = string_of(url);
                match make_absolute_url(reference.as_str(), base_url) {
                    Ok(absolute_url) => {
                        found.push_sitemap(absolute_url);
                    },
                    Err(e) => {
                        return Err(e);
                    },
                }
            } else {
                found.insert_page(string_of(url));
            }
        }
        start = close + loc_close.len();
    }
}

impl SitemapDecoder {
    /// Ends the document: what the tokens gave or, where they gave
    /// nothing, what the lenient scan of `content` finds.
    pub fn finish(self, content: &str, base_url: &str) -> (r: Result<
        SitemapParseResult,
        SitemapError,
    >)
        ensures
            match r {
                Ok(found) => completed(self@.found, content@, base_url@) == Ok::<
                    Decoded,
                    Seq<char>,
                >(found@),
                Err(e) => e is InvalidUrl && completed(self@.found, content@, base_url@) == Err::<
                    Decoded,
                    Seq<char>,
                >(e.text()),
            },
    {
        let found = self.into_result();
        if found.is_empty() {
            parse_fallback(content, base_url)
        } else {
            Ok(found)
        }
    }
}

/// Decodes a sitemap document into its content URLs and the sitemaps it
/// refers to. A `loc` inside `sitemap` is a reference, made absolute
/// against `base_url`; one inside `url` is a content URL, unless it stands
/// inside `image`. Element names count without their namespace prefix.
/// Where that gives nothing at all the lenient scan takes over. Fails with
/// [`SitemapError::InvalidUrl`] exactly where a reference cannot be made
/// absolute.
pub fn parse_sitemap_xml(content: &str, base_url: &str) -> (r: Result<
    SitemapParseResult,
    SitemapError,
>)
    ensures
        match r {
            Ok(found) => decoded(xml_tokens(content@), content@, base_url@) == Ok::<
                Decoded,
                Seq<char>,
            >(found@),
            Err(e) => e is InvalidUrl && decoded(xml_tokens(content@), content@, base_url@)
                == Err::<Decoded, Seq<char>>(e.text()),
        },
{
    let mut reader = open_reader(content);
    let mut decoder = SitemapDecoder::new();
    loop
        invariant_except_break
            decoder@.run(pending_tokens(reader), base_url@) == DecoderState::initial().run(
                xml_tokens(content@),
                base_url@,
            ),
        ensures
            DecoderState::initial().run(xml_tokens(content@), base_url@) == Ok::<
                DecoderState,
                Seq<char>,
            >(decoder@),
        decreases pending_tokens(reader).len(),
    {
        let token = next_token(&mut reader);
        if let XmlToken::End = token {
            break;
        }
        match decoder.feed(&token, base_url) {
            Ok(()) => {},
            Err(e) => {
                return Err(e);
            },
        }
    }
    decoder.finish(content, base_url)
}

} // verus!
