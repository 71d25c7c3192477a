//! URLs: the parser behind trusted contracts, normalisation and the
//! resolution of references against a base.

use crate::error::SitemapError;
use crate::text::{
    chars_of, decimal, decimal_digits, starts_with, string_of, trim_end_char, trim_end_char_slice,
};
use url::Url;
use vstd::prelude::*;
use vstd::string::StringExecFns;

verus! {

/// The components of a parsed URL that this library reads.
#[derive(Debug, Clone)]
pub struct UrlParts {
    pub scheme: String,
    pub host: Option<String>,
    pub port: Option<u16>,
    pub path: String,
    pub query: Option<String>,
}

/// Mathematical model of [`UrlParts`].
pub struct UrlPartsView {
    pub scheme: Seq<char>,
    pub host: Option<Seq<char>>,
    pub port: Option<u16>,
    pub path: Seq<char>,
    pub query: Option<Seq<char>>,
}

impl View for UrlParts {
    type V = UrlPartsView;

    open spec fn view(&self) -> UrlPartsView {
        UrlPartsView {
            scheme: self.scheme@,
            host: match self.host {
                Some(h) => Some(h@),
                None => None,
            },
            port: self.port,
            path: self.path@,
            query: match self.query {
                Some(q) => Some(q@),
                None => None,
            },
        }
    }
}

/// How resolving a reference against a base ended.
#[derive(Debug, Clone)]
pub enum Joined {
    /// The base itself is no URL.
    NoBase,
    /// The reference resolved to this absolute URL.
    Resolved(String),
    /// The base is a URL but the reference cannot be resolved against it;
    /// holds the parser's message.
    Rejected(String),
}

/// Mathematical model of [`Joined`].
pub enum JoinedView {
    NoBase,
    Resolved(Seq<char>),
    Rejected(Seq<char>),
}

impl View for Joined {
    type V = JoinedView;

    open spec fn view(&self) -> JoinedView {
        match self {
            Joined::NoBase => JoinedView::NoBase,
            Joined::Resolved(u) => JoinedView::Resolved(u@),
            Joined::Rejected(m) => JoinedView::Rejected(m@),
        }
    }
}

/// What the URL parser makes of `text`: the components of the URL, or the
/// message of its error.
pub uninterp spec fn url_parts(text: Seq<char>) -> Result<UrlPartsView, Seq<char>>;

/// What resolving `reference` against `base` gives.
pub uninterp spec fn url_join(base: Seq<char>, reference: Seq<char>) -> JoinedView;

/// What is known of the components that the parser gives for a text with
/// a web scheme: the scheme is the one that the text starts with, and the
/// port is never that scheme's own, 80 for `http` and 443 for `https`.
pub open spec fn reads_web_scheme(text: Seq<char>, parts: UrlPartsView) -> bool {
    &&& "http://"@.is_prefix_of(text) ==> parts.scheme == "http"@ && parts.port != Some(80u16)
    &&& "https://"@.is_prefix_of(text) ==> parts.scheme == "https"@ && parts.port != Some(
        443u16,
    )
}

/// `url::Url::parse` on `text`, with the parsed URL read through `scheme`,
/// `host_str`, `port`, `path` and `query`, or the error through its
/// `Display`. The contract names the outcome, which is a function of the
/// text alone, and says two things of it: the parser takes the scheme from
/// the start of the text, up to the first colon, and `port` never returns
/// the default port of the scheme.
#[verifier::external_body]
pub(crate) fn parse_url(text: &str) -> (r: Result<UrlParts, String>)
    ensures
        match r {
            Ok(parts) => url_parts(text@) == Ok::<UrlPartsView, Seq<char>>(parts@)
                && reads_web_scheme(text@, parts@),
            Err(m) => url_parts(text@) == Err::<UrlPartsView, Seq<char>>(m@),
        },
{
    match Url::parse(text) {
        Ok(u) => Ok(
            UrlParts {
                scheme: String::from(u.scheme()),
                host: u.host_str().map(String::from),
                port: u.port(),
                path: String::from(u.path()),
                query: u.query().map(String::from),
            },
        ),
        Err(e) => Err(e.to_string()),
    }
}

/// `url::Url::parse` on `base`, then `url::Url::join` with `reference`,
/// the result read as its serialisation. The contract only names the
/// outcome: it is a function of the two texts alone.
#[verifier::external_body]
pub(crate) fn join_url(base: &str, reference: &str) -> (r: Joined)
    ensures
        r@ == url_join(base@, reference@),
{
    match Url::parse(base) {
        Ok(b) => match b.join(reference) {
            Ok(u) => Joined::Resolved(String::from(u)),
            Err(e) => Joined::Rejected(e.to_string()),
        },
        Err(_) => Joined::NoBase,
    }
}

/// Whether `url` carries one of the two web schemes.
pub open spec fn is_http_url(url: Seq<char>) -> bool {
    "http://"@.is_prefix_of(url) || "https://"@.is_prefix_of(url)
}

/// `raw` itself where it carries a web scheme, else `raw` behind `https://`.
pub open spec fn with_default_scheme(raw: Seq<char>) -> Seq<char> {
    if is_http_url(raw) {
        raw
    } else {
        "https://"@ + raw
    }
}

/// The host of `parts`, or nothing.
pub open spec fn host_text(parts: UrlPartsView) -> Seq<char> {
    match parts.host {
        Some(h) => h,
        None => Seq::empty(),
    }
}

/// Scheme and host of `parts`, the part of a URL that names the site.
pub open spec fn origin_text(parts: UrlPartsView) -> Seq<char> {
    parts.scheme + "://"@ + host_text(parts)
}

/// The canonical rendering of `parts`: scheme, host, the port where the URL
/// names one, the path (`/` where it is empty) and the query. There is no
/// fragment in it.
pub open spec fn canonical_text(parts: UrlPartsView) -> Seq<char> {
    origin_text(parts) + (match parts.port {
        Some(n) => ":"@ + decimal(n as nat),
        None => Seq::empty(),
    }) + (if parts.path.len() == 0 {
        "/"@
    } else {
        parts.path
    }) + (match parts.query {
        Some(q) => "?"@ + q,
        None => Seq::empty(),
    })
}

/// The normal form of `raw`, or the parser's message where `raw` is no URL
/// even behind the default scheme.
pub open spec fn normalized(raw: Seq<char>) -> Result<Seq<char>, Seq<char>> {
    match url_parts(with_default_scheme(raw)) {
        Ok(parts) => Ok(canonical_text(parts)),
        Err(m) => Err(m),
    }
}

/// `base` and `reference` glued together with a single `/` between them.
pub open spec fn glued(base: Seq<char>, reference: Seq<char>) -> Seq<char> {
    if reference.len() > 0 && reference[0] == '/' {
        trim_end_char(base, '/') + reference
    } else {
        trim_end_char(base, '/') + "/"@ + reference
    }
}

/// `reference` in absolute form, given how resolving it against `base`
/// ended: the resolved URL; where `base` is no URL, the two glued
/// together; for a reference that cannot be resolved, the parser's message
/// as the error.
pub open spec fn absolute_from(
    reference: Seq<char>,
    base: Seq<char>,
    joined: JoinedView,
) -> Result<Seq<char>, Seq<char>> {
    match joined {
        JoinedView::Resolved(u) => Ok(u),
        JoinedView::Rejected(m) => Err(m),
        JoinedView::NoBase => Ok(glued(base, reference)),
    }
}

/// `reference` in absolute form: itself where it carries a web scheme, else
/// resolved against `base`.
pub open spec fn absolute(reference: Seq<char>, base: Seq<char>) -> Result<Seq<char>, Seq<char>> {
    if is_http_url(reference) {
        Ok(reference)
    } else {
        absolute_from(reference, base, url_join(base, reference))
    }
}

/// The site that `url` belongs to: its scheme and host, or `url` itself
/// where it does not parse.
pub open spec fn origin_of(url: Seq<char>) -> Seq<char> {
    match url_parts(url) {
        Ok(parts) => origin_text(parts),
        Err(_) => url,
    }
}

/// Whether `url` starts with `http://` or `https://`.
pub fn has_http_scheme(url: &[char]) -> (r: bool)
    ensures
        r == is_http_url(url@),
{
    let plain = chars_of("http://");
    let secure = chars_of("https://");
    starts_with(url, plain.as_slice()) || starts_with(url, secure.as_slice())
}

/// Scheme and host of `parts`.
pub fn origin_string(parts: &UrlParts) -> (r: String)
    ensures
        r@ == origin_text(parts@),
{
    let mut result = parts.scheme.clone();
    result.append("://");
    match &parts.host {
        Some(h) => {
            result.append(h.as_str());
        },
        None => {
            assert(result@ + Seq::<char>::empty() == result@);
        },
    }
    result
}

/// The canonical rendering of `parts`.
pub fn canonical_string(parts: &UrlParts) -> (r: String)
    ensures
        r@ == canonical_text(parts@),
{
    let mut result = origin_string(parts);
    let ghost origin = result@;
    match parts.port {
        Some(n) => {
            let digits = string_of(decimal_digits(n).as_slice());
            result.append(":");
            result.append(digits.as_str());
            assert(result@ == origin + (":"@ + decimal(n as nat)));
        },
        None => {
            assert(result@ == origin + Seq::<char>::empty());
        },
    }
    if parts.path.as_str().is_empty() {
        result.append("/");
    } else {
        result.append(parts.path.as_str());
    }
    let ghost before_query = result@;
    match &parts.query {
        Some(q) => {
            result.append("?");
            result.append(q.as_str());
            assert(result@ == before_query + ("?"@ + q@));
        },
        None => {
            assert(result@ == before_query + Seq::<char>::empty());
        },
    }
    result
}

/// Whether `url` is the normal form of `raw`, made from the components
/// `parts`: it is their canonical rendering; it starts with the web scheme
/// of `raw` or, where `raw` has none, with `https://`; and it shows a port
/// only where that is not the default port of its scheme.
pub open spec fn is_normal_form_of(url: Seq<char>, raw: Seq<char>, parts: UrlPartsView) -> bool {
    &&& url == canonical_text(parts)
    &&& "http://"@.is_prefix_of(raw) ==> "http://"@.is_prefix_of(url) && parts.port != Some(80u16)
    &&& !"http://"@.is_prefix_of(raw) ==> "https://"@.is_prefix_of(url) && parts.port != Some(
        443u16,
    )
}

/// Brings a host name or URL into normal form: `https` where no web scheme
/// is given, the host, the port only where the URL names one that is not
/// the scheme's own, the path (`/` where there is none) and the query; the
/// fragment is dropped. Fails with [`SitemapError::InvalidUrl`] exactly
/// where the text, behind the default scheme, does not parse as a URL.
pub fn normalize_url(url: &str) -> (r: Result<String, SitemapError>)
    ensures
        match r {
            Ok(n) => {
                &&& normalized(url@) == Ok::<Seq<char>, Seq<char>>(n@)
                &&& is_http_url(n@)
                &&& url_parts(with_default_scheme(url@)) is Ok
                &&& is_normal_form_of(n@, url@, url_parts(with_default_scheme(url@))->Ok_0)
            },
            Err(e) => e is InvalidUrl && normalized(url@) == Err::<Seq<char>, Seq<char>>(e.text()),
        },
{
    let chars = chars_of(url);
    let candidate = if has_http_scheme(chars.as_slice()) {
        String::from_str(url)
    } else {
        String::from_str("https://").concat(url)
    };
    match parse_url(candidate.as_str()) {
        Ok(parts) => {
            let normal = canonical_string(&parts);
            proof {
                lemma_scheme_starts(parts@, candidate@);
                lemma_web_schemes_differ(url@);
            }
            Ok(normal)
        },
        Err(m) => Err(SitemapError::InvalidUrl(m)),
    }
}

/// `https://` is no text that starts with `http://`, so a text has one of
/// the two web schemes at most; and behind `https://` any text has that
/// scheme.
proof fn lemma_web_schemes_differ(raw: Seq<char>)
    ensures
        !("http://"@.is_prefix_of(raw) && "https://"@.is_prefix_of(raw)),
        "https://"@.is_prefix_of("https://"@ + raw),
        !"http://"@.is_prefix_of("https://"@ + raw),
{
    reveal_strlit("http://");
    reveal_strlit("https://");
    let joined = "https://"@ + raw;
    assert(joined.subrange(0, "https://"@.len() as int) =~= "https://"@);
    if "http://"@.is_prefix_of(joined) {
        assert(joined.subrange(0, 7)[4] == "http://"@[4]);
        assert(joined[4] == "https://"@[4]);
    }
    if "http://"@.is_prefix_of(raw) && "https://"@.is_prefix_of(raw) {
        assert(raw.subrange(0, 7)[4] == "http://"@[4]);
        assert(raw.subrange(0, 8)[4] == "https://"@[4]);
    }
}

/// The canonical rendering starts with the scheme that the parser read
/// from the start of the text.
proof fn lemma_scheme_starts(parts: UrlPartsView, text: Seq<char>)
    requires
        reads_web_scheme(text, parts),
    ensures
        "http://"@.is_prefix_of(text) ==> "http://"@.is_prefix_of(canonical_text(parts)),
        "https://"@.is_prefix_of(text) ==> "https://"@.is_prefix_of(canonical_text(parts)),
{
    reveal_strlit("http://");
    reveal_strlit("https://");
    reveal_strlit("http");
    reveal_strlit("https");
    reveal_strlit("://");
    let rendered = canonical_text(parts);
    let head = parts.scheme + "://"@;
    assert(head.is_prefix_of(origin_text(parts)));
    assert(head.is_prefix_of(rendered)) by {
        assert(rendered.subrange(0, head.len() as int) =~= head);
    }
    if "http://"@.is_prefix_of(text) {
        assert(head =~= "http://"@);
    }
    if "https://"@.is_prefix_of(text) {
        assert(head =~= "https://"@);
    }
}

/// A normal form is normalised to itself wherever the parser reads it back
/// as the components it was written from. In particular no second scheme
/// is put in front of it.
pub proof fn lemma_normal_form_stays(raw: Seq<char>, parts: UrlPartsView)
    requires
        url_parts(with_default_scheme(raw)) == Ok::<UrlPartsView, Seq<char>>(parts),
        reads_web_scheme(with_default_scheme(raw), parts),
        url_parts(canonical_text(parts)) == Ok::<UrlPartsView, Seq<char>>(parts),
    ensures
        normalized(raw) == Ok::<Seq<char>, Seq<char>>(canonical_text(parts)),
        normalized(canonical_text(parts)) == normalized(raw),
{
    lemma_web_schemes_differ(raw);
    lemma_scheme_starts(parts, with_default_scheme(raw));
}

/// `base_url` without its trailing slashes and `reference`, with a single
/// `/` between them.
pub fn glue(base_url: &str, reference: &str) -> (r: String)
    ensures
        r@ == glued(base_url@, reference@),
{
    let base_chars = chars_of(base_url);
    let chars = chars_of(reference);
    let mut result = string_of(trim_end_char_slice(base_chars.as_slice(), '/'));
    if chars.len() > 0 && chars[0] == '/' {
        result.append(reference);
    } else {
        result.append("/");
        result.append(reference);
    }
    result
}

/// The absolute form of a reference that has no web scheme, given how
/// resolving it against `base_url` ended. Fails with
/// [`SitemapError::InvalidUrl`] exactly where the reference was rejected.
pub fn absolute_from_join(url: &str, base_url: &str, joined: Joined) -> (r: Result<
    String,
    SitemapError,
>)
    ensures
        match r {
            Ok(u) => absolute_from(url@, base_url@, joined@) == Ok::<Seq<char>, Seq<char>>(u@),
            Err(e) => e is InvalidUrl && absolute_from(url@, base_url@, joined@) == Err::<
                Seq<char>,
                Seq<char>,
            >(e.text()),
        },
{
    match joined {
        Joined::Resolved(u) => Ok(u),
        Joined::Rejected(m) => Err(SitemapError::InvalidUrl(m)),
        Joined::NoBase => Ok(glue(base_url, url)),
    }
}

/// Turns a reference into an absolute URL. A reference with a web scheme
/// passes through; any other is resolved against `base_url`, a leading `/`
/// against its origin. Fails with [`SitemapError::InvalidUrl`] exactly where
/// `base_url` is a URL against which the reference cannot be resolved.
pub fn make_absolute_url(url: &str, base_url: &str) -> (r: Result<String, SitemapError>)
    ensures
        match r {
            Ok(u) => absolute(url@, base_url@) == Ok::<Seq<char>, Seq<char>>(u@),
            Err(e) => e is InvalidUrl && absolute(url@, base_url@) == Err::<Seq<char>, Seq<char>>(
                e.text(),
            ),
        },
{
    let chars = chars_of(url);
    if has_http_scheme(chars.as_slice()) {
        Ok(String::from_str(url))
    } else {
        absolute_from_join(url, base_url, join_url(base_url, url))
    }
}

/// The site that a sitemap URL belongs to: scheme and host, or the URL
/// itself where it does not parse.
pub fn sitemap_origin(url: &str) -> (r: String)
    ensures
        r@ == origin_of(url@),
{
    match parse_url(url) {
        Ok(parts) => origin_string(&parts),
        Err(_) => String::from_str(url),
    }
}

} // verus!
