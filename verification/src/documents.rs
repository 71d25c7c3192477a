//! The shape of sitemap documents, and what the structured decoder makes
//! of a document of that shape.
//!
//! A document is described here by its entries rather than by its tokens:
//! `url` entries and `sitemap` entries, each with its children, and
//! whatever else stands between them. The laws of this module say what the
//! decoder finds in the tokens of such a document.

use crate::sitemap::{decoded, next_loc, scan, scan_from, window_before, Decoded, DecoderState};
use crate::text::{
    contains_text, find_from, lemma_find_from_at, lemma_find_from_is_first, lemma_find_from_none,
    occurs_at, trim,
};
use crate::url_set::{lemma_with_distinct_urls, lemma_with_urls_extends, with_url, with_urls};
use crate::urls::absolute;
use crate::xml::Token;
use vstd::prelude::*;

verus! {

/// Whether the decoder passes over `token` while no `loc` element is open:
/// it is no tag of an element that counts.
pub open spec fn is_passed_over(token: Token) -> bool {
    match token {
        Token::Open(name) => name != "url"@ && name != "sitemap"@ && name != "image"@ && name
            != "loc"@,
        Token::Close(name) => name != "url"@ && name != "sitemap"@ && name != "image"@ && name
            != "loc"@,
        _ => true,
    }
}

/// A child of a `url` or `sitemap` entry.
pub enum Child {
    /// A `loc` element with this text.
    Location(Seq<char>),
    /// An `image` element that holds a `loc` element with this text.
    Image(Seq<char>),
    /// A token that the decoder passes over: part of a `lastmod` element,
    /// say.
    Other(Token),
}

/// A piece of a document.
pub enum Item {
    /// A `url` element with these children.
    Url(Seq<Child>),
    /// A `sitemap` element with these children.
    Sitemap(Seq<Child>),
    /// A `loc` element with this text that stands in no entry.
    Stray(Seq<char>),
    /// A token that the decoder passes over: the XML declaration, the tags
    /// of the root element.
    Other(Token),
}

/// The decoder's state with only these context flags set, no `loc` open.
pub open spec fn resting(in_url: bool, in_sitemap: bool, found: Decoded) -> DecoderState {
    DecoderState { in_url, in_sitemap, in_image: false, in_loc: false, text: Seq::empty(), found }
}

/// The tokens of a `loc` element.
pub open spec fn location_tokens(text: Seq<char>) -> Seq<Token> {
    seq![Token::Open("loc"@), Token::Text(text), Token::Close("loc"@)]
}

/// The tokens of a child.
pub open spec fn child_tokens(child: Child) -> Seq<Token> {
    match child {
        Child::Location(text) => location_tokens(text),
        Child::Image(text) => seq![Token::Open("image"@)] + location_tokens(text) + seq![
            Token::Close("image"@),
        ],
        Child::Other(token) => seq![token],
    }
}

/// The tokens of a run of children.
pub open spec fn children_tokens(children: Seq<Child>) -> Seq<Token>
    decreases children.len(),
{
    if children.len() == 0 {
        Seq::empty()
    } else {
        child_tokens(children[0]) + children_tokens(children.drop_first())
    }
}

/// The tokens of an item.
pub open spec fn item_tokens(item: Item) -> Seq<Token> {
    match item {
        Item::Url(children) => seq![Token::Open("url"@)] + children_tokens(children) + seq![
            Token::Close("url"@),
        ],
        Item::Sitemap(children) => seq![Token::Open("sitemap"@)] + children_tokens(children)
            + seq![Token::Close("sitemap"@)],
        Item::Stray(text) => location_tokens(text),
        Item::Other(token) => seq![token],
    }
}

/// The tokens of a document.
pub open spec fn document_tokens(items: Seq<Item>) -> Seq<Token>
    decreases items.len(),
{
    if items.len() == 0 {
        Seq::empty()
    } else {
        item_tokens(items[0]) + document_tokens(items.drop_first())
    }
}

/// Whether every token that stands for something else is one that the
/// decoder passes over.
pub open spec fn children_are_plain(children: Seq<Child>) -> bool {
    forall|i: int|
        0 <= i < children.len() ==> match #[trigger] children[i] {
            Child::Other(token) => is_passed_over(token),
            _ => true,
        }
}

/// Whether an item is an entry or a token that the decoder passes over.
pub open spec fn item_is_plain(item: Item) -> bool {
    match item {
        Item::Url(children) => children_are_plain(children),
        Item::Sitemap(children) => children_are_plain(children),
        Item::Stray(_) => true,
        Item::Other(token) => is_passed_over(token),
    }
}

/// Whether a document is made of entries and of tokens that the decoder
/// passes over.
pub open spec fn items_are_plain(items: Seq<Item>) -> bool {
    forall|i: int| 0 <= i < items.len() ==> item_is_plain(#[trigger] items[i])
}

/// `found` with the content URL of a location's text: the trimmed text,
/// unless it is empty.
pub open spec fn page_added(found: Decoded, text: Seq<char>) -> Decoded {
    if trim(text).len() == 0 {
        found
    } else {
        found.with_page(trim(text))
    }
}

/// `found` with the reference of a location's text: the trimmed text made
/// absolute against `base`, unless it is empty; or the message for a text
/// that cannot be made absolute.
pub open spec fn reference_added(found: Decoded, text: Seq<char>, base: Seq<char>) -> Result<
    Decoded,
    Seq<char>,
> {
    if trim(text).len() == 0 {
        Ok(found)
    } else {
        match absolute(trim(text), base) {
            Ok(u) => Ok(found.with_sitemap(u)),
            Err(m) => Err(m),
        }
    }
}

/// What a `url` entry adds to `found`: the content URL of each of its
/// locations. Its images add nothing.
pub open spec fn url_gathered(found: Decoded, children: Seq<Child>) -> Decoded
    decreases children.len(),
{
    if children.len() == 0 {
        found
    } else {
        url_gathered(
            match children[0] {
                Child::Location(text) => page_added(found, text),
                _ => found,
            },
            children.drop_first(),
        )
    }
}

/// What a `sitemap` entry adds to `found`: a reference for each location
/// in it, also for one inside an image.
pub open spec fn sitemap_gathered(found: Decoded, children: Seq<Child>, base: Seq<char>) -> Result<
    Decoded,
    Seq<char>,
>
    decreases children.len(),
{
    if children.len() == 0 {
        Ok(found)
    } else {
        match children[0] {
            Child::Other(_) => sitemap_gathered(found, children.drop_first(), base),
            Child::Location(text) => match reference_added(found, text, base) {
                Ok(next) => sitemap_gathered(next, children.drop_first(), base),
                Err(m) => Err(m),
            },
            Child::Image(text) => match reference_added(found, text, base) {
                Ok(next) => sitemap_gathered(next, children.drop_first(), base),
                Err(m) => Err(m),
            },
        }
    }
}

/// What an item adds to `found`. A location that stands in no entry adds
/// nothing.
pub open spec fn item_gathered(found: Decoded, item: Item, base: Seq<char>) -> Result<
    Decoded,
    Seq<char>,
> {
    match item {
        Item::Other(_) => Ok(found),
        Item::Stray(_) => Ok(found),
        Item::Url(children) => Ok(url_gathered(found, children)),
        Item::Sitemap(children) => sitemap_gathered(found, children, base),
    }
}

/// What a document adds to `found`, item by item.
pub open spec fn gathered(found: Decoded, items: Seq<Item>, base: Seq<char>) -> Result<
    Decoded,
    Seq<char>,
>
    decreases items.len(),
{
    if items.len() == 0 {
        Ok(found)
    } else {
        match item_gathered(found, items[0], base) {
            Ok(next) => gathered(next, items.drop_first(), base),
            Err(m) => Err(m),
        }
    }
}

/// The four element names that count are four different names.
pub proof fn lemma_names_differ()
    ensures
        "url"@ != "sitemap"@,
        "url"@ != "image"@,
        "url"@ != "loc"@,
        "sitemap"@ != "image"@,
        "sitemap"@ != "loc"@,
        "image"@ != "loc"@,
{
    reveal_strlit("url");
    reveal_strlit("sitemap");
    reveal_strlit("image");
    reveal_strlit("loc");
    assert("url"@.len() == 3 && "sitemap"@.len() == 7 && "image"@.len() == 5 && "loc"@.len() == 3);
    assert("url"@[0] != "loc"@[0]);
}

/// Running over a run of tokens that starts with `token` is the step for
/// `token` and then the run over the rest.
pub proof fn lemma_run_first(
    state: DecoderState,
    token: Token,
    rest: Seq<Token>,
    base: Seq<char>,
)
    ensures
        state.run(seq![token] + rest, base) == match state.step(token, base) {
            Ok(next) => next.run(rest, base),
            Err(m) => Err(m),
        },
{
    let tokens = seq![token] + rest;
    assert(tokens[0] == token);
    assert(tokens.drop_first() =~= rest);
}

/// Running over two runs of tokens is running over the first and then,
/// from where that ended, over the second.
pub proof fn lemma_run_both(
    state: DecoderState,
    first: Seq<Token>,
    second: Seq<Token>,
    base: Seq<char>,
)
    ensures
        state.run(first + second, base) == match state.run(first, base) {
            Ok(next) => next.run(second, base),
            Err(m) => Err(m),
        },
    decreases first.len(),
{
    if first.len() == 0 {
        assert(first + second =~= second);
    } else {
        assert((first + second)[0] == first[0]);
        assert((first + second).drop_first() =~= first.drop_first() + second);
        match state.step(first[0], base) {
            Ok(next) => {
                lemma_run_both(next, first.drop_first(), second, base);
            },
            Err(m) => {},
        }
    }
}

/// A token that the decoder passes over leaves it as it was, while no
/// `loc` element is open.
pub proof fn lemma_passed_over(state: DecoderState, token: Token, base: Seq<char>)
    requires
        !state.in_loc,
        is_passed_over(token),
    ensures
        state.step(token, base) == Ok::<DecoderState, Seq<char>>(state),
{
}

/// What a `loc` element does to a decoder in which none is open: its text
/// is closed with the context as it stands.
pub proof fn lemma_location(state: DecoderState, text: Seq<char>, base: Seq<char>)
    requires
        !state.in_loc,
    ensures
        state.run(location_tokens(text), base) == (DecoderState {
            in_loc: true,
            text,
            ..state
        }).close_loc(base),
{
    lemma_names_differ();
    let opened = DecoderState { in_loc: true, text: Seq::empty(), ..state };
    let filled = DecoderState { in_loc: true, text, ..state };
    let tokens = location_tokens(text);
    assert(tokens =~= seq![Token::Open("loc"@)] + (seq![Token::Text(text)] + (seq![
        Token::Close("loc"@),
    ] + Seq::empty())));
    lemma_run_first(
        state,
        Token::Open("loc"@),
        seq![Token::Text(text)] + (seq![Token::Close("loc"@)] + Seq::empty()),
        base,
    );
    assert(state.step(Token::Open("loc"@), base) == Ok::<DecoderState, Seq<char>>(opened));
    lemma_run_first(opened, Token::Text(text), seq![Token::Close("loc"@)] + Seq::empty(), base);
    assert(opened.text + text =~= text);
    assert(opened.step(Token::Text(text), base) == Ok::<DecoderState, Seq<char>>(filled));
    lemma_run_first(filled, Token::Close("loc"@), Seq::empty(), base);
    assert(filled.step(Token::Close("loc"@), base) == filled.close_loc(base));
}

/// Running over a single token is the step for it.
pub proof fn lemma_run_one(state: DecoderState, token: Token, base: Seq<char>)
    ensures
        state.run(seq![token], base) == state.step(token, base),
{
    assert(seq![token] =~= seq![token] + Seq::empty());
    lemma_run_first(state, token, Seq::empty(), base);
}

/// What a child of a `url` entry does to the decoder: a location adds its
/// content URL, an image and any token that is passed over add nothing.
pub proof fn lemma_child_of_url(found: Decoded, child: Child, base: Seq<char>)
    requires
        match child {
            Child::Other(token) => is_passed_over(token),
            _ => true,
        },
    ensures
        resting(true, false, found).run(child_tokens(child), base) == Ok::<
            DecoderState,
            Seq<char>,
        >(
            resting(
                true,
                false,
                match child {
                    Child::Location(text) => page_added(found, text),
                    _ => found,
                },
            ),
        ),
{
    lemma_names_differ();
    let state = resting(true, false, found);
    match child {
        Child::Location(text) => {
            lemma_location(state, text, base);
        },
        Child::Image(text) => {
            let inside = DecoderState { in_image: true, ..state };
            lemma_run_both(
                state,
                seq![Token::Open("image"@)] + location_tokens(text),
                seq![Token::Close("image"@)],
                base,
            );
            lemma_run_first(state, Token::Open("image"@), location_tokens(text), base);
            assert(state.step(Token::Open("image"@), base) == Ok::<DecoderState, Seq<char>>(
                inside,
            ));
            lemma_location(inside, text, base);
            lemma_run_one(inside, Token::Close("image"@), base);
        },
        Child::Other(token) => {
            lemma_passed_over(state, token, base);
            lemma_run_one(state, token, base);
        },
    }
}

/// What a child of a `sitemap` entry does to the decoder: a location adds
/// its reference, also inside an image; a token that is passed over adds
/// nothing.
pub proof fn lemma_child_of_sitemap(found: Decoded, child: Child, base: Seq<char>)
    requires
        match child {
            Child::Other(token) => is_passed_over(token),
            _ => true,
        },
    ensures
        resting(false, true, found).run(child_tokens(child), base) == match child {
            Child::Other(_) => Ok::<DecoderState, Seq<char>>(resting(false, true, found)),
            Child::Location(text) => match reference_added(found, text, base) {
                Ok(next) => Ok(resting(false, true, next)),
                Err(m) => Err(m),
            },
            Child::Image(text) => match reference_added(found, text, base) {
                Ok(next) => Ok(resting(false, true, next)),
                Err(m) => Err(m),
            },
        },
{
    lemma_names_differ();
    let state = resting(false, true, found);
    match child {
        Child::Location(text) => {
            lemma_location(state, text, base);
        },
        Child::Image(text) => {
            let inside = DecoderState { in_image: true, ..state };
            lemma_run_both(
                state,
                seq![Token::Open("image"@)] + location_tokens(text),
                seq![Token::Close("image"@)],
                base,
            );
            lemma_run_first(state, Token::Open("image"@), location_tokens(text), base);
            assert(state.step(Token::Open("image"@), base) == Ok::<DecoderState, Seq<char>>(
                inside,
            ));
            lemma_location(inside, text, base);
            match reference_added(found, text, base) {
                Ok(next) => {
                    lemma_run_one(
                        DecoderState { found: next, ..inside },
                        Token::Close("image"@),
                        base,
                    );
                },
                Err(m) => {},
            }
        },
        Child::Other(token) => {
            lemma_passed_over(state, token, base);
            lemma_run_one(state, token, base);
        },
    }
}

/// What the children of a `url` entry do to the decoder.
pub proof fn lemma_children_of_url(found: Decoded, children: Seq<Child>, base: Seq<char>)
    requires
        children_are_plain(children),
    ensures
        resting(true, false, found).run(children_tokens(children), base) == Ok::<
            DecoderState,
            Seq<char>,
        >(resting(true, false, url_gathered(found, children))),
    decreases children.len(),
{
    if children.len() > 0 {
        let rest = children.drop_first();
        assert(children_are_plain(rest)) by {
            assert forall|i: int| 0 <= i < rest.len() implies match #[trigger] rest[i] {
                Child::Other(token) => is_passed_over(token),
                _ => true,
            } by {
                assert(rest[i] == children[i + 1]);
            }
        }
        let next = match children[0] {
            Child::Location(text) => page_added(found, text),
            _ => found,
        };
        lemma_child_of_url(found, children[0], base);
        lemma_run_both(
            resting(true, false, found),
            child_tokens(children[0]),
            children_tokens(rest),
            base,
        );
        lemma_children_of_url(next, rest, base);
    }
}

/// What the children of a `sitemap` entry do to the decoder.
pub proof fn lemma_children_of_sitemap(found: Decoded, children: Seq<Child>, base: Seq<char>)
    requires
        children_are_plain(children),
    ensures
        resting(false, true, found).run(children_tokens(children), base) == match sitemap_gathered(
            found,
            children,
            base,
        ) {
            Ok(next) => Ok::<DecoderState, Seq<char>>(resting(false, true, next)),
            Err(m) => Err(m),
        },
    decreases children.len(),
{
    if children.len() > 0 {
        let rest = children.drop_first();
        assert(children_are_plain(rest)) by {
            assert forall|i: int| 0 <= i < rest.len() implies match #[trigger] rest[i] {
                Child::Other(token) => is_passed_over(token),
                _ => true,
            } by {
                assert(rest[i] == children[i + 1]);
            }
        }
        lemma_child_of_sitemap(found, children[0], base);
        lemma_run_both(
            resting(false, true, found),
            child_tokens(children[0]),
            children_tokens(rest),
            base,
        );
        match children[0] {
            Child::Other(_) => {
                lemma_children_of_sitemap(found, rest, base);
            },
            Child::Location(text) => {
                match reference_added(found, text, base) {
                    Ok(next) => {
                        lemma_children_of_sitemap(next, rest, base);
                    },
                    Err(m) => {},
                }
            },
            Child::Image(text) => {
                match reference_added(found, text, base) {
                    Ok(next) => {
                        lemma_children_of_sitemap(next, rest, base);
                    },
                    Err(m) => {},
                }
            },
        }
    }
}

/// What an item does to a decoder that is outside every entry.
pub proof fn lemma_item(found: Decoded, item: Item, base: Seq<char>)
    requires
        item_is_plain(item),
    ensures
        resting(false, false, found).run(item_tokens(item), base) == match item_gathered(
            found,
            item,
            base,
        ) {
            Ok(next) => Ok::<DecoderState, Seq<char>>(resting(false, false, next)),
            Err(m) => Err(m),
        },
{
    lemma_names_differ();
    let state = resting(false, false, found);
    match item {
        Item::Other(token) => {
            lemma_passed_over(state, token, base);
            lemma_run_one(state, token, base);
        },
        Item::Stray(text) => {
            lemma_location(state, text, base);
        },
        Item::Url(children) => {
            let inside = resting(true, false, found);
            lemma_run_both(
                state,
                seq![Token::Open("url"@)] + children_tokens(children),
                seq![Token::Close("url"@)],
                base,
            );
            lemma_run_first(state, Token::Open("url"@), children_tokens(children), base);
            assert(state.step(Token::Open("url"@), base) == Ok::<DecoderState, Seq<char>>(inside));
            lemma_children_of_url(found, children, base);
            lemma_run_one(
                resting(true, false, url_gathered(found, children)),
                Token::Close("url"@),
                base,
            );
        },
        Item::Sitemap(children) => {
            let inside = resting(false, true, found);
            lemma_run_both(
                state,
                seq![Token::Open("sitemap"@)] + children_tokens(children),
                seq![Token::Close("sitemap"@)],
                base,
            );
            lemma_run_first(state, Token::Open("sitemap"@), children_tokens(children), base);
            assert(state.step(Token::Open("sitemap"@), base) == Ok::<DecoderState, Seq<char>>(
                inside,
            ));
            lemma_children_of_sitemap(found, children, base);
            match sitemap_gathered(found, children, base) {
                Ok(next) => {
                    lemma_run_one(resting(false, true, next), Token::Close("sitemap"@), base);
                },
                Err(m) => {},
            }
        },
    }
}

/// What the structured decoder makes of a document: it finds exactly what
/// the entries of the document hold, in their order, or fails with the
/// first reference that cannot be made absolute.
pub proof fn lemma_document(found: Decoded, items: Seq<Item>, base: Seq<char>)
    requires
        items_are_plain(items),
    ensures
        resting(false, false, found).run(document_tokens(items), base) == match gathered(
            found,
            items,
            base,
        ) {
            Ok(next) => Ok::<DecoderState, Seq<char>>(resting(false, false, next)),
            Err(m) => Err(m),
        },
    decreases items.len(),
{
    if items.len() > 0 {
        let rest = items.drop_first();
        assert(items_are_plain(rest)) by {
            assert forall|i: int| 0 <= i < rest.len() implies item_is_plain(#[trigger] rest[i]) by {
                assert(rest[i] == items[i + 1]);
            }
        }
        lemma_item(found, items[0], base);
        lemma_run_both(
            resting(false, false, found),
            item_tokens(items[0]),
            document_tokens(rest),
            base,
        );
        match item_gathered(found, items[0], base) {
            Ok(next) => {
                lemma_document(next, rest, base);
            },
            Err(m) => {},
        }
    }
}

/// What two documents, one behind the other, add to `found`.
pub proof fn lemma_gathered_both(
    found: Decoded,
    first: Seq<Item>,
    second: Seq<Item>,
    base: Seq<char>,
)
    ensures
        gathered(found, first + second, base) == match gathered(found, first, base) {
            Ok(next) => gathered(next, second, base),
            Err(m) => Err(m),
        },
    decreases first.len(),
{
    if first.len() == 0 {
        assert(first + second =~= second);
    } else {
        assert((first + second)[0] == first[0]);
        assert((first + second).drop_first() =~= first.drop_first() + second);
        match item_gathered(found, first[0], base) {
            Ok(next) => {
                lemma_gathered_both(next, first.drop_first(), second, base);
            },
            Err(m) => {},
        }
    }
}

/// Texts, each trimmed.
pub open spec fn trimmed(texts: Seq<Seq<char>>) -> Seq<Seq<char>> {
    Seq::new(texts.len(), |i: int| trim(texts[i]))
}

/// `url` entries that each hold one location.
pub open spec fn url_entries(locations: Seq<Seq<char>>) -> Seq<Item> {
    Seq::new(locations.len(), |i: int| Item::Url(seq![Child::Location(locations[i])]))
}

/// `sitemap` entries that each hold one location.
pub open spec fn sitemap_entries(locations: Seq<Seq<char>>) -> Seq<Item> {
    Seq::new(locations.len(), |i: int| Item::Sitemap(seq![Child::Location(locations[i])]))
}

/// A `urlset` document with one `url` entry for each location.
pub open spec fn urlset_items(locations: Seq<Seq<char>>) -> Seq<Item> {
    seq![Item::Other(Token::Open("urlset"@))] + url_entries(locations) + seq![
        Item::Other(Token::Close("urlset"@)),
    ]
}

/// A `sitemapindex` document with one `sitemap` entry for each location.
pub open spec fn sitemapindex_items(locations: Seq<Seq<char>>) -> Seq<Item> {
    seq![Item::Other(Token::Open("sitemapindex"@))] + sitemap_entries(locations) + seq![
        Item::Other(Token::Close("sitemapindex"@)),
    ]
}

/// The references of a run of locations, each trimmed and made absolute
/// against `base`.
pub open spec fn references(locations: Seq<Seq<char>>, base: Seq<char>) -> Seq<Seq<char>> {
    Seq::new(locations.len(), |i: int| absolute(trim(locations[i]), base)->Ok_0)
}

/// The tags of the two root elements are passed over.
pub proof fn lemma_root_tags_passed_over()
    ensures
        is_passed_over(Token::Open("urlset"@)),
        is_passed_over(Token::Close("urlset"@)),
        is_passed_over(Token::Open("sitemapindex"@)),
        is_passed_over(Token::Close("sitemapindex"@)),
{
    reveal_strlit("url");
    reveal_strlit("sitemap");
    reveal_strlit("image");
    reveal_strlit("loc");
    reveal_strlit("urlset");
    reveal_strlit("sitemapindex");
    assert("url"@.len() == 3 && "sitemap"@.len() == 7 && "image"@.len() == 5 && "loc"@.len() == 3);
    assert("urlset"@.len() == 6 && "sitemapindex"@.len() == 12);
}

/// What `url` entries with one location each add: their trimmed
/// locations, in order.
pub proof fn lemma_url_entries(found: Decoded, locations: Seq<Seq<char>>, base: Seq<char>)
    requires
        forall|i: int| 0 <= i < locations.len() ==> trim(#[trigger] locations[i]).len() > 0,
    ensures
        gathered(found, url_entries(locations), base) == Ok::<Decoded, Seq<char>>(
            Decoded {
                urls: with_urls(found.urls, trimmed(locations)),
                nested_sitemaps: found.nested_sitemaps,
            },
        ),
    decreases locations.len(),
{
    let items = url_entries(locations);
    if locations.len() > 0 {
        let rest = locations.drop_first();
        let children = seq![Child::Location(locations[0])];
        assert(items[0] == Item::Url(children));
        assert(items.drop_first() =~= url_entries(rest));
        assert(trimmed(locations)[0] == trim(locations[0]));
        assert(trimmed(locations).drop_first() =~= trimmed(rest));
        assert(children[0] == Child::Location(locations[0]));
        assert(children.drop_first() =~= Seq::<Child>::empty());
        let next = page_added(found, locations[0]);
        assert(url_gathered(next, Seq::<Child>::empty()) == next);
        assert(url_gathered(found, children) == next);
        assert forall|i: int| 0 <= i < rest.len() implies trim(#[trigger] rest[i]).len() > 0 by {
            assert(rest[i] == locations[i + 1]);
        }
        lemma_url_entries(next, rest, base);
    }
}

/// What `sitemap` entries with one location each add: their references,
/// in order.
pub proof fn lemma_sitemap_entries(found: Decoded, locations: Seq<Seq<char>>, base: Seq<char>)
    requires
        forall|i: int|
            0 <= i < locations.len() ==> {
                &&& trim(#[trigger] locations[i]).len() > 0
                &&& absolute(trim(locations[i]), base) is Ok
            },
    ensures
        gathered(found, sitemap_entries(locations), base) == Ok::<Decoded, Seq<char>>(
            Decoded {
                urls: found.urls,
                nested_sitemaps: found.nested_sitemaps + references(locations, base),
            },
        ),
    decreases locations.len(),
{
    let items = sitemap_entries(locations);
    if locations.len() == 0 {
        assert(found.nested_sitemaps + references(locations, base) =~= found.nested_sitemaps);
    } else {
        let rest = locations.drop_first();
        let children = seq![Child::Location(locations[0])];
        assert(items[0] == Item::Sitemap(children));
        assert(items.drop_first() =~= sitemap_entries(rest));
        assert(children[0] == Child::Location(locations[0]));
        assert(children.drop_first() =~= Seq::<Child>::empty());
        assert(trim(locations[0]).len() > 0 && absolute(trim(locations[0]), base) is Ok);
        let next = found.with_sitemap(absolute(trim(locations[0]), base)->Ok_0);
        assert(reference_added(found, locations[0], base) == Ok::<Decoded, Seq<char>>(next));
        assert(sitemap_gathered(next, Seq::<Child>::empty(), base) == Ok::<Decoded, Seq<char>>(
            next,
        ));
        assert(sitemap_gathered(found, children, base) == Ok::<Decoded, Seq<char>>(next));
        assert forall|i: int| 0 <= i < rest.len() implies trim(#[trigger] rest[i]).len() > 0
            && absolute(trim(rest[i]), base) is Ok by {
            assert(rest[i] == locations[i + 1]);
        }
        lemma_sitemap_entries(next, rest, base);
        assert(next.nested_sitemaps + references(rest, base) =~= found.nested_sitemaps
            + references(locations, base));
    }
}

/// A `urlset` document with a `url` entry for each of some locations, none
/// of them blank, decodes to exactly these locations, trimmed, each once,
/// in document order, and to no reference to a sitemap. Where the
/// locations are all different there are as many content URLs as entries.
pub proof fn lemma_urlset_gives_its_locations(
    locations: Seq<Seq<char>>,
    text: Seq<char>,
    base: Seq<char>,
)
    requires
        locations.len() > 0,
        forall|i: int| 0 <= i < locations.len() ==> trim(#[trigger] locations[i]).len() > 0,
    ensures
        decoded(document_tokens(urlset_items(locations)), text, base) == Ok::<
            Decoded,
            Seq<char>,
        >(
            Decoded {
                urls: with_urls(Seq::empty(), trimmed(locations)),
                nested_sitemaps: Seq::empty(),
            },
        ),
        trimmed(locations).no_duplicates() ==> with_urls(Seq::empty(), trimmed(locations))
            == trimmed(locations),
        trimmed(locations).len() == locations.len(),
{
    lemma_root_tags_passed_over();
    let head = seq![Item::Other(Token::Open("urlset"@))];
    let tail = seq![Item::Other(Token::Close("urlset"@))];
    let entries = url_entries(locations);
    let items = urlset_items(locations);
    let found = Decoded::empty();
    assert(items_are_plain(items)) by {
        assert forall|i: int| 0 <= i < items.len() implies item_is_plain(#[trigger] items[i]) by {
            if 0 < i <= locations.len() {
                let children = seq![Child::Location(locations[i - 1])];
                assert(items[i] == Item::Url(children));
                assert(children_are_plain(children));
            }
        }
    }
    lemma_document(found, items, base);
    lemma_gathered_both(found, head + entries, tail, base);
    lemma_gathered_both(found, head, entries, base);
    assert(head[0] == Item::Other(Token::Open("urlset"@)));
    assert(head.drop_first() =~= Seq::<Item>::empty());
    assert(gathered(found, Seq::<Item>::empty(), base) == Ok::<Decoded, Seq<char>>(found));
    assert(gathered(found, head, base) == Ok::<Decoded, Seq<char>>(found));
    lemma_url_entries(found, locations, base);
    let result = Decoded {
        urls: with_urls(Seq::empty(), trimmed(locations)),
        nested_sitemaps: Seq::empty(),
    };
    assert(tail[0] == Item::Other(Token::Close("urlset"@)));
    assert(tail.drop_first() =~= Seq::<Item>::empty());
    assert(gathered(result, Seq::<Item>::empty(), base) == Ok::<Decoded, Seq<char>>(result));
    assert(gathered(result, tail, base) == Ok::<Decoded, Seq<char>>(result));
    assert(DecoderState::initial() == resting(false, false, found));
    assert(with_urls(Seq::empty(), trimmed(locations)).len() > 0) by {
        assert(trimmed(locations)[0] == trim(locations[0]));
        lemma_with_urls_extends(
            with_url(Seq::empty(), trimmed(locations)[0]),
            trimmed(locations).drop_first(),
        );
    }
    if trimmed(locations).no_duplicates() {
        assert(Seq::<Seq<char>>::empty() + trimmed(locations) =~= trimmed(locations));
        lemma_with_distinct_urls(Seq::empty(), trimmed(locations));
    }
}

/// A `sitemapindex` document with a `sitemap` entry for each of some
/// locations, none of them blank and each one resolvable, decodes to no
/// content URL and to exactly one reference for each entry, in document
/// order: the location, trimmed and made absolute against the base.
pub proof fn lemma_sitemapindex_gives_its_references(
    locations: Seq<Seq<char>>,
    text: Seq<char>,
    base: Seq<char>,
)
    requires
        locations.len() > 0,
        forall|i: int|
            0 <= i < locations.len() ==> {
                &&& trim(#[trigger] locations[i]).len() > 0
                &&& absolute(trim(locations[i]), base) is Ok
            },
    ensures
        decoded(document_tokens(sitemapindex_items(locations)), text, base) == Ok::<
            Decoded,
            Seq<char>,
        >(Decoded { urls: Seq::empty(), nested_sitemaps: references(locations, base) }),
        references(locations, base).len() == locations.len(),
{
    lemma_root_tags_passed_over();
    let head = seq![Item::Other(Token::Open("sitemapindex"@))];
    let tail = seq![Item::Other(Token::Close("sitemapindex"@))];
    let entries = sitemap_entries(locations);
    let items = sitemapindex_items(locations);
    let found = Decoded::empty();
    assert(items_are_plain(items)) by {
        assert forall|i: int| 0 <= i < items.len() implies item_is_plain(#[trigger] items[i]) by {
            if 0 < i <= locations.len() {
                let children = seq![Child::Location(locations[i - 1])];
                assert(items[i] == Item::Sitemap(children));
                assert(children_are_plain(children));
            }
        }
    }
    lemma_document(found, items, base);
    lemma_gathered_both(found, head + entries, tail, base);
    lemma_gathered_both(found, head, entries, base);
    assert(head[0] == Item::Other(Token::Open("sitemapindex"@)));
    assert(head.drop_first() =~= Seq::<Item>::empty());
    assert(gathered(found, Seq::<Item>::empty(), base) == Ok::<Decoded, Seq<char>>(found));
    assert(gathered(found, head, base) == Ok::<Decoded, Seq<char>>(found));
    lemma_sitemap_entries(found, locations, base);
    assert(found.nested_sitemaps + references(locations, base) =~= references(locations, base));
    let result = Decoded { urls: Seq::empty(), nested_sitemaps: references(locations, base) };
    assert(tail[0] == Item::Other(Token::Close("sitemapindex"@)));
    assert(tail.drop_first() =~= Seq::<Item>::empty());
    assert(gathered(result, Seq::<Item>::empty(), base) == Ok::<Decoded, Seq<char>>(result));
    assert(gathered(result, tail, base) == Ok::<Decoded, Seq<char>>(result));
    assert(DecoderState::initial() == resting(false, false, found));
}

/// The children of an entry without its images.
pub open spec fn without_images(children: Seq<Child>) -> Seq<Child>
    decreases children.len(),
{
    if children.len() == 0 {
        Seq::empty()
    } else {
        match children[0] {
            Child::Image(_) => without_images(children.drop_first()),
            _ => seq![children[0]] + without_images(children.drop_first()),
        }
    }
}

/// The images of a `url` entry add nothing: the entry gives what it gives
/// without them.
pub proof fn lemma_images_add_nothing(found: Decoded, children: Seq<Child>)
    ensures
        url_gathered(found, children) == url_gathered(found, without_images(children)),
    decreases children.len(),
{
    if children.len() > 0 {
        let rest = children.drop_first();
        match children[0] {
            Child::Image(_) => {
                lemma_images_add_nothing(found, rest);
            },
            Child::Location(text) => {
                let kept = seq![children[0]] + without_images(rest);
                assert(kept[0] == children[0]);
                assert(kept.drop_first() =~= without_images(rest));
                lemma_images_add_nothing(page_added(found, text), rest);
            },
            Child::Other(_) => {
                let kept = seq![children[0]] + without_images(rest);
                assert(kept[0] == children[0]);
                assert(kept.drop_first() =~= without_images(rest));
                lemma_images_add_nothing(found, rest);
            },
        }
    }
}

/// The location inside an image of a `url` entry is no content URL, also
/// where the entry has a location of its own, before the image or behind
/// it: the entry gives the content URL of its own location and nothing
/// else.
pub proof fn lemma_image_location_left_out(
    found: Decoded,
    page: Seq<char>,
    picture: Seq<char>,
    base: Seq<char>,
)
    ensures
        resting(false, false, found).run(
            item_tokens(Item::Url(seq![Child::Location(page), Child::Image(picture)])),
            base,
        ) == Ok::<DecoderState, Seq<char>>(resting(false, false, page_added(found, page))),
        resting(false, false, found).run(
            item_tokens(Item::Url(seq![Child::Image(picture), Child::Location(page)])),
            base,
        ) == Ok::<DecoderState, Seq<char>>(resting(false, false, page_added(found, page))),
        resting(false, false, found).run(
            item_tokens(Item::Url(seq![Child::Image(picture)])),
            base,
        ) == Ok::<DecoderState, Seq<char>>(resting(false, false, found)),
        forall|url: Seq<char>|
            page_added(found, page).urls.contains(url) ==> found.urls.contains(url) || url == trim(
                page,
            ),
{
    let after = seq![Child::Location(page), Child::Image(picture)];
    let before = seq![Child::Image(picture), Child::Location(page)];
    let alone = seq![Child::Image(picture)];
    let only = seq![Child::Location(page)];
    assert(children_are_plain(after) && children_are_plain(before) && children_are_plain(alone));
    lemma_item(found, Item::Url(after), base);
    lemma_item(found, Item::Url(before), base);
    lemma_item(found, Item::Url(alone), base);
    lemma_images_add_nothing(found, after);
    lemma_images_add_nothing(found, before);
    lemma_images_add_nothing(found, alone);
    let none = Seq::<Child>::empty();
    assert(without_images(none) =~= none);
    assert(alone.drop_first() =~= none);
    assert(without_images(alone) =~= none);
    assert(after.drop_first() =~= alone);
    assert(without_images(after) =~= only);
    assert(before.drop_first() =~= only);
    assert(only.drop_first() =~= none);
    assert(without_images(only) =~= only);
    assert(without_images(before) =~= only);
    assert(url_gathered(found, none) == found);
    assert(url_gathered(page_added(found, page), none) == page_added(found, page));
    assert(url_gathered(found, only) == page_added(found, page));
    assert forall|url: Seq<char>|
        page_added(found, page).urls.contains(url) implies found.urls.contains(url) || url
        == trim(page) by {
        if trim(page).len() > 0 && !found.urls.contains(trim(page)) {
            let grown = found.urls.push(trim(page));
            let i = choose|i: int| 0 <= i < grown.len() && grown[i] == url;
            if i < found.urls.len() {
                assert(found.urls[i] == url);
            }
        }
    }
}

/// Whether a text holds no `<`.
pub open spec fn is_free_of_tags(text: Seq<char>) -> bool {
    forall|i: int| 0 <= i < text.len() ==> #[trigger] text[i] != '<'
}

/// Whether every `<` of a text starts `<l` or `</`.
pub open spec fn has_only_loc_tags(text: Seq<char>) -> bool {
    forall|i: int|
        0 <= i < text.len() && #[trigger] text[i] == '<' ==> i + 1 < text.len() && (text[i + 1]
            == 'l' || text[i + 1] == '/')
}

/// The text of bare locations: for each of them a gap, `<loc>`, the
/// location and `</loc>`.
pub open spec fn bare_locations(gaps: Seq<Seq<char>>, locations: Seq<Seq<char>>) -> Seq<char>
    decreases locations.len(),
{
    if locations.len() == 0 || gaps.len() == 0 {
        Seq::empty()
    } else {
        gaps[0] + "<loc>"@ + locations[0] + "</loc>"@ + bare_locations(
            gaps.drop_first(),
            locations.drop_first(),
        )
    }
}

/// `found` with the content URL of each of some locations.
pub open spec fn pages_added(found: Decoded, locations: Seq<Seq<char>>) -> Decoded
    decreases locations.len(),
{
    if locations.len() == 0 {
        found
    } else {
        pages_added(page_added(found, locations[0]), locations.drop_first())
    }
}

/// The lenient scan from the end of `prefix` on, where bare locations
/// follow and nothing before them looks like the start of a `sitemap`
/// element.
proof fn lemma_scan_from_prefix(
    prefix: Seq<char>,
    gaps: Seq<Seq<char>>,
    locations: Seq<Seq<char>>,
    tail: Seq<char>,
    base: Seq<char>,
    found: Decoded,
)
    requires
        gaps.len() == locations.len(),
        has_only_loc_tags(prefix),
        is_free_of_tags(tail),
        forall|i: int| 0 <= i < gaps.len() ==> is_free_of_tags(#[trigger] gaps[i]),
        forall|i: int| 0 <= i < locations.len() ==> is_free_of_tags(#[trigger] locations[i]),
    ensures
        scan_from(
            prefix + bare_locations(gaps, locations) + tail,
            prefix.len() as int,
            base,
            found,
        ) == Ok::<Decoded, Seq<char>>(pages_added(found, locations)),
    decreases locations.len(),
{
    reveal_strlit("<loc>");
    reveal_strlit("</loc>");
    reveal_strlit("<sitemap");
    let open_tag = "<loc>"@;
    let close_tag = "</loc>"@;
    let text = prefix + bare_locations(gaps, locations) + tail;
    let start = prefix.len() as int;
    if locations.len() == 0 {
        assert(text =~= prefix + tail);
        assert forall|j: int| start <= j < text.len() implies text[j] != open_tag[0] by {
            assert(text[j] == tail[j - start]);
        }
        lemma_find_from_none(text, open_tag, start);
    } else {
        let gap = gaps[0];
        let location = locations[0];
        let rest = bare_locations(gaps.drop_first(), locations.drop_first());
        let a = prefix + gap;
        let b = a + open_tag;
        let c = b + location;
        let d = c + close_tag;
        assert(text =~= d + (rest + tail));
        let open = a.len() as int;
        let body = b.len() as int;
        let close = c.len() as int;
        let next = d.len() as int;
        assert(text.subrange(open, open + 5) =~= open_tag);
        assert forall|j: int| start <= j < open implies !occurs_at(
            text,
            open_tag,
            j,
        ) by {
            assert(text[j] == gap[j - start]);
            if occurs_at(text, open_tag, j) {
                assert(text.subrange(j, j + 5)[0] == open_tag[0]);
            }
        }
        lemma_find_from_at(text, open_tag, start, open);
        assert(text.subrange(close, close + 6) =~= close_tag);
        assert forall|j: int| body <= j < close implies !occurs_at(
            text,
            close_tag,
            j,
        ) by {
            assert(text[j] == location[j - body]);
            if occurs_at(text, close_tag, j) {
                assert(text.subrange(j, j + 6)[0] == close_tag[0]);
            }
        }
        lemma_find_from_at(text, close_tag, body, close);
        assert(next_loc(text, start) == Some((open, close)));
        assert(text.subrange(body, close) =~= location);
        let window = window_before(text, open);
        let shift = if open > 100 {
            open - 100
        } else {
            0
        };
        assert(!contains_text(window, "<sitemap"@)) by {
            lemma_find_from_is_first(window, "<sitemap"@, 0);
            match find_from(window, "<sitemap"@, 0) {
                Some(i) => {
                    assert(window.subrange(i, i + 8)[0] == "<sitemap"@[0]);
                    assert(window.subrange(i, i + 8)[1] == "<sitemap"@[1]);
                    let k = shift + i;
                    assert(text[k] == '<' && text[k + 1] == 's');
                    if k >= start {
                        assert(text[k] == gap[k - start]);
                    } else {
                        assert(text[k] == prefix[k]);
                        assert(k + 1 < prefix.len());
                        assert(text[k + 1] == prefix[k + 1]);
                    }
                },
                None => {},
            }
        }
        assert(has_only_loc_tags(d)) by {
            assert forall|i: int| 0 <= i < d.len() && #[trigger] d[i] == '<' implies i + 1
                < d.len() && (d[i + 1] == 'l' || d[i + 1] == '/') by {
                if i < start {
                    assert(d[i] == prefix[i]);
                    assert(d[i + 1] == prefix[i + 1]);
                } else if i < open {
                    assert(d[i] == gap[i - start]);
                } else if i < body {
                    assert(d[i] == open_tag[i - open]);
                    assert(i == open);
                    assert(d[i + 1] == open_tag[1]);
                } else if i < close {
                    assert(d[i] == location[i - body]);
                } else {
                    assert(d[i] == close_tag[i - close]);
                    assert(i == close);
                    assert(d[i + 1] == close_tag[1]);
                }
            }
        }
        let grown = page_added(found, location);
        assert forall|i: int| 0 <= i < gaps.drop_first().len() implies is_free_of_tags(
            #[trigger] gaps.drop_first()[i],
        ) by {
            assert(gaps.drop_first()[i] == gaps[i + 1]);
        }
        assert forall|i: int| 0 <= i < locations.drop_first().len() implies is_free_of_tags(
            #[trigger] locations.drop_first()[i],
        ) by {
            assert(locations.drop_first()[i] == locations[i + 1]);
        }
        lemma_scan_from_prefix(d, gaps.drop_first(), locations.drop_first(), tail, base, grown);
        assert(text =~= d + rest + tail);
    }
}

/// Ill-formed input that holds nothing but bare `<loc>`..`</loc>` pairs,
/// with text without `<` in them, between them and behind them, still
/// gives every location through the lenient scan, as a content URL: each
/// trimmed, none twice, in the order of the text, blank ones left out.
pub proof fn lemma_scan_finds_bare_locations(
    gaps: Seq<Seq<char>>,
    locations: Seq<Seq<char>>,
    tail: Seq<char>,
    base: Seq<char>,
)
    requires
        gaps.len() == locations.len(),
        is_free_of_tags(tail),
        forall|i: int| 0 <= i < gaps.len() ==> is_free_of_tags(#[trigger] gaps[i]),
        forall|i: int| 0 <= i < locations.len() ==> is_free_of_tags(#[trigger] locations[i]),
    ensures
        scan(bare_locations(gaps, locations) + tail, base) == Ok::<
            Decoded,
            Seq<char>,
        >(pages_added(Decoded::empty(), locations)),
        pages_added(Decoded::empty(), locations).nested_sitemaps.len() == 0,
        (forall|i: int| 0 <= i < locations.len() ==> trim(#[trigger] locations[i]).len() > 0)
            ==> pages_added(Decoded::empty(), locations).urls == with_urls(
            Seq::empty(),
            trimmed(locations),
        ),
{
    let none = Seq::<char>::empty();
    assert(none + bare_locations(gaps, locations) + tail =~= bare_locations(gaps, locations)
        + tail);
    lemma_scan_from_prefix(none, gaps, locations, tail, base, Decoded::empty());
    lemma_pages_added(Decoded::empty(), locations);
}

/// Adding pages adds no reference, and where no location is blank it adds
/// their trimmed texts.
pub proof fn lemma_pages_added(found: Decoded, locations: Seq<Seq<char>>)
    ensures
        pages_added(found, locations).nested_sitemaps == found.nested_sitemaps,
        (forall|i: int| 0 <= i < locations.len() ==> trim(#[trigger] locations[i]).len() > 0)
            ==> pages_added(found, locations).urls == with_urls(found.urls, trimmed(locations)),
    decreases locations.len(),
{
    if locations.len() > 0 {
        let rest = locations.drop_first();
        lemma_pages_added(page_added(found, locations[0]), rest);
        if forall|i: int| 0 <= i < locations.len() ==> trim(#[trigger] locations[i]).len() > 0 {
            assert(trim(locations[0]).len() > 0);
            assert forall|i: int| 0 <= i < rest.len() implies trim(#[trigger] rest[i]).len()
                > 0 by {
                assert(rest[i] == locations[i + 1]);
            }
            assert(trimmed(locations)[0] == trim(locations[0]));
            assert(trimmed(locations).drop_first() =~= trimmed(rest));
        }
    }
}

/// Bare locations as items of a document: each stands in no entry.
pub open spec fn stray_items(locations: Seq<Seq<char>>) -> Seq<Item> {
    Seq::new(locations.len(), |i: int| Item::Stray(locations[i]))
}

/// The structured decoder finds nothing in bare locations.
pub proof fn lemma_stray_items(found: Decoded, locations: Seq<Seq<char>>, base: Seq<char>)
    ensures
        items_are_plain(stray_items(locations)),
        gathered(found, stray_items(locations), base) == Ok::<Decoded, Seq<char>>(found),
    decreases locations.len(),
{
    let items = stray_items(locations);
    if locations.len() > 0 {
        assert(items[0] == Item::Stray(locations[0]));
        assert(items.drop_first() =~= stray_items(locations.drop_first()));
        lemma_stray_items(found, locations.drop_first(), base);
    }
}

/// A document of nothing but bare `<loc>`..`</loc>` pairs gives every
/// location as a content URL, though the structured decoder finds none of
/// them: the lenient scan takes over and finds them all, each trimmed, none
/// twice, in the order of the text, blank ones left out.
pub proof fn lemma_bare_locations_decode(
    gaps: Seq<Seq<char>>,
    locations: Seq<Seq<char>>,
    tail: Seq<char>,
    base: Seq<char>,
)
    requires
        gaps.len() == locations.len(),
        is_free_of_tags(tail),
        forall|i: int| 0 <= i < gaps.len() ==> is_free_of_tags(#[trigger] gaps[i]),
        forall|i: int| 0 <= i < locations.len() ==> is_free_of_tags(#[trigger] locations[i]),
    ensures
        decoded(
            document_tokens(stray_items(locations)),
            bare_locations(gaps, locations) + tail,
            base,
        ) == Ok::<Decoded, Seq<char>>(pages_added(Decoded::empty(), locations)),
        pages_added(Decoded::empty(), locations).nested_sitemaps.len() == 0,
        (forall|i: int| 0 <= i < locations.len() ==> trim(#[trigger] locations[i]).len() > 0)
            ==> pages_added(Decoded::empty(), locations).urls == with_urls(
            Seq::empty(),
            trimmed(locations),
        ),
{
    lemma_stray_items(Decoded::empty(), locations, base);
    lemma_document(Decoded::empty(), stray_items(locations), base);
    assert(DecoderState::initial() == resting(false, false, Decoded::empty()));
    lemma_scan_finds_bare_locations(gaps, locations, tail, base);
}

} // verus!
