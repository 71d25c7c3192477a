//! Extraction of `Sitemap:` directives from the text of a `robots.txt`.

use crate::text::{
    chars_of, folds_to, has_prefix_ignoring_case, is_blank, is_whitespace, lemma_trim_padded,
    starts_with_ignoring_case, string_of, trim, trim_slice,
};
use crate::url_set::texts;
use crate::urls::{
    glue, glued, has_http_scheme, is_http_url, join_url, url_join, Joined, JoinedView,
};
use vstd::prelude::*;
use vstd::slice::slice_subrange;
use vstd::string::StringExecFns;

verus! {

/// The length of the first line of `text`: the number of characters before
/// its first line feed, or all of them.
pub open spec fn first_line_len(text: Seq<char>) -> nat
    decreases text.len(),
{
    if text.len() == 0 || text[0] == '\n' {
        0
    } else {
        1 + first_line_len(text.drop_first())
    }
}

/// The lines of `text`: the pieces between its line feeds.
pub open spec fn split_lines(text: Seq<char>) -> Seq<Seq<char>>
    decreases text.len(),
    via split_lines_decreases
{
    let n = first_line_len(text) as int;
    if n >= text.len() {
        seq![text]
    } else {
        seq![text.take(n)] + split_lines(text.skip(n + 1))
    }
}

#[via_fn]
proof fn split_lines_decreases(text: Seq<char>) {
    lemma_first_line_len(text);
}

/// The first line ends within the text, at a line feed or at the end, and
/// holds no line feed.
pub proof fn lemma_first_line_len(text: Seq<char>)
    ensures
        first_line_len(text) <= text.len(),
        first_line_len(text) < text.len() ==> text[first_line_len(text) as int] == '\n',
        forall|i: int| 0 <= i < first_line_len(text) ==> text[i] != '\n',
    decreases text.len(),
{
    if text.len() == 0 || text[0] == '\n' {
    } else {
        let rest = text.drop_first();
        lemma_first_line_len(rest);
        assert forall|i: int| 0 <= i < first_line_len(text) implies text[i] != '\n' by {
            if i > 0 {
                assert(text[i] == rest[i - 1]);
            }
        }
    }
}

/// The value of the directive on `line`: where the trimmed line starts
/// with `sitemap:` in any letter case, the trimmed text behind that key,
/// unless it is empty.
pub open spec fn directive_value(line: Seq<char>) -> Option<Seq<char>> {
    let trimmed = trim(line);
    let value = trim(trimmed.skip("sitemap:"@.len() as int));
    if has_prefix_ignoring_case(trimmed, "sitemap:"@) && value.len() > 0 {
        Some(value)
    } else {
        None
    }
}

/// The sitemap URL for a directive's value without a web scheme, given
/// how resolving it against `base` ended: the resolved URL; else the value
/// as it is where it has a leading `/`, and glued to `base` where it has
/// none.
pub open spec fn directive_from(value: Seq<char>, base: Seq<char>, joined: JoinedView) -> Seq<
    char,
> {
    match joined {
        JoinedView::Resolved(u) => u,
        _ => if value.len() > 0 && value[0] == '/' {
            value
        } else {
            glued(base, value)
        },
    }
}

/// The sitemap URL that a directive's value stands for. A value with a web
/// scheme passes through; any other is resolved against `base`, a leading
/// `/` against its origin.
pub open spec fn directive_url(value: Seq<char>, base: Seq<char>) -> Seq<char> {
    if is_http_url(value) {
        value
    } else {
        directive_from(value, base, url_join(base, value))
    }
}

/// The sitemap URLs that the directives among `lines` give, in the order
/// of the lines.
pub open spec fn directives(lines: Seq<Seq<char>>, base: Seq<char>) -> Seq<Seq<char>>
    decreases lines.len(),
{
    if lines.len() == 0 {
        Seq::empty()
    } else {
        match directive_value(lines[0]) {
            Some(value) => seq![directive_url(value, base)] + directives(lines.drop_first(), base),
            None => directives(lines.drop_first(), base),
        }
    }
}

/// The sitemap URLs that a `robots.txt` advertises.
pub open spec fn robots_sitemaps(content: Seq<char>, base: Seq<char>) -> Seq<Seq<char>> {
    directives(split_lines(content), base)
}

/// The sitemap URL for a directive's value without a web scheme, given
/// how resolving it against `base_url` ended.
pub fn directive_from_join(value: &str, base_url: &str, joined: Joined) -> (r: String)
    ensures
        r@ == directive_from(value@, base_url@, joined@),
{
    match joined {
        Joined::Resolved(u) => u,
        _ => {
            let chars = chars_of(value);
            if chars.len() > 0 && chars[0] == '/' {
                String::from_str(value)
            } else {
                glue(base_url, value)
            }
        },
    }
}

/// The sitemap URL for a directive's value.
fn resolve_directive(value: &[char], base_url: &str) -> (r: String)
    ensures
        r@ == directive_url(value@, base_url@),
{
    let reference = string_of(value);
    if has_http_scheme(value) {
        reference
    } else {
        let joined = join_url(base_url, reference.as_str());
        directive_from_join(reference.as_str(), base_url, joined)
    }
}

/// Reads the text of a `robots.txt` and returns the sitemap URLs of its
/// `Sitemap:` directives, absolute, in file order, duplicates included.
/// Only these directives are read; the key counts in any letter case.
pub fn parse_robots_txt(content: &str, base_url: &str) -> (sitemaps: Vec<String>)
    ensures
        texts(sitemaps@) == robots_sitemaps(content@, base_url@),
{
    let chars = chars_of(content);
    let text = chars.as_slice();
    let key = chars_of("sitemap:");
    let length = text.len();
    let mut sitemaps: Vec<String> = Vec::new();
    let mut start: usize = 0;
    proof {
        assert(text@.skip(0) == text@);
        assert(texts(sitemaps@) =~= Seq::<Seq<char>>::empty());
        assert(Seq::<Seq<char>>::empty() + robots_sitemaps(content@, base_url@)
            =~= robots_sitemaps(content@, base_url@));
    }
    loop
        invariant
            text@ == content@,
            key@ == "sitemap:"@,
            length == text@.len(),
            start <= length,
            texts(sitemaps@) + directives(split_lines(text@.skip(start as int)), base_url@)
                == robots_sitemaps(content@, base_url@),
        decreases length - start,
    {
        let ghost rest = text@.skip(start as int);
        let ghost before = texts(sitemaps@);
        let mut end: usize = start;
        proof {
            assert(text@.skip(end as int) == rest);
        }
        while end < length && text[end] != '\n'
            invariant
                start <= end <= length == text@.len(),
                rest == text@.skip(start as int),
                first_line_len(rest) == (end - start) + first_line_len(text@.skip(end as int)),
            decreases length - end,
        {
            assert(text@.skip(end as int).drop_first() == text@.skip(end + 1));
            end += 1;
        }
        assert(first_line_len(rest) == end - start);
        assert(rest.take(end - start) == text@.subrange(start as int, end as int));
        let line = trim_slice(slice_subrange(text, start, end));
        if starts_with_ignoring_case(line, key.as_slice()) {
            let value = trim_slice(slice_subrange(line, key.len(), line.len()));
            assert(line@.skip(key@.len() as int) == line@.subrange(
                key@.len() as int,
                line@.len() as int,
            ));
            if value.len() > 0 {
                let url = resolve_directive(value, base_url);
                sitemaps.push(url);
                assert(texts(sitemaps@) =~= before + seq![directive_url(value@, base_url@)]);
            }
        }
        let ghost found = match directive_value(rest.take(end - start)) {
            Some(v) => seq![directive_url(v, base_url@)],
            None => Seq::empty(),
        };
        assert(texts(sitemaps@) =~= before + found);
        if end == length {
            proof {
                assert(split_lines(rest) == seq![rest]);
                assert(seq![rest].drop_first() =~= Seq::<Seq<char>>::empty());
                assert(rest.take(end - start) == rest);
                assert(directives(seq![rest].drop_first(), base_url@) =~= Seq::<
                    Seq<char>,
                >::empty());
                assert(seq![rest][0] == rest);
                assert(directives(seq![rest], base_url@) =~= found);
            }
            return sitemaps;
        }
        proof {
            let lines = split_lines(rest);
            let tail = split_lines(rest.skip(end - start + 1));
            assert(lines == seq![rest.take(end - start)] + tail);
            assert(lines.drop_first() =~= tail);
            assert(rest.skip(end - start + 1) == text@.skip(end + 1));
            assert(directives(lines, base_url@) =~= found + directives(tail, base_url@));
            assert(before + (found + directives(tail, base_url@)) =~= (before + found) + directives(
                tail,
                base_url@,
            ));
        }
        start = end + 1;
    }
}

/// Lines put together into one text, with a line feed between each two.
pub open spec fn joined_lines(lines: Seq<Seq<char>>) -> Seq<char>
    decreases lines.len(),
{
    if lines.len() == 0 {
        Seq::empty()
    } else if lines.len() == 1 {
        lines[0]
    } else {
        lines[0] + seq!['\n'] + joined_lines(lines.drop_first())
    }
}

/// The first line of a text ends where its first line feed stands.
pub proof fn lemma_first_line_of(line: Seq<char>, rest: Seq<char>)
    requires
        !line.contains('\n'),
    ensures
        first_line_len(line) == line.len(),
        first_line_len(line + seq!['\n'] + rest) == line.len(),
    decreases line.len(),
{
    let text = line + seq!['\n'] + rest;
    if line.len() == 0 {
        assert(text[0] == '\n');
    } else {
        assert(line[0] != '\n');
        assert(text[0] == line[0]);
        assert(text.drop_first() =~= line.drop_first() + seq!['\n'] + rest);
        assert forall|i: int| 0 <= i < line.drop_first().len() implies line.drop_first()[i]
            != '\n' by {
            assert(line[i + 1] != '\n');
        }
        lemma_first_line_of(line.drop_first(), rest);
    }
}

/// Splitting undoes joining: a text put together from lines without line
/// feeds has just these lines.
pub proof fn lemma_split_joined_lines(lines: Seq<Seq<char>>)
    requires
        lines.len() > 0,
        forall|i: int| 0 <= i < lines.len() ==> !(#[trigger] lines[i]).contains('\n'),
    ensures
        split_lines(joined_lines(lines)) == lines,
    decreases lines.len(),
{
    let text = joined_lines(lines);
    if lines.len() == 1 {
        lemma_first_line_of(lines[0], Seq::empty());
        assert(split_lines(text) =~= lines);
    } else {
        let rest = lines.drop_first();
        assert forall|i: int| 0 <= i < rest.len() implies !(#[trigger] rest[i]).contains('\n') by {
            assert(rest[i] == lines[i + 1]);
        }
        lemma_first_line_of(lines[0], joined_lines(rest));
        lemma_split_joined_lines(rest);
        let n = lines[0].len() as int;
        assert(text.take(n) =~= lines[0]);
        assert(text.skip(n + 1) =~= joined_lines(rest));
        assert(seq![lines[0]] + rest =~= lines);
    }
}

/// The extractor returns exactly the values of the directives, resolved,
/// in the order of their lines and without dropping one that occurs twice:
/// where each line holds a directive, the result has one URL for each
/// line.
pub proof fn lemma_directives_in_order(
    lines: Seq<Seq<char>>,
    values: Seq<Seq<char>>,
    base: Seq<char>,
)
    requires
        lines.len() == values.len(),
        forall|i: int| 0 <= i < lines.len() ==> directive_value(#[trigger] lines[i]) == Some(
            values[i],
        ),
    ensures
        directives(lines, base) == Seq::new(values.len(), |i: int| directive_url(values[i], base)),
    decreases lines.len(),
{
    if lines.len() == 0 {
        assert(directives(lines, base) =~= Seq::new(
            values.len(),
            |i: int| directive_url(values[i], base),
        ));
    } else {
        let rest = lines.drop_first();
        let rest_values = values.drop_first();
        assert forall|i: int| 0 <= i < rest.len() implies directive_value(#[trigger] rest[i])
            == Some(rest_values[i]) by {
            assert(rest[i] == lines[i + 1]);
        }
        lemma_directives_in_order(rest, rest_values, base);
        assert(directive_value(lines[0]) == Some(values[0]));
        assert(directives(lines, base) =~= Seq::new(
            values.len(),
            |i: int| directive_url(values[i], base),
        ));
    }
}

/// Lines without a directive give no sitemap.
pub proof fn lemma_no_directive_no_sitemap(lines: Seq<Seq<char>>, base: Seq<char>)
    requires
        forall|i: int| 0 <= i < lines.len() ==> directive_value(#[trigger] lines[i]) is None,
    ensures
        directives(lines, base).len() == 0,
    decreases lines.len(),
{
    if lines.len() > 0 {
        let rest = lines.drop_first();
        assert forall|i: int| 0 <= i < rest.len() implies directive_value(#[trigger] rest[i])
            is None by {
            assert(rest[i] == lines[i + 1]);
        }
        lemma_no_directive_no_sitemap(rest, base);
        assert(directive_value(lines[0]) is None);
    }
}

/// A text none of whose lines holds a directive gives no sitemap.
pub proof fn lemma_robots_without_directive(content: Seq<char>, base: Seq<char>)
    requires
        forall|i: int|
            0 <= i < split_lines(content).len() ==> directive_value(
                #[trigger] split_lines(content)[i],
            ) is None,
    ensures
        robots_sitemaps(content, base).len() == 0,
{
    lemma_no_directive_no_sitemap(split_lines(content), base);
}

/// What counts as a directive: the key `sitemap:` in any letter case, then
/// a value that is not empty, with any white space before the key, between
/// key and value, and behind the value.
pub proof fn lemma_directive_line(
    lead: Seq<char>,
    key: Seq<char>,
    pad: Seq<char>,
    value: Seq<char>,
    trail: Seq<char>,
)
    requires
        is_blank(lead),
        is_blank(pad),
        is_blank(trail),
        key.len() == "sitemap:"@.len(),
        has_prefix_ignoring_case(key, "sitemap:"@),
        value.len() > 0,
        !is_whitespace(value[0]),
        !is_whitespace(value.last()),
    ensures
        directive_value(lead + key + pad + value + trail) == Some(value),
{
    reveal_strlit("sitemap:");
    let line = lead + key + pad + value + trail;
    let core = key + pad + value;
    assert(folds_to(key[0], "sitemap:"@[0]));
    assert(!is_whitespace(key[0]));
    assert(core[0] == key[0]);
    assert(core.last() == value.last());
    assert(line =~= lead + core + trail);
    lemma_trim_padded(lead, core, trail);
    assert(trim(line) == core);
    assert(has_prefix_ignoring_case(core, "sitemap:"@)) by {
        assert forall|i: int| 0 <= i < "sitemap:"@.len() implies folds_to(
            #[trigger] core[i],
            "sitemap:"@[i],
        ) by {
            assert(core[i] == key[i]);
        }
    }
    assert(core.skip(key.len() as int) =~= pad + value + Seq::<char>::empty());
    lemma_trim_padded(pad, value, Seq::empty());
}

/// A value with a web scheme is taken as it is, whatever the base.
pub proof fn lemma_absolute_directive_passes(value: Seq<char>, base: Seq<char>)
    requires
        is_http_url(value),
    ensures
        directive_url(value, base) == value,
{
}

/// A text made of lines gives the sitemaps of the directives among these
/// lines, in their order.
pub proof fn lemma_robots_of_lines(lines: Seq<Seq<char>>, base: Seq<char>)
    requires
        lines.len() > 0,
        forall|i: int| 0 <= i < lines.len() ==> !(#[trigger] lines[i]).contains('\n'),
    ensures
        robots_sitemaps(joined_lines(lines), base) == directives(lines, base),
{
    lemma_split_joined_lines(lines);
}

} // verus!
