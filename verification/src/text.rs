//! Character-level text primitives: white space, trimming, prefixes,
//! substring search and decimal rendering.
//!
//! Text is modelled as `Seq<char>`; executable code works on `&[char]`.

use vstd::prelude::*;
use vstd::slice::slice_subrange;
use vstd::std_specs::iter::IteratorSpec;

verus! {

/// Whether `c` has the Unicode `White_Space` property.
pub open spec fn is_whitespace(c: char) -> bool {
    let n = c as u32;
    ||| 0x09 <= n <= 0x0D
    ||| n == 0x20
    ||| n == 0x85
    ||| n == 0xA0
    ||| n == 0x1680
    ||| 0x2000 <= n <= 0x200A
    ||| n == 0x2028
    ||| n == 0x2029
    ||| n == 0x202F
    ||| n == 0x205F
    ||| n == 0x3000
}

/// `s` without its leading white space.
pub open spec fn trim_start(s: Seq<char>) -> Seq<char>
    decreases s.len(),
{
    if s.len() > 0 && is_whitespace(s[0]) {
        trim_start(s.drop_first())
    } else {
        s
    }
}

/// `s` without its trailing white space.
pub open spec fn trim_end(s: Seq<char>) -> Seq<char>
    decreases s.len(),
{
    if s.len() > 0 && is_whitespace(s.last()) {
        trim_end(s.drop_last())
    } else {
        s
    }
}

/// `s` without leading and trailing white space.
pub open spec fn trim(s: Seq<char>) -> Seq<char> {
    trim_end(trim_start(s))
}

/// `s` without any trailing occurrence of `c`.
pub open spec fn trim_end_char(s: Seq<char>, c: char) -> Seq<char>
    decreases s.len(),
{
    if s.len() > 0 && s.last() == c {
        trim_end_char(s.drop_last(), c)
    } else {
        s
    }
}

/// Whether `c` is `lower` or, where `lower` is an ASCII lowercase letter, its
/// uppercase form.
pub open spec fn folds_to(c: char, lower: char) -> bool {
    c == lower || ('a' <= lower <= 'z' && c as u32 + 32 == lower as u32)
}

/// Whether `s` begins with `p` when ASCII letter case is ignored. `p` is
/// expected to be in lower case.
pub open spec fn has_prefix_ignoring_case(s: Seq<char>, p: Seq<char>) -> bool {
    &&& p.len() <= s.len()
    &&& forall|i: int| 0 <= i < p.len() ==> folds_to(#[trigger] s[i], p[i])
}

/// Whether `p` occurs in `s` at index `i`.
pub open spec fn occurs_at(s: Seq<char>, p: Seq<char>, i: int) -> bool {
    &&& 0 <= i
    &&& i + p.len() <= s.len()
    &&& s.subrange(i, i + p.len()) == p
}

/// Index of the first occurrence of `p` in `s` at or after `from`.
pub open spec fn find_from(s: Seq<char>, p: Seq<char>, from: int) -> Option<int>
    decreases s.len() + 1 - from,
{
    if from < 0 || from + p.len() > s.len() {
        None
    } else if occurs_at(s, p, from) {
        Some(from)
    } else {
        find_from(s, p, from + 1)
    }
}

/// Whether `p` occurs somewhere in `s`.
pub open spec fn contains_text(s: Seq<char>, p: Seq<char>) -> bool {
    find_from(s, p, 0) is Some
}

/// The character for the decimal digit `d`.
pub open spec fn digit_char(d: int) -> char {
    ('0' as u32 + d) as char
}

/// The decimal rendering of `n`, without leading zeros.
pub open spec fn decimal(n: nat) -> Seq<char>
    decreases n,
{
    if n < 10 {
        seq![digit_char(n as int)]
    } else {
        decimal(n / 10).push(digit_char((n % 10) as int))
    }
}

/// `find_from` returns the least index at or after `from` at which `p` occurs.
pub proof fn lemma_find_from_is_first(s: Seq<char>, p: Seq<char>, from: int)
    requires
        0 <= from,
    ensures
        match find_from(s, p, from) {
            Some(i) => {
                &&& from <= i
                &&& occurs_at(s, p, i)
                &&& forall|j: int| from <= j < i ==> !occurs_at(s, p, j)
            },
            None => forall|j: int| from <= j ==> !occurs_at(s, p, j),
        },
    decreases s.len() + 1 - from,
{
    if from + p.len() > s.len() {
    } else if occurs_at(s, p, from) {
    } else {
        lemma_find_from_is_first(s, p, from + 1);
    }
}

/// The first occurrence is where the pattern occurs and did not occur
/// before.
pub proof fn lemma_find_from_at(s: Seq<char>, p: Seq<char>, from: int, at: int)
    requires
        0 <= from <= at,
        occurs_at(s, p, at),
        forall|j: int| from <= j < at ==> !occurs_at(s, p, j),
    ensures
        find_from(s, p, from) == Some(at),
{
    lemma_find_from_is_first(s, p, from);
}

/// A pattern whose first character does not occur from some index on is
/// not found from there on.
pub proof fn lemma_find_from_none(s: Seq<char>, p: Seq<char>, from: int)
    requires
        0 <= from,
        p.len() > 0,
        forall|j: int| from <= j < s.len() ==> s[j] != p[0],
    ensures
        find_from(s, p, from) is None,
{
    lemma_find_from_is_first(s, p, from);
    match find_from(s, p, from) {
        Some(i) => {
            assert(s.subrange(i, i + p.len())[0] == p[0]);
        },
        None => {},
    }
}

/// Whether `s` holds nothing but white space.
pub open spec fn is_blank(s: Seq<char>) -> bool {
    forall|i: int| 0 <= i < s.len() ==> is_whitespace(#[trigger] s[i])
}

/// Leading white space does not count: trimming the start of `blank + s`
/// gives what trimming the start of `s` gives.
pub proof fn lemma_trim_start_skips_blank(blank: Seq<char>, s: Seq<char>)
    requires
        is_blank(blank),
    ensures
        trim_start(blank + s) == trim_start(s),
    decreases blank.len(),
{
    if blank.len() == 0 {
        assert(blank + s =~= s);
    } else {
        assert((blank + s)[0] == blank[0]);
        assert((blank + s).drop_first() =~= blank.drop_first() + s);
        lemma_trim_start_skips_blank(blank.drop_first(), s);
    }
}

/// Trailing white space does not count: trimming the end of `s + blank`
/// gives what trimming the end of `s` gives.
pub proof fn lemma_trim_end_skips_blank(s: Seq<char>, blank: Seq<char>)
    requires
        is_blank(blank),
    ensures
        trim_end(s + blank) == trim_end(s),
    decreases blank.len(),
{
    if blank.len() == 0 {
        assert(s + blank =~= s);
    } else {
        assert((s + blank).last() == blank.last());
        assert((s + blank).drop_last() =~= s + blank.drop_last());
        lemma_trim_end_skips_blank(s, blank.drop_last());
    }
}

/// White space around a text that itself neither starts nor ends with
/// white space is what trimming removes.
pub proof fn lemma_trim_padded(lead: Seq<char>, s: Seq<char>, trail: Seq<char>)
    requires
        is_blank(lead),
        is_blank(trail),
        s.len() > 0 ==> !is_whitespace(s[0]) && !is_whitespace(s.last()),
    ensures
        trim(lead + s + trail) == s,
{
    assert(lead + s + trail =~= lead + (s + trail));
    lemma_trim_start_skips_blank(lead, s + trail);
    if s.len() == 0 {
        assert(s + trail =~= trail);
        assert(trail =~= trail + Seq::<char>::empty());
        lemma_trim_start_skips_blank(trail, Seq::empty());
        assert(trim_start(Seq::<char>::empty()) =~= s);
    } else {
        assert((s + trail)[0] == s[0]);
        lemma_trim_end_skips_blank(s, trail);
    }
}

/// Whether `c` is white space.
pub fn char_is_whitespace(c: char) -> (r: bool)
    ensures
        r == is_whitespace(c),
{
    let n: u32 = c as u32;
    (0x09 <= n && n <= 0x0D) || n == 0x20 || n == 0x85 || n == 0xA0 || n == 0x1680 || (0x2000 <= n
        && n <= 0x200A) || n == 0x2028 || n == 0x2029 || n == 0x202F || n == 0x205F || n == 0x3000
}

/// Whether `c` is `lower` or its uppercase form.
pub fn char_folds_to(c: char, lower: char) -> (r: bool)
    ensures
        r == folds_to(c, lower),
{
    c == lower || ('a' <= lower && lower <= 'z' && 'A' <= c && c <= 'Z' && c as u32 + 32
        == lower as u32)
}

/// The characters of a string slice, in order.
pub fn chars_of(s: &str) -> (v: Vec<char>)
    ensures
        v@ == s@,
{
    let mut v: Vec<char> = Vec::new();
    for c in it: s.chars()
        invariant
            v@ == it.seq().take(it.index() as int),
            it.seq() == s@,
    {
        v.push(c);
    }
    v
}

/// Whether two string slices hold the same text.
pub fn same_text(a: &str, b: &str) -> (r: bool)
    ensures
        r == (a@ == b@),
{
    broadcast use vstd::string::group_string_axioms;

    let mut rest = b.chars();
    for c in it: a.chars()
        invariant
            it.seq() == a@,
            rest.remaining() == b@.skip(it.index() as int),
            it.index() <= b@.len(),
            a@.take(it.index() as int) == b@.take(it.index() as int),
    {
        match rest.next() {
            Some(d) => {
                if c != d {
                    return false;
                }
            },
            None => {
                return false;
            },
        }
    }
    assert(a@.take(a@.len() as int) == a@);
    assert(b@.take(b@.len() as int) == b@);
    rest.next().is_none()
}

/// Trims white space from both ends of `s`.
pub fn trim_slice<'a>(s: &'a [char]) -> (r: &'a [char])
    ensures
        r@ == trim(s@),
{
    let n = s.len();
    let mut lo: usize = 0;
    assert(s@.subrange(0, n as int) == s@);
    while lo < n && char_is_whitespace(s[lo])
        invariant
            lo <= n == s@.len(),
            trim_start(s@) == trim_start(s@.subrange(lo as int, n as int)),
        decreases n - lo,
    {
        assert(s@.subrange(lo as int, n as int).drop_first() == s@.subrange(lo + 1, n as int));
        lo += 1;
    }
    let mut hi: usize = n;
    while hi > lo && char_is_whitespace(s[hi - 1])
        invariant
            lo <= hi <= n == s@.len(),
            trim_start(s@) == s@.subrange(lo as int, n as int),
            trim(s@) == trim_end(s@.subrange(lo as int, hi as int)),
        decreases hi - lo,
    {
        assert(s@.subrange(lo as int, hi as int).drop_last() == s@.subrange(lo as int, hi - 1));
        hi -= 1;
    }
    slice_subrange(s, lo, hi)
}

/// Removes every trailing `c` from `s`.
pub fn trim_end_char_slice<'a>(s: &'a [char], c: char) -> (r: &'a [char])
    ensures
        r@ == trim_end_char(s@, c),
{
    let mut hi: usize = s.len();
    assert(s@.subrange(0, hi as int) == s@);
    while hi > 0 && s[hi - 1] == c
        invariant
            hi <= s@.len(),
            trim_end_char(s@, c) == trim_end_char(s@.subrange(0, hi as int), c),
        decreases hi,
    {
        assert(s@.subrange(0, hi as int).drop_last() == s@.subrange(0, hi - 1));
        hi -= 1;
    }
    slice_subrange(s, 0, hi)
}

/// Whether `s` begins with `p`.
pub fn starts_with(s: &[char], p: &[char]) -> (r: bool)
    ensures
        r == p@.is_prefix_of(s@),
{
    if p.len() > s.len() {
        return false;
    }
    let mut i: usize = 0;
    while i < p.len()
        invariant
            i <= p@.len() <= s@.len(),
            forall|j: int| 0 <= j < i ==> s@[j] == p@[j],
        decreases p@.len() - i,
    {
        if s[i] != p[i] {
            assert(s@.subrange(0, p@.len() as int)[i as int] != p@[i as int]);
            return false;
        }
        i += 1;
    }
    assert(s@.subrange(0, p@.len() as int) =~= p@);
    true
}

/// Whether `s` begins with `p` when ASCII letter case is ignored.
pub fn starts_with_ignoring_case(s: &[char], p: &[char]) -> (r: bool)
    ensures
        r == has_prefix_ignoring_case(s@, p@),
{
    if p.len() > s.len() {
        return false;
    }
    let mut i: usize = 0;
    while i < p.len()
        invariant
            i <= p@.len() <= s@.len(),
            forall|j: int| 0 <= j < i ==> folds_to(#[trigger] s@[j], p@[j]),
        decreases p@.len() - i,
    {
        if !char_folds_to(s[i], p[i]) {
            return false;
        }
        i += 1;
    }
    true
}

/// Index of the first occurrence of `p` in `s` at or after `from`.
pub fn find(s: &[char], p: &[char], from: usize) -> (r: Option<usize>)
    ensures
        match r {
            Some(i) => {
                &&& find_from(s@, p@, from as int) == Some(i as int)
                &&& from <= i
                &&& i + p@.len() <= s@.len()
            },
            None => find_from(s@, p@, from as int) is None,
        },
{
    proof {
        lemma_find_from_is_first(s@, p@, from as int);
    }
    if p.len() > s.len() {
        return None;
    }
    let last: usize = s.len() - p.len();
    let mut i: usize = from;
    while i <= last
        invariant
            from <= i,
            last == s@.len() - p@.len(),
            find_from(s@, p@, from as int) == find_from(s@, p@, i as int),
        decreases last + 1 - i,
    {
        if starts_with(slice_subrange(s, i, s.len()), p) {
            assert(s@.subrange(i as int, s@.len() as int).subrange(0, p@.len() as int)
                == s@.subrange(i as int, i + p@.len()));
            return Some(i);
        }
        assert(s@.subrange(i as int, s@.len() as int).subrange(0, p@.len() as int) == s@.subrange(
            i as int,
            i + p@.len(),
        ));
        i += 1;
    }
    None
}

/// Whether `p` occurs somewhere in `s`.
pub fn contains(s: &[char], p: &[char]) -> (r: bool)
    ensures
        r == contains_text(s@, p@),
{
    find(s, p, 0).is_some()
}

/// The decimal digits of `n`.
pub fn decimal_digits(n: u16) -> (v: Vec<char>)
    ensures
        v@ == decimal(n as nat),
    decreases n,
{
    if n < 10 {
        let d: u8 = n as u8;
        let c: char = (48u8 + d) as char;
        vec![c]
    } else {
        let mut v = decimal_digits(n / 10);
        let d: u8 = (n % 10) as u8;
        let c: char = (48u8 + d) as char;
        v.push(c);
        v
    }
}

/// Appends the characters of `tail` to `v`.
pub fn push_all(v: &mut Vec<char>, tail: &[char])
    ensures
        final(v)@ == old(v)@ + tail@,
{
    let mut i: usize = 0;
    while i < tail.len()
        invariant
            i <= tail@.len(),
            v@ == old(v)@ + tail@.take(i as int),
        decreases tail@.len() - i,
    {
        v.push(tail[i]);
        assert(tail@.take(i + 1) == tail@.take(i as int).push(tail@[i as int]));
        i += 1;
    }
    assert(tail@.take(tail@.len() as int) == tail@);
}

/// `String::from_iter` on a slice of characters: the string holds exactly
/// these characters, in order.
#[verifier::external_body]
pub(crate) fn string_of(chars: &[char]) -> (s: String)
    ensures
        s@ == chars@,
{
    String::from_iter(chars)
}

} // verus!
