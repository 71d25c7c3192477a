//! An insertion-ordered set of URLs.

use vstd::hash_set::StringHashSet;
use vstd::prelude::*;

verus! {

/// `s` with `x` at its end, unless `s` holds it already.
pub open spec fn with_url(s: Seq<Seq<char>>, x: Seq<char>) -> Seq<Seq<char>> {
    if s.contains(x) {
        s
    } else {
        s.push(x)
    }
}

/// `s` with the members of `t` added in turn.
pub open spec fn with_urls(s: Seq<Seq<char>>, t: Seq<Seq<char>>) -> Seq<Seq<char>>
    decreases t.len(),
{
    if t.len() == 0 {
        s
    } else {
        with_urls(with_url(s, t[0]), t.drop_first())
    }
}

/// Adding a URL keeps a sequence free of duplicates, and adds exactly that
/// URL to what it holds.
pub proof fn lemma_with_url(s: Seq<Seq<char>>, x: Seq<char>)
    requires
        s.no_duplicates(),
    ensures
        with_url(s, x).no_duplicates(),
        with_url(s, x).to_set() == s.to_set().insert(x),
{
    let r = with_url(s, x);
    assert forall|a: Seq<char>| r.to_set().contains(a) <==> s.to_set().insert(x).contains(a) by {
        if s.contains(x) {
        } else {
            assert(r.last() == x);
            if r.contains(a) {
                let i = choose|i: int| 0 <= i < r.len() && r[i] == a;
                if i < s.len() {
                    assert(s[i] == a);
                }
            }
            if s.contains(a) {
                let i = choose|i: int| 0 <= i < s.len() && s[i] == a;
                assert(r[i] == a);
            }
            if a == x {
                assert(r[r.len() - 1] == a);
            }
        }
    }
    assert(r.to_set() =~= s.to_set().insert(x));
}

/// Adding URLs keeps what a sequence held in place.
pub proof fn lemma_with_urls_extends(s: Seq<Seq<char>>, t: Seq<Seq<char>>)
    ensures
        s.is_prefix_of(with_urls(s, t)),
    decreases t.len(),
{
    if t.len() > 0 {
        lemma_with_urls_extends(with_url(s, t[0]), t.drop_first());
    }
}

/// Adding URLs keeps a sequence free of duplicates, and leaves it holding
/// exactly the old and the new ones.
pub proof fn lemma_with_urls(s: Seq<Seq<char>>, t: Seq<Seq<char>>)
    requires
        s.no_duplicates(),
    ensures
        with_urls(s, t).no_duplicates(),
        with_urls(s, t).to_set() == s.to_set().union(t.to_set()),
    decreases t.len(),
{
    if t.len() == 0 {
        assert(s.to_set().union(t.to_set()) =~= s.to_set());
    } else {
        let s1 = with_url(s, t[0]);
        lemma_with_url(s, t[0]);
        lemma_with_urls(s1, t.drop_first());
        let r = with_urls(s, t);
        assert forall|a: Seq<char>| r.to_set().contains(a) <==> s.to_set().union(
            t.to_set(),
        ).contains(a) by {
            if t.contains(a) {
                let i = choose|i: int| 0 <= i < t.len() && t[i] == a;
                if i > 0 {
                    assert(t.drop_first()[i - 1] == a);
                }
            }
            if t.drop_first().contains(a) {
                let i = choose|i: int| 0 <= i < t.drop_first().len() && t.drop_first()[i] == a;
                assert(t[i + 1] == a);
            }
        }
        assert(r.to_set() =~= s.to_set().union(t.to_set()));
    }
}

/// Adding to the empty sequence URLs that are all different gives just
/// them.
pub proof fn lemma_with_distinct_urls(s: Seq<Seq<char>>, t: Seq<Seq<char>>)
    requires
        (s + t).no_duplicates(),
    ensures
        with_urls(s, t) == s + t,
    decreases t.len(),
{
    if t.len() == 0 {
        assert(s + t =~= s);
    } else {
        assert((s + t)[s.len() as int] == t[0]);
        if s.contains(t[0]) {
            let i = choose|i: int| 0 <= i < s.len() && s[i] == t[0];
            assert((s + t)[i] == t[0]);
        }
        assert(s.push(t[0]) + t.drop_first() =~= s + t);
        lemma_with_distinct_urls(s.push(t[0]), t.drop_first());
    }
}

/// The texts of a run of strings.
pub open spec fn texts(v: Seq<String>) -> Seq<Seq<char>> {
    Seq::new(v.len(), |i: int| v[i]@)
}

/// A set of URLs that remembers the order in which they first came.
pub struct UrlSet {
    items: Vec<String>,
    index: StringHashSet,
}

impl View for UrlSet {
    type V = Seq<Seq<char>>;

    /// The URLs in the order of their first insertion.
    closed spec fn view(&self) -> Seq<Seq<char>> {
        texts(self.items@)
    }
}

impl UrlSet {
    #[verifier::type_invariant]
    spec fn well_formed(self) -> bool {
        &&& texts(self.items@).no_duplicates()
        &&& self.index@ == texts(self.items@).to_set()
    }

    /// The empty set.
    pub fn new() -> (s: UrlSet)
        ensures
            s@ == Seq::<Seq<char>>::empty(),
    {
        let items: Vec<String> = Vec::new();
        let index = StringHashSet::new();
        assert(texts(items@) =~= Seq::<Seq<char>>::empty());
        assert(index@ =~= texts(items@).to_set());
        UrlSet { items, index }
    }

    /// The number of URLs; no URL is counted twice.
    pub fn len(&self) -> (n: usize)
        ensures
            n == self@.len(),
            self@.no_duplicates(),
    {
        proof {
            use_type_invariant(self);
        }
        self.items.len()
    }

    /// Whether the set holds nothing.
    pub fn is_empty(&self) -> (r: bool)
        ensures
            r == (self@.len() == 0),
    {
        self.items.len() == 0
    }

    /// Whether the set holds `url`.
    pub fn contains(&self, url: &str) -> (r: bool)
        ensures
            r == self@.contains(url@),
    {
        proof {
            use_type_invariant(self);
        }
        self.index.contains(url)
    }

    /// Adds `url` unless it is there already; says whether it was added.
    pub fn insert(&mut self, url: String) -> (added: bool)
        ensures
            final(self)@ == with_url(old(self)@, url@),
            added == !old(self)@.contains(url@),
    {
        proof {
            use_type_invariant(&*self);
            lemma_with_url(self@, url@);
        }
        if self.index.contains(url.as_str()) {
            false
        } else {
            let mut taken = UrlSet::new();
            core::mem::swap(self, &mut taken);
            let UrlSet { mut items, mut index } = taken;
            let ghost before = items@;
            index.insert(url.clone());
            items.push(url);
            assert(texts(items@) =~= texts(before).push(url@));
            *self = UrlSet { items, index };
            true
        }
    }

    /// Adds every URL of `other`, in its order.
    pub fn extend(&mut self, other: &UrlSet)
        ensures
            final(self)@ == with_urls(old(self)@, other@),
    {
        let mut i: usize = 0;
        assert(other@.skip(0) == other@);
        while i < other.items.len()
            invariant
                i <= other@.len(),
                other@.len() == other.items@.len(),
                with_urls(self@, other@.skip(i as int)) == with_urls(old(self)@, other@),
            decreases other@.len() - i,
        {
            let url = other.items[i].clone();
            assert(other@.skip(i as int)[0] == url@);
            assert(other@.skip(i as int).drop_first() == other@.skip(i + 1));
            self.insert(url);
            i += 1;
        }
    }

    /// The URLs in the order of their first insertion.
    pub fn to_vec(&self) -> (v: Vec<String>)
        ensures
            texts(v@) == self@,
            self@.no_duplicates(),
    {
        proof {
            use_type_invariant(self);
        }
        let mut v: Vec<String> = Vec::new();
        let mut i: usize = 0;
        while i < self.items.len()
            invariant
                i <= self.items@.len(),
                v@.len() == i,
                forall|j: int| 0 <= j < i ==> (#[trigger] v@[j])@ == self.items@[j]@,
            decreases self.items@.len() - i,
        {
            v.push(self.items[i].clone());
            i += 1;
        }
        assert(texts(v@) =~= texts(self.items@));
        v
    }
}

} // verus!
