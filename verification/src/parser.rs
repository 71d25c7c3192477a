//! The crawl of one site: from its base URL over `robots.txt` to the
//! sitemaps, as a state machine that a transport drives.

use crate::batch::{SiteBatch, SiteBatchView};
use crate::error::SitemapError;
use crate::robots::{parse_robots_txt, robots_sitemaps};
use crate::text::{chars_of, string_of, trim_end_char, trim_end_char_slice};
use crate::traversal::{
    decoded_fetches, first_few, lemma_advanced, lemma_scheduled_all, saturated, take_first_few,
    TaskView, Traversal, TraversalView,
};
use crate::url_set::{texts, UrlSet};
use crate::urls::{normalize_url, normalized, origin_of, sitemap_origin};
use vstd::prelude::*;
use vstd::string::StringExecFns;

verus! {

/// What the crawl of one site gave.
pub struct ParsedSiteResult {
    /// The site as it was asked for.
    pub base_url: String,
    /// The content URLs that the site's sitemaps list.
    pub urls: UrlSet,
    /// The sitemaps that were considered, in order.
    pub sitemaps_found: Vec<String>,
    /// What went wrong on the way, in order.
    pub errors: Vec<String>,
    /// The number of fetches that were attempted.
    pub total_requests: usize,
    /// How long the crawl took, in microseconds.
    pub parse_time_micros: u64,
}

/// Mathematical model of [`ParsedSiteResult`].
pub struct SiteResultView {
    pub base_url: Seq<char>,
    pub urls: Seq<Seq<char>>,
    pub sitemaps_found: Seq<Seq<char>>,
    pub errors: Seq<Seq<char>>,
    pub total_requests: usize,
    pub parse_time_micros: u64,
}

impl SiteResultView {
    /// The result with which the crawl of `base_url` starts.
    pub open spec fn empty(base_url: Seq<char>) -> SiteResultView {
        SiteResultView {
            base_url,
            urls: Seq::empty(),
            sitemaps_found: Seq::empty(),
            errors: Seq::empty(),
            total_requests: 0,
            parse_time_micros: 0,
        }
    }

    /// The result for a site whose crawl could not even start.
    pub open spec fn failed(base_url: Seq<char>, message: Seq<char>) -> SiteResultView {
        SiteResultView {
            errors: seq!["Failed to parse "@ + base_url + ": "@ + message],
            ..SiteResultView::empty(base_url)
        }
    }
}

impl View for ParsedSiteResult {
    type V = SiteResultView;

    open spec fn view(&self) -> SiteResultView {
        SiteResultView {
            base_url: self.base_url@,
            urls: self.urls@,
            sitemaps_found: texts(self.sitemaps_found@),
            errors: texts(self.errors@),
            total_requests: self.total_requests,
            parse_time_micros: self.parse_time_micros,
        }
    }
}

impl ParsedSiteResult {
    /// The result with which the crawl of `base_url` starts: nothing found,
    /// nothing fetched, nothing gone wrong.
    pub fn new(base_url: String) -> (r: ParsedSiteResult)
        ensures
            r@ == SiteResultView::empty(base_url@),
    {
        let r = ParsedSiteResult {
            base_url,
            urls: UrlSet::new(),
            sitemaps_found: Vec::new(),
            errors: Vec::new(),
            total_requests: 0,
            parse_time_micros: 0,
        };
        assert(texts(r.sitemaps_found@) =~= Seq::<Seq<char>>::empty());
        assert(texts(r.errors@) =~= Seq::<Seq<char>>::empty());
        r
    }

    /// The result for a site whose crawl could not even start: it holds
    /// the failure as its one error.
    pub fn failed(base_url: String, error: &SitemapError) -> (r: ParsedSiteResult)
        ensures
            r@ == SiteResultView::failed(base_url@, error.text()),
    {
        let mut entry = String::from_str("Failed to parse ");
        entry.append(base_url.as_str());
        entry.append(": ");
        entry.append(error.message().as_str());
        let mut r = ParsedSiteResult::new(base_url);
        r.errors.push(entry);
        assert(texts(r.errors@) =~= seq![entry@]);
        r
    }
}

/// `normalized_url` without trailing slashes, the stem of the well-known
/// paths.
pub open spec fn site_root(normalized_url: Seq<char>) -> Seq<char> {
    trim_end_char(normalized_url, '/')
}

/// Where the `robots.txt` of a site is.
pub open spec fn robots_url(normalized_url: Seq<char>) -> Seq<char> {
    site_root(normalized_url) + "/robots.txt"@
}

/// The well-known places of a sitemap, tried where `robots.txt` names
/// none.
pub open spec fn fallback_sitemaps(normalized_url: Seq<char>) -> Seq<Seq<char>> {
    seq![
        site_root(normalized_url) + "/sitemap.xml"@,
        site_root(normalized_url) + "/sitemap_index.xml"@,
        site_root(normalized_url) + "/sitemaps.xml"@,
    ]
}

/// The sitemaps to consider for a site, given those that its `robots.txt`
/// advertises: these or, where there is none, the well-known places.
pub open spec fn candidate_sitemaps(advertised: Seq<Seq<char>>, normalized_url: Seq<char>) -> Seq<
    Seq<char>,
> {
    if advertised.len() == 0 {
        fallback_sitemaps(normalized_url)
    } else {
        advertised
    }
}

/// The entry that the error list gets where `robots.txt` could not be
/// fetched.
pub open spec fn robots_failure_entry(normalized_url: Seq<char>, message: Seq<char>) -> Seq<char> {
    "Could not fetch robots.txt from "@ + robots_url(normalized_url) + ": "@ + message
}

/// The bounds of a crawl.
#[derive(Debug, Clone, Copy)]
pub struct RustSitemapParser {
    /// How many sites are crawled at the same time.
    pub max_concurrent: usize,
    /// How many of a site's candidate sitemaps are fetched.
    pub max_sitemaps: usize,
    /// How many levels of sitemaps are fetched.
    pub max_depth: usize,
    /// How many of the sitemaps that one document refers to are followed.
    pub max_nested_per_level: usize,
    /// After how many seconds a request is given up.
    pub request_timeout_seconds: u64,
}

/// Mathematical model of a [`SiteCrawl`].
pub struct SiteCrawlView {
    /// The site as it was asked for.
    pub base_url: Seq<char>,
    /// The site's URL in normal form.
    pub normalized_url: Seq<char>,
    /// How many of the candidate sitemaps are fetched.
    pub max_sitemaps: nat,
    /// How many levels of sitemaps are fetched.
    pub max_depth: nat,
    /// Whether `robots.txt` is still to come.
    pub awaiting_robots: bool,
    /// The candidate sitemaps.
    pub sitemaps_found: Seq<Seq<char>>,
    /// The error entry for `robots.txt`, where its fetch failed.
    pub robots_failure: Option<Seq<char>>,
    /// The traversal of the sitemaps.
    pub traversal: TraversalView,
}

impl SiteCrawlView {
    /// The crawl before anything was fetched: `robots.txt` is asked for.
    pub open spec fn started(
        base_url: Seq<char>,
        normalized_url: Seq<char>,
        max_sitemaps: nat,
        max_depth: nat,
        max_nested_per_level: nat,
    ) -> SiteCrawlView {
        SiteCrawlView {
            base_url,
            normalized_url,
            max_sitemaps,
            max_depth,
            awaiting_robots: true,
            sitemaps_found: Seq::empty(),
            robots_failure: None,
            traversal: TraversalView::initial(max_nested_per_level),
        }
    }

    /// The URLs to fetch now.
    pub open spec fn requests(self) -> Seq<Seq<char>> {
        if self.awaiting_robots {
            seq![robots_url(self.normalized_url)]
        } else {
            Seq::new(self.traversal.pending.len(), |i: int| self.traversal.pending[i].url)
        }
    }

    /// Whether the crawl is over.
    pub open spec fn is_finished(self) -> bool {
        !self.awaiting_robots && self.traversal.is_finished()
    }

    /// The crawl after the fetch of `robots.txt` failed: it is over, with
    /// that failure as its one error.
    pub open spec fn with_robots_failure(self, message: Seq<char>) -> SiteCrawlView {
        SiteCrawlView {
            awaiting_robots: false,
            robots_failure: Some(robots_failure_entry(self.normalized_url, message)),
            ..self
        }
    }

    /// The crawl after `robots.txt` came and advertised these sitemaps: the
    /// candidate sitemaps are recorded and the first `max_sitemaps` of them
    /// are scheduled with the full depth.
    pub open spec fn with_directives(self, advertised: Seq<Seq<char>>) -> SiteCrawlView {
        let found = candidate_sitemaps(advertised, self.normalized_url);
        SiteCrawlView {
            awaiting_robots: false,
            sitemaps_found: found,
            traversal: self.traversal.scheduled_all(
                first_few(found, self.max_sitemaps),
                self.normalized_url,
                self.max_depth,
            ),
            ..self
        }
    }

    /// The crawl after the fetch of `robots.txt`.
    pub open spec fn after_robots(self, fetched: Result<String, SitemapError>) -> SiteCrawlView {
        match fetched {
            Err(e) => self.with_robots_failure(e.text()),
            Ok(robots) => self.with_directives(robots_sitemaps(robots@, self.normalized_url)),
        }
    }

    /// The crawl after what was asked for came back, one result for each
    /// request and in their order.
    pub open spec fn advanced(self, fetched: Seq<Result<String, SitemapError>>) -> SiteCrawlView {
        if self.awaiting_robots {
            self.after_robots(fetched[0])
        } else {
            SiteCrawlView {
                traversal: self.traversal.advanced(
                    decoded_fetches(self.traversal.pending, fetched),
                ),
                ..self
            }
        }
    }

    /// The errors of the crawl so far.
    pub open spec fn errors(self) -> Seq<Seq<char>> {
        match self.robots_failure {
            Some(entry) => seq![entry] + self.traversal.errors,
            None => self.traversal.errors,
        }
    }

    /// The number of fetches attempted so far: the one for `robots.txt`
    /// and those of the traversal.
    pub open spec fn total_requests(self) -> usize {
        saturated(self.traversal.requests + 1)
    }

    /// What the crawl has given so far.
    pub open spec fn result(self, elapsed_micros: u64) -> SiteResultView {
        SiteResultView {
            base_url: self.base_url,
            urls: self.traversal.urls,
            sitemaps_found: self.sitemaps_found,
            errors: self.errors(),
            total_requests: self.total_requests(),
            parse_time_micros: elapsed_micros,
        }
    }
}

/// The crawl of one site, between two rounds of fetches.
///
/// The crawl keeps no record of the sitemaps it has fetched: a sitemap that
/// is referred to from several places is fetched for each of them. What
/// keeps the crawl finite, also on sitemaps that refer to each other in a
/// circle, are the bounds on depth and breadth.
pub struct SiteCrawl {
    base_url: String,
    normalized_url: String,
    max_sitemaps: usize,
    max_depth: usize,
    awaiting_robots: bool,
    sitemaps_found: Vec<String>,
    robots_failure: Option<String>,
    traversal: Traversal,
}

impl View for SiteCrawl {
    type V = SiteCrawlView;

    closed spec fn view(&self) -> SiteCrawlView {
        SiteCrawlView {
            base_url: self.base_url@,
            normalized_url: self.normalized_url@,
            max_sitemaps: self.max_sitemaps as nat,
            max_depth: self.max_depth as nat,
            awaiting_robots: self.awaiting_robots,
            sitemaps_found: texts(self.sitemaps_found@),
            robots_failure: match self.robots_failure {
                Some(entry) => Some(entry@),
                None => None,
            },
            traversal: self.traversal@,
        }
    }
}

/// `normalized_url` without trailing slashes, followed by `path`.
fn well_known(normalized_url: &str, path: &str) -> (r: String)
    ensures
        r@ == site_root(normalized_url@) + path@,
{
    let chars = chars_of(normalized_url);
    let mut r = string_of(trim_end_char_slice(chars.as_slice(), '/'));
    r.append(path);
    r
}

impl SiteCrawl {
    /// The URLs to fetch now. All of them may be fetched at once; the
    /// results go to [`SiteCrawl::advance`] in this order.
    pub fn requests(&self) -> (urls: Vec<String>)
        ensures
            texts(urls@) == self@.requests(),
    {
        let mut urls: Vec<String> = Vec::new();
        if self.awaiting_robots {
            let robots = well_known(self.normalized_url.as_str(), "/robots.txt");
            urls.push(robots);
            assert(texts(urls@) =~= self@.requests());
        } else {
            let tasks = self.traversal.pending();
            let mut i: usize = 0;
            while i < tasks.len()
                invariant
                    i <= tasks@.len(),
                    urls@.len() == i,
                    forall|j: int| 0 <= j < i ==> (#[trigger] urls@[j])@ == tasks@[j].url@,
                decreases tasks@.len() - i,
            {
                urls.push(tasks[i].url.clone());
                i += 1;
            }
            assert(texts(urls@) =~= self@.requests());
        }
        urls
    }

    /// Whether the crawl is over: nothing is left to fetch.
    pub fn is_finished(&self) -> (r: bool)
        ensures
            r == self@.is_finished(),
    {
        !self.awaiting_robots && self.traversal.is_finished()
    }

    /// Takes the failure of the fetch of `robots.txt`, which ends the
    /// crawl. Says whether it did: where `robots.txt` is not awaited
    /// nothing changes.
    pub fn fail_robots(&mut self, error: &SitemapError) -> (done: bool)
        ensures
            done == old(self)@.awaiting_robots,
            done ==> final(self)@ == old(self)@.with_robots_failure(error.text()),
            !done ==> final(self)@ == old(self)@,
    {
        if !self.awaiting_robots {
            return false;
        }
        let mut entry = String::from_str("Could not fetch robots.txt from ");
        entry.append(well_known(self.normalized_url.as_str(), "/robots.txt").as_str());
        entry.append(": ");
        entry.append(error.message().as_str());
        self.robots_failure = Some(entry);
        self.awaiting_robots = false;
        true
    }

    /// Takes the sitemaps that `robots.txt` advertises and schedules the
    /// first `max_sitemaps` of them or, where it advertises none, of the
    /// well-known places. Says whether it did: where `robots.txt` is not
    /// awaited nothing changes.
    pub fn take_directives(&mut self, advertised: Vec<String>) -> (done: bool)
        ensures
            done == old(self)@.awaiting_robots,
            done ==> final(self)@ == old(self)@.with_directives(texts(advertised@)),
            !done ==> final(self)@ == old(self)@,
    {
        if !self.awaiting_robots {
            return false;
        }
        if advertised.len() == 0 {
            let mut found: Vec<String> = Vec::new();
            found.push(well_known(self.normalized_url.as_str(), "/sitemap.xml"));
            found.push(well_known(self.normalized_url.as_str(), "/sitemap_index.xml"));
            found.push(well_known(self.normalized_url.as_str(), "/sitemaps.xml"));
            assert(texts(found@) =~= fallback_sitemaps(self.normalized_url@));
            self.sitemaps_found = found;
        } else {
            self.sitemaps_found = advertised;
        }
        let limited = take_first_few(&self.sitemaps_found, self.max_sitemaps);
        self.traversal.schedule_all(&limited, self.normalized_url.as_str(), self.max_depth);
        self.awaiting_robots = false;
        true
    }

    /// Takes the result of the fetch of `robots.txt`.
    fn take_robots(&mut self, fetched: &Result<String, SitemapError>)
        requires
            old(self)@.awaiting_robots,
        ensures
            final(self)@ == old(self)@.after_robots(*fetched),
    {
        match fetched {
            Err(e) => {
                self.fail_robots(e);
            },
            Ok(robots) => {
                let advertised = parse_robots_txt(robots.as_str(), self.normalized_url.as_str());
                self.take_directives(advertised);
            },
        }
    }

    /// Takes what the fetches of [`SiteCrawl::requests`] gave, one result
    /// for each request and in their order: the text that came, or the
    /// failure. Says whether it did: where the number of results is not the
    /// number of requests nothing changes.
    pub fn advance(&mut self, fetched: &Vec<Result<String, SitemapError>>) -> (done: bool)
        ensures
            done == (fetched@.len() == old(self)@.requests().len()),
            done ==> final(self)@ == old(self)@.advanced(fetched@),
            !done ==> final(self)@ == old(self)@,
    {
        if self.awaiting_robots {
            if fetched.len() != 1 {
                return false;
            }
            self.take_robots(&fetched[0]);
            true
        } else {
            self.traversal.advance(fetched)
        }
    }

    /// Ends the crawl and hands out its result, with the time it took.
    pub fn into_result(self, elapsed_micros: u64) -> (r: ParsedSiteResult)
        ensures
            r@ == self@.result(elapsed_micros),
    {
        let ghost view = self@;
        let (urls, traversal_errors, requests) = self.traversal.into_parts();
        let mut errors: Vec<String> = Vec::new();
        match self.robots_failure {
            Some(entry) => {
                errors.push(entry);
                assert(texts(errors@) =~= seq![entry@]);
            },
            None => {
                assert(texts(errors@) =~= Seq::<Seq<char>>::empty());
            },
        }
        let ghost head = texts(errors@);
        let mut i: usize = 0;
        assert(head + texts(traversal_errors@).take(0) =~= head);
        while i < traversal_errors.len()
            invariant
                i <= traversal_errors@.len(),
                texts(errors@) == head + texts(traversal_errors@).take(i as int),
            decreases traversal_errors@.len() - i,
        {
            let ghost before = texts(errors@);
            errors.push(traversal_errors[i].clone());
            assert(texts(errors@) =~= before.push(traversal_errors@[i as int]@));
            assert(before.push(traversal_errors@[i as int]@) =~= head + texts(
                traversal_errors@,
            ).take(i + 1));
            i += 1;
        }
        assert(texts(traversal_errors@).take(i as int) == texts(traversal_errors@));
        assert(Seq::<Seq<char>>::empty() + texts(traversal_errors@) =~= texts(traversal_errors@));
        ParsedSiteResult {
            base_url: self.base_url,
            urls,
            sitemaps_found: self.sitemaps_found,
            errors,
            total_requests: requests.saturating_add(1),
            parse_time_micros: elapsed_micros,
        }
    }
}

impl Default for RustSitemapParser {
    /// Ten sites at a time, ten sitemaps for a site, two levels, five
    /// nested sitemaps for each document, thirty seconds for a request.
    fn default() -> (p: RustSitemapParser)
        ensures
            p.max_concurrent == 10,
            p.max_sitemaps == 10,
            p.max_depth == 2,
            p.max_nested_per_level == 5,
            p.request_timeout_seconds == 30,
    {
        RustSitemapParser::new(10, 10, 2, 5, 30)
    }
}

impl RustSitemapParser {
    /// The bounds of a crawl.
    pub fn new(
        max_concurrent: usize,
        max_sitemaps: usize,
        max_depth: usize,
        max_nested_per_level: usize,
        request_timeout_seconds: u64,
    ) -> (p: RustSitemapParser)
        ensures
            p.max_concurrent == max_concurrent,
            p.max_sitemaps == max_sitemaps,
            p.max_depth == max_depth,
            p.max_nested_per_level == max_nested_per_level,
            p.request_timeout_seconds == request_timeout_seconds,
    {
        RustSitemapParser {
            max_concurrent,
            max_sitemaps,
            max_depth,
            max_nested_per_level,
            request_timeout_seconds,
        }
    }

    /// Starts the crawl of a site: brings `base_url` into normal form and
    /// asks for the site's `robots.txt`. Fails with
    /// [`SitemapError::InvalidUrl`] exactly where `base_url` has no normal
    /// form.
    pub fn parse_site(&self, base_url: &str) -> (r: Result<SiteCrawl, SitemapError>)
        ensures
            match r {
                Ok(crawl) => {
                    &&& normalized(base_url@) is Ok
                    &&& crawl@ == SiteCrawlView::started(
                        base_url@,
                        normalized(base_url@)->Ok_0,
                        self.max_sitemaps as nat,
                        self.max_depth as nat,
                        self.max_nested_per_level as nat,
                    )
                },
                Err(e) => e is InvalidUrl && normalized(base_url@) == Err::<Seq<char>, Seq<char>>(
                    e.text(),
                ),
            },
    {
        match normalize_url(base_url) {
            Ok(normalized_url) => {
                let crawl = SiteCrawl {
                    base_url: String::from_str(base_url),
                    normalized_url,
                    max_sitemaps: self.max_sitemaps,
                    max_depth: self.max_depth,
                    awaiting_robots: true,
                    sitemaps_found: Vec::new(),
                    robots_failure: None,
                    traversal: Traversal::new(self.max_nested_per_level),
                };
                assert(texts(crawl.sitemaps_found@) =~= Seq::<Seq<char>>::empty());
                Ok(crawl)
            },
            Err(e) => Err(e),
        }
    }

    /// Starts the traversal of the given sitemaps, without any discovery.
    /// Each is read against its own origin and with a depth of one, so the
    /// sitemaps that it refers to are not followed.
    pub fn parse_specific_sitemaps(&self, sitemap_urls: Vec<String>) -> (t: Traversal)
        ensures
            t@ == direct_traversal(
                TraversalView::initial(self.max_nested_per_level as nat),
                texts(sitemap_urls@),
            ),
    {
        let mut traversal = Traversal::new(self.max_nested_per_level);
        let mut i: usize = 0;
        assert(texts(sitemap_urls@).skip(0) == texts(sitemap_urls@));
        while i < sitemap_urls.len()
            invariant
                i <= sitemap_urls@.len(),
                direct_traversal(traversal@, texts(sitemap_urls@).skip(i as int))
                    == direct_traversal(
                    TraversalView::initial(self.max_nested_per_level as nat),
                    texts(sitemap_urls@),
                ),
            decreases sitemap_urls@.len() - i,
        {
            assert(texts(sitemap_urls@).skip(i as int)[0] == sitemap_urls@[i as int]@);
            assert(texts(sitemap_urls@).skip(i as int).drop_first() == texts(sitemap_urls@).skip(
                i + 1,
            ));
            let origin = sitemap_origin(sitemap_urls[i].as_str());
            traversal.schedule(sitemap_urls[i].clone(), origin, 1);
            i += 1;
        }
        traversal
    }

    /// Starts the crawl of several sites, of which at most
    /// `max_concurrent` run at the same time.
    pub fn parse_multiple_sites(&self, base_urls: Vec<String>) -> (batch: SiteBatch)
        ensures
            batch@ == SiteBatchView::initial(texts(base_urls@), self.max_concurrent as nat),
    {
        SiteBatch::new(base_urls, self.max_concurrent)
    }
}

/// The traversal `t` with each of `urls` scheduled against its own origin,
/// one level deep.
pub open spec fn direct_traversal(t: TraversalView, urls: Seq<Seq<char>>) -> TraversalView
    decreases urls.len(),
{
    if urls.len() == 0 {
        t
    } else {
        direct_traversal(t.scheduled(urls[0], origin_of(urls[0]), 1), urls.drop_first())
    }
}

/// A crawl starts with exactly one request, the one for `robots.txt`, and
/// has counted it.
pub proof fn lemma_crawl_starts_with_robots(
    base_url: Seq<char>,
    normalized_url: Seq<char>,
    max_sitemaps: nat,
    max_depth: nat,
    max_nested_per_level: nat,
)
    ensures
        ({
            let crawl = SiteCrawlView::started(
                base_url,
                normalized_url,
                max_sitemaps,
                max_depth,
                max_nested_per_level,
            );
            &&& crawl.requests() == seq![robots_url(normalized_url)]
            &&& crawl.total_requests() == 1
            &&& !crawl.is_finished()
            &&& crawl.result(0).urls.len() == 0
            &&& crawl.result(0).errors.len() == 0
        }),
{
}

/// Where `robots.txt` cannot be fetched the crawl is over: that failure is
/// its one error, and the attempt its one request.
pub proof fn lemma_robots_failure_ends_crawl(crawl: SiteCrawlView, error: SitemapError)
    requires
        crawl.awaiting_robots,
        crawl.robots_failure is None,
        crawl.traversal == TraversalView::initial(crawl.traversal.breadth),
    ensures
        crawl.after_robots(Err(error)).is_finished(),
        crawl.after_robots(Err(error)).errors() == seq![
            robots_failure_entry(crawl.normalized_url, error.text()),
        ],
        crawl.after_robots(Err(error)).total_requests() == 1,
        crawl.after_robots(Err(error)).traversal.urls.len() == 0,
        crawl.after_robots(Err(error)).sitemaps_found == crawl.sitemaps_found,
{
    assert(seq![robots_failure_entry(crawl.normalized_url, error.text())]
        + Seq::<Seq<char>>::empty() =~= seq![
        robots_failure_entry(crawl.normalized_url, error.text()),
    ]);
}

/// Where `robots.txt` came, the candidate sitemaps are recorded, never
/// none of them: without a directive they are the three well-known places.
/// No more than `max_sitemaps` of them are asked for, the first ones, and
/// each of these counts as one request. With a depth of 0 none is asked
/// for: the crawl is over with `robots.txt` as its one request and no URL.
pub proof fn lemma_robots_schedule_sitemaps(crawl: SiteCrawlView, robots: String)
    requires
        crawl.awaiting_robots,
        crawl.robots_failure is None,
        crawl.traversal == TraversalView::initial(crawl.traversal.breadth),
    ensures
        ({
            let next = crawl.after_robots(Ok(robots));
            let advertised = robots_sitemaps(robots@, crawl.normalized_url);
            let found = candidate_sitemaps(advertised, crawl.normalized_url);
            &&& next.sitemaps_found == found
            &&& found.len() > 0
            &&& robots_sitemaps(robots@, crawl.normalized_url).len() == 0 ==> found
                == fallback_sitemaps(crawl.normalized_url)
            &&& next.errors().len() == 0
            &&& next.traversal.urls.len() == 0
            &&& crawl.max_depth == 0 ==> next.is_finished() && next.total_requests() == 1
            &&& crawl.max_depth > 0 ==> {
                &&& next.requests() == first_few(found, crawl.max_sitemaps)
                &&& next.requests().len() <= crawl.max_sitemaps
                &&& next.total_requests() == saturated(next.requests().len() as int + 1)
                &&& forall|i: int|
                    0 <= i < next.traversal.pending.len() ==> {
                        &&& (#[trigger] next.traversal.pending[i]).depth == crawl.max_depth
                        &&& next.traversal.pending[i].base_url == crawl.normalized_url
                    }
            }
        }),
{
    let advertised = robots_sitemaps(robots@, crawl.normalized_url);
    let found = candidate_sitemaps(advertised, crawl.normalized_url);
    let chosen = first_few(found, crawl.max_sitemaps);
    lemma_scheduled_all(crawl.traversal, chosen, crawl.normalized_url, crawl.max_depth);
    let next = crawl.after_robots(Ok(robots));
    if crawl.max_depth > 0 {
        let tasks = Seq::new(
            chosen.len(),
            |i: int|
                TaskView {
                    url: chosen[i],
                    base_url: crawl.normalized_url,
                    depth: crawl.max_depth,
                    guarded: false,
                },
        );
        assert(next.traversal.pending =~= tasks);
        assert(next.requests() =~= chosen);
    }
}

impl SiteCrawlView {
    /// The crawl after several rounds of fetches, one after the other.
    pub open spec fn advanced_through(
        self,
        rounds: Seq<Seq<Result<String, SitemapError>>>,
    ) -> SiteCrawlView
        decreases rounds.len(),
    {
        if rounds.len() == 0 {
            self
        } else {
            self.advanced(rounds[0]).advanced_through(rounds.drop_first())
        }
    }
}

/// Once `robots.txt` is in, a crawl whose pending sitemaps have some
/// depth, `depth` at most, is over after `depth` rounds.
pub proof fn lemma_sitemaps_end_within_depth(
    crawl: SiteCrawlView,
    rounds: Seq<Seq<Result<String, SitemapError>>>,
    depth: nat,
)
    requires
        !crawl.awaiting_robots,
        forall|i: int|
            0 <= i < crawl.traversal.pending.len() ==> 1 <= (
            #[trigger] crawl.traversal.pending[i]).depth <= depth,
        rounds.len() >= depth,
    ensures
        crawl.advanced_through(rounds).is_finished(),
    decreases rounds.len(),
{
    if rounds.len() == 0 {
        if crawl.traversal.pending.len() > 0 {
            assert(1 <= crawl.traversal.pending[0].depth <= depth);
        }
    } else {
        let outcomes = decoded_fetches(crawl.traversal.pending, rounds[0]);
        let next = crawl.advanced(rounds[0]);
        lemma_advanced(crawl.traversal, outcomes, depth);
        if depth == 0 {
            if next.traversal.pending.len() > 0 {
                assert(1 <= next.traversal.pending[0].depth < depth);
            }
            lemma_sitemaps_end_within_depth(next, rounds.drop_first(), 0);
        } else {
            assert forall|i: int| 0 <= i < next.traversal.pending.len() implies 1 <= (
            #[trigger] next.traversal.pending[i]).depth <= depth - 1 by {
                assert(1 <= next.traversal.pending[i].depth < depth);
            }
            lemma_sitemaps_end_within_depth(next, rounds.drop_first(), (depth - 1) as nat);
        }
    }
}

/// Every crawl ends: whatever the fetches give, also sitemaps that refer
/// to each other in a circle, a crawl is over after the round for
/// `robots.txt` and `max_depth` rounds for sitemaps.
pub proof fn lemma_crawl_ends(
    base_url: Seq<char>,
    normalized_url: Seq<char>,
    max_sitemaps: nat,
    max_depth: nat,
    max_nested_per_level: nat,
    rounds: Seq<Seq<Result<String, SitemapError>>>,
)
    requires
        rounds.len() > max_depth,
    ensures
        SiteCrawlView::started(
            base_url,
            normalized_url,
            max_sitemaps,
            max_depth,
            max_nested_per_level,
        ).advanced_through(rounds).is_finished(),
{
    let crawl = SiteCrawlView::started(
        base_url,
        normalized_url,
        max_sitemaps,
        max_depth,
        max_nested_per_level,
    );
    let next = crawl.advanced(rounds[0]);
    match rounds[0][0] {
        Ok(robots) => {
            lemma_robots_schedule_sitemaps(crawl, robots);
        },
        Err(error) => {
            lemma_robots_failure_ends_crawl(crawl, error);
        },
    }
    lemma_sitemaps_end_within_depth(next, rounds.drop_first(), max_depth);
}

} // verus!
