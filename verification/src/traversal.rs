//! The traversal engine: which sitemaps to fetch next, and what the fetched
//! ones add up to.
//!
//! The engine does no I/O. It hands out a level of sitemaps to fetch, takes
//! what came back for each of them, and from that makes the next level,
//! within the bounds on depth and breadth.

use crate::error::SitemapError;
use crate::sitemap::{decoded, parse_sitemap_xml, Decoded, SitemapParseResult};
use crate::url_set::{lemma_with_urls, lemma_with_urls_extends, texts, with_urls, UrlSet};
use crate::xml::xml_tokens;
use vstd::prelude::*;
use vstd::string::StringExecFns;

verus! {

/// A sitemap that is to be fetched.
#[derive(Debug, Clone)]
pub struct SitemapTask {
    /// Where the sitemap is.
    pub url: String,
    /// The URL against which the references in it are resolved.
    pub base_url: String,
    /// How many levels may still be fetched along this branch, this one
    /// included.
    pub depth: usize,
    /// Whether the sitemaps that this one refers to are held against the
    /// visited set before they are followed.
    pub guarded: bool,
}

/// Mathematical model of [`SitemapTask`].
pub struct TaskView {
    pub url: Seq<char>,
    pub base_url: Seq<char>,
    pub depth: nat,
    pub guarded: bool,
}

impl View for SitemapTask {
    type V = TaskView;

    open spec fn view(&self) -> TaskView {
        TaskView {
            url: self.url@,
            base_url: self.base_url@,
            depth: self.depth as nat,
            guarded: self.guarded,
        }
    }
}

/// The models of a run of tasks.
pub open spec fn task_views(tasks: Seq<SitemapTask>) -> Seq<TaskView> {
    Seq::new(tasks.len(), |i: int| tasks[i]@)
}

/// What came back for one sitemap: its decoded content, or the message of
/// the failure to fetch or to decode it.
pub type Outcome = Result<Decoded, Seq<char>>;

/// The model of what came back for one sitemap.
pub open spec fn outcome_view(outcome: Result<SitemapParseResult, SitemapError>) -> Outcome {
    match outcome {
        Ok(found) => Ok(found@),
        Err(e) => Err(e.text()),
    }
}

/// The models of a run of outcomes.
pub open spec fn outcome_views(outcomes: Seq<Result<SitemapParseResult, SitemapError>>) -> Seq<
    Outcome,
> {
    Seq::new(outcomes.len(), |i: int| outcome_view(outcomes[i]))
}

/// What a fetch gave, decoded: the document read against the task's base,
/// or the failure of the fetch itself.
pub open spec fn decoded_fetch(task: TaskView, fetched: Result<String, SitemapError>) -> Outcome {
    match fetched {
        Ok(body) => decoded(xml_tokens(body@), body@, task.base_url),
        Err(e) => Err(e.text()),
    }
}

/// What a level of fetches gave, decoded, task by task.
pub open spec fn decoded_fetches(
    tasks: Seq<TaskView>,
    fetched: Seq<Result<String, SitemapError>>,
) -> Seq<Outcome> {
    Seq::new(fetched.len(), |i: int| decoded_fetch(tasks[i], fetched[i]))
}

/// A count that stops at the largest `usize` instead of overflowing.
pub open spec fn saturated(n: int) -> usize {
    if n > usize::MAX {
        usize::MAX
    } else if n < 0 {
        0
    } else {
        n as usize
    }
}

/// The entry that the error list gets for a sitemap that failed.
pub open spec fn failure_entry(message: Seq<char>) -> Seq<char> {
    "Error processing sitemap: "@ + message
}

/// The first `limit` members of `nested`, or all of them.
pub open spec fn first_few(nested: Seq<Seq<char>>, limit: nat) -> Seq<Seq<char>> {
    if limit < nested.len() {
        nested.take(limit as int)
    } else {
        nested
    }
}

/// The first `limit` members of `nested` that `visited` does not hold.
pub open spec fn first_few_unvisited(
    nested: Seq<Seq<char>>,
    visited: Seq<Seq<char>>,
    limit: nat,
) -> Seq<Seq<char>>
    decreases nested.len(),
{
    if limit == 0 || nested.len() == 0 {
        Seq::empty()
    } else if visited.contains(nested[0]) {
        first_few_unvisited(nested.drop_first(), visited, limit)
    } else {
        seq![nested[0]] + first_few_unvisited(nested.drop_first(), visited, (limit - 1) as nat)
    }
}

/// The tasks for the sitemaps `urls` that the document of `parent` refers
/// to: one level less to go, same base, not guarded.
pub open spec fn child_tasks(urls: Seq<Seq<char>>, parent: TaskView) -> Seq<TaskView> {
    Seq::new(
        urls.len(),
        |i: int|
            TaskView {
                url: urls[i],
                base_url: parent.base_url,
                depth: (parent.depth - 1) as nat,
                guarded: false,
            },
    )
}

/// Mathematical model of a [`Traversal`].
pub struct TraversalView {
    /// How many of the sitemaps that one document refers to are followed.
    pub breadth: nat,
    /// The sitemaps to fetch now.
    pub pending: Seq<TaskView>,
    /// The content URLs found so far.
    pub urls: Seq<Seq<char>>,
    /// The failures so far.
    pub errors: Seq<Seq<char>>,
    /// The number of fetches handed out so far.
    pub requests: usize,
    /// The sitemap URLs that guarded tasks have been made for or have led
    /// to.
    pub visited: Seq<Seq<char>>,
}

impl TraversalView {
    /// A traversal with nothing to do yet.
    pub open spec fn initial(breadth: nat) -> TraversalView {
        TraversalView {
            breadth,
            pending: Seq::empty(),
            urls: Seq::empty(),
            errors: Seq::empty(),
            requests: 0,
            visited: Seq::empty(),
        }
    }

    /// With one more sitemap to fetch; with no depth left nothing is
    /// added.
    pub open spec fn scheduled(
        self,
        url: Seq<char>,
        base_url: Seq<char>,
        depth: nat,
    ) -> TraversalView {
        if depth == 0 {
            self
        } else {
            TraversalView {
                pending: self.pending.push(TaskView { url, base_url, depth, guarded: false }),
                requests: saturated(self.requests + 1),
                ..self
            }
        }
    }

    /// With one more sitemap to fetch, unless it was visited before; the
    /// sitemaps that it refers to are held against the visited set too.
    pub open spec fn scheduled_once(
        self,
        url: Seq<char>,
        base_url: Seq<char>,
        depth: nat,
    ) -> TraversalView {
        if depth == 0 || self.visited.contains(url) {
            self
        } else {
            TraversalView {
                pending: self.pending.push(TaskView { url, base_url, depth, guarded: true }),
                requests: saturated(self.requests + 1),
                visited: self.visited.push(url),
                ..self
            }
        }
    }

    /// With one more sitemap to fetch for each of `urls`, all read against
    /// `base_url` and with the same depth.
    pub open spec fn scheduled_all(
        self,
        urls: Seq<Seq<char>>,
        base_url: Seq<char>,
        depth: nat,
    ) -> TraversalView
        decreases urls.len(),
    {
        if urls.len() == 0 {
            self
        } else {
            self.scheduled(urls[0], base_url, depth).scheduled_all(
                urls.drop_first(),
                base_url,
                depth,
            )
        }
    }

    /// The sitemaps that are followed from the document of `task`.
    pub open spec fn followed(self, task: TaskView, nested: Seq<Seq<char>>) -> Seq<Seq<char>> {
        if task.depth <= 1 {
            Seq::empty()
        } else if task.guarded {
            first_few_unvisited(nested, self.visited, self.breadth)
        } else {
            first_few(nested, self.breadth)
        }
    }

    /// The state after `outcome` came back for `task`. A failure adds its
    /// entry to the errors and nothing else. A document adds its content
    /// URLs and, as new tasks, the sitemaps followed from it.
    pub open spec fn absorbed(self, task: TaskView, outcome: Outcome) -> TraversalView {
        match outcome {
            Err(message) => TraversalView {
                errors: self.errors.push(failure_entry(message)),
                ..self
            },
            Ok(document) => {
                let chosen = self.followed(task, document.nested_sitemaps);
                TraversalView {
                    urls: with_urls(self.urls, document.urls),
                    pending: self.pending + child_tasks(chosen, task),
                    requests: saturated(self.requests + chosen.len()),
                    visited: if task.guarded {
                        with_urls(self.visited, chosen)
                    } else {
                        self.visited
                    },
                    ..self
                }
            },
        }
    }

    /// The state after the outcomes for a run of tasks came back, taken in
    /// order.
    pub open spec fn absorbed_all(
        self,
        tasks: Seq<TaskView>,
        outcomes: Seq<Outcome>,
    ) -> TraversalView
        decreases tasks.len(),
    {
        if tasks.len() == 0 || outcomes.len() == 0 {
            self
        } else {
            self.absorbed(tasks[0], outcomes[0]).absorbed_all(
                tasks.drop_first(),
                outcomes.drop_first(),
            )
        }
    }

    /// The state after the outcomes for the whole pending level came back:
    /// the next level is pending.
    pub open spec fn advanced(self, outcomes: Seq<Outcome>) -> TraversalView {
        TraversalView { pending: Seq::empty(), ..self }.absorbed_all(self.pending, outcomes)
    }

    /// Whether nothing is left to fetch.
    pub open spec fn is_finished(self) -> bool {
        self.pending.len() == 0
    }
}

/// The engine's state between two levels of fetches.
pub struct Traversal {
    max_nested_per_level: usize,
    pending: Vec<SitemapTask>,
    urls: UrlSet,
    errors: Vec<String>,
    requests: usize,
    visited: UrlSet,
}

impl View for Traversal {
    type V = TraversalView;

    closed spec fn view(&self) -> TraversalView {
        TraversalView {
            breadth: self.max_nested_per_level as nat,
            pending: task_views(self.pending@),
            urls: self.urls@,
            errors: texts(self.errors@),
            requests: self.requests,
            visited: self.visited@,
        }
    }
}

/// Copies the first `limit` of `nested`, or all of them.
pub fn take_first_few(nested: &Vec<String>, limit: usize) -> (chosen: Vec<String>)
    ensures
        texts(chosen@) == first_few(texts(nested@), limit as nat),
{
    let count = if limit < nested.len() {
        limit
    } else {
        nested.len()
    };
    let mut chosen: Vec<String> = Vec::new();
    let mut i: usize = 0;
    while i < count
        invariant
            i <= count <= nested@.len(),
            chosen@.len() == i,
            forall|j: int| 0 <= j < i ==> (#[trigger] chosen@[j])@ == nested@[j]@,
        decreases count - i,
    {
        chosen.push(nested[i].clone());
        i += 1;
    }
    assert(texts(chosen@) =~= first_few(texts(nested@), limit as nat));
    chosen
}

/// Copies the first `limit` of `nested` that `visited` does not hold.
fn take_first_few_unvisited(nested: &Vec<String>, visited: &UrlSet, limit: usize) -> (chosen: Vec<
    String,
>)
    ensures
        texts(chosen@) == first_few_unvisited(texts(nested@), visited@, limit as nat),
{
    let mut chosen: Vec<String> = Vec::new();
    let mut i: usize = 0;
    proof {
        assert(texts(nested@).skip(0) == texts(nested@));
        assert(texts(chosen@) =~= Seq::<Seq<char>>::empty());
        assert(Seq::<Seq<char>>::empty() + first_few_unvisited(
            texts(nested@),
            visited@,
            limit as nat,
        ) =~= first_few_unvisited(texts(nested@), visited@, limit as nat));
    }
    while i < nested.len() && chosen.len() < limit
        invariant
            i <= nested@.len(),
            chosen@.len() <= limit,
            texts(chosen@) + first_few_unvisited(
                texts(nested@).skip(i as int),
                visited@,
                (limit - chosen@.len()) as nat,
            ) == first_few_unvisited(texts(nested@), visited@, limit as nat),
        decreases nested@.len() - i,
    {
        let ghost before = texts(chosen@);
        let ghost rest = texts(nested@).skip(i as int);
        assert(rest[0] == nested@[i as int]@);
        assert(rest.drop_first() == texts(nested@).skip(i + 1));
        if !visited.contains(nested[i].as_str()) {
            chosen.push(nested[i].clone());
            assert(texts(chosen@) =~= before + seq![rest[0]]);
            assert((before + seq![rest[0]]) + first_few_unvisited(
                rest.drop_first(),
                visited@,
                (limit - chosen@.len()) as nat,
            ) =~= before + (seq![rest[0]] + first_few_unvisited(
                rest.drop_first(),
                visited@,
                (limit - chosen@.len()) as nat,
            )));
        }
        i += 1;
    }
    proof {
        let left = first_few_unvisited(
            texts(nested@).skip(i as int),
            visited@,
            (limit - chosen@.len()) as nat,
        );
        assert(left =~= Seq::<Seq<char>>::empty());
        assert(texts(chosen@) + left =~= texts(chosen@));
    }
    chosen
}

impl Traversal {
    /// A traversal with nothing to do yet, which will follow at most
    /// `max_nested_per_level` of the sitemaps that one document refers to.
    pub fn new(max_nested_per_level: usize) -> (t: Traversal)
        ensures
            t@ == TraversalView::initial(max_nested_per_level as nat),
    {
        let t = Traversal {
            max_nested_per_level,
            pending: Vec::new(),
            urls: UrlSet::new(),
            errors: Vec::new(),
            requests: 0,
            visited: UrlSet::new(),
        };
        assert(task_views(t.pending@) =~= Seq::<TaskView>::empty());
        assert(texts(t.errors@) =~= Seq::<Seq<char>>::empty());
        t
    }

    /// Adds a sitemap to the level that is fetched next. With `depth` 0
    /// nothing is added, so nothing will be fetched for it.
    pub fn schedule(&mut self, url: String, base_url: String, depth: usize)
        ensures
            final(self)@ == old(self)@.scheduled(url@, base_url@, depth as nat),
    {
        if depth == 0 {
            return ;
        }
        let ghost before = task_views(self.pending@);
        let task = SitemapTask { url, base_url, depth, guarded: false };
        self.pending.push(task);
        self.requests = self.requests.saturating_add(1);
        assert(task_views(self.pending@) =~= before.push(task@));
    }

    /// Adds each of `urls` to the level that is fetched next, all read
    /// against `base_url` and with the same depth.
    pub fn schedule_all(&mut self, urls: &Vec<String>, base_url: &str, depth: usize)
        ensures
            final(self)@ == old(self)@.scheduled_all(texts(urls@), base_url@, depth as nat),
    {
        let mut i: usize = 0;
        assert(texts(urls@).skip(0) == texts(urls@));
        while i < urls.len()
            invariant
                i <= urls@.len(),
                self@.scheduled_all(texts(urls@).skip(i as int), base_url@, depth as nat) == old(
                    self,
                )@.scheduled_all(texts(urls@), base_url@, depth as nat),
            decreases urls@.len() - i,
        {
            assert(texts(urls@).skip(i as int)[0] == urls@[i as int]@);
            assert(texts(urls@).skip(i as int).drop_first() == texts(urls@).skip(i + 1));
            self.schedule(urls[i].clone(), String::from_str(base_url), depth);
            i += 1;
        }
    }

    /// Adds a sitemap to the level that is fetched next unless its URL was
    /// visited before, and marks it visited. The sitemaps that its document
    /// refers to are followed only where they were not visited either.
    pub fn schedule_once(&mut self, url: String, base_url: String, depth: usize)
        ensures
            final(self)@ == old(self)@.scheduled_once(url@, base_url@, depth as nat),
    {
        if depth == 0 || self.visited.contains(url.as_str()) {
            return ;
        }
        let ghost before = task_views(self.pending@);
        self.visited.insert(url.clone());
        let task = SitemapTask { url, base_url, depth, guarded: true };
        self.pending.push(task);
        self.requests = self.requests.saturating_add(1);
        assert(task_views(self.pending@) =~= before.push(task@));
    }

    /// The sitemaps to fetch now. All of them may be fetched at once.
    pub fn pending(&self) -> (tasks: &Vec<SitemapTask>)
        ensures
            task_views(tasks@) == self@.pending,
    {
        &self.pending
    }

    /// Whether nothing is left to fetch.
    pub fn is_finished(&self) -> (r: bool)
        ensures
            r == self@.is_finished(),
    {
        self.pending.len() == 0
    }

    /// The number of fetches handed out so far.
    pub fn total_requests(&self) -> (n: usize)
        ensures
            n == self@.requests,
    {
        self.requests
    }

    /// The content URLs found so far.
    pub fn urls(&self) -> (urls: &UrlSet)
        ensures
            urls@ == self@.urls,
    {
        &self.urls
    }

    /// The failures so far, one entry for each sitemap that could not be
    /// fetched or decoded.
    pub fn errors(&self) -> (errors: &Vec<String>)
        ensures
            texts(errors@) == self@.errors,
    {
        &self.errors
    }

    /// The sitemap URLs visited so far by guarded tasks.
    pub fn visited(&self) -> (visited: &UrlSet)
        ensures
            visited@ == self@.visited,
    {
        &self.visited
    }

    /// Ends the traversal and hands out what it found: the content URLs,
    /// the failures and the number of fetches.
    pub fn into_parts(self) -> (parts: (UrlSet, Vec<String>, usize))
        ensures
            parts.0@ == self@.urls,
            texts(parts.1@) == self@.errors,
            parts.2 == self@.requests,
    {
        (self.urls, self.errors, self.requests)
    }

    /// Takes what came back for one task.
    fn absorb_one(&mut self, task: &SitemapTask, outcome: &Result<SitemapParseResult, SitemapError>)
        ensures
            final(self)@ == old(self)@.absorbed(task@, outcome_view(*outcome)),
    {
        match outcome {
            Err(e) => {
                let ghost before = texts(self.errors@);
                let mut entry = String::from_str("Error processing sitemap: ");
                entry.append(e.message().as_str());
                self.errors.push(entry);
                assert(texts(self.errors@) =~= before.push(failure_entry(e.text())));
            },
            Ok(document) => {
                self.urls.extend(&document.urls);
                let chosen = if task.depth <= 1 {
                    Vec::new()
                } else if task.guarded {
                    take_first_few_unvisited(
                        &document.nested_sitemaps,
                        &self.visited,
                        self.max_nested_per_level,
                    )
                } else {
                    take_first_few(&document.nested_sitemaps, self.max_nested_per_level)
                };
                assert(texts(chosen@) =~= old(self)@.followed(task@, document@.nested_sitemaps));
                let ghost before = task_views(self.pending@);
                let ghost seen = self.visited@;
                let mut i: usize = 0;
                assert(texts(chosen@).skip(0) == texts(chosen@));
                while i < chosen.len()
                    invariant
                        i <= chosen@.len(),
                        task.depth > 1 || chosen@.len() == 0,
                        task_views(self.pending@) == before + child_tasks(
                            texts(chosen@).take(i as int),
                            task@,
                        ),
                        task.guarded ==> with_urls(self.visited@, texts(chosen@).skip(i as int))
                            == with_urls(seen, texts(chosen@)),
                        !task.guarded ==> self.visited@ == seen,
                        self.max_nested_per_level == old(self).max_nested_per_level,
                        self.urls@ == with_urls(old(self).urls@, document@.urls),
                        self.errors@ == old(self).errors@,
                        self.requests == old(self).requests,
                    decreases chosen@.len() - i,
                {
                    let ghost queued = task_views(self.pending@);
                    let child = SitemapTask {
                        url: chosen[i].clone(),
                        base_url: task.base_url.clone(),
                        depth: task.depth - 1,
                        guarded: false,
                    };
                    if task.guarded {
                        assert(texts(chosen@).skip(i as int)[0] == chosen@[i as int]@);
                        assert(texts(chosen@).skip(i as int).drop_first() == texts(chosen@).skip(
                            i + 1,
                        ));
                        self.visited.insert(chosen[i].clone());
                    }
                    self.pending.push(child);
                    assert(task_views(self.pending@) =~= queued.push(child@));
                    assert(queued.push(child@) =~= before + child_tasks(
                        texts(chosen@).take(i + 1),
                        task@,
                    ));
                    i += 1;
                }
                assert(texts(chosen@).take(chosen@.len() as int) == texts(chosen@));
                self.requests = self.requests.saturating_add(chosen.len());
            },
        }
    }

    /// Takes what came back for the pending sitemaps, decoded, one outcome
    /// for each task and in the order of the tasks, and makes the next
    /// level pending. Says whether it did: where the number of outcomes is
    /// not the number of pending tasks nothing changes.
    pub fn absorb(&mut self, outcomes: &Vec<Result<SitemapParseResult, SitemapError>>) -> (done:
        bool)
        ensures
            done == (outcomes@.len() == old(self)@.pending.len()),
            done ==> final(self)@ == old(self)@.advanced(outcome_views(outcomes@)),
            !done ==> final(self)@ == old(self)@,
    {
        if outcomes.len() != self.pending.len() {
            return false;
        }
        let mut tasks: Vec<SitemapTask> = Vec::new();
        core::mem::swap(&mut self.pending, &mut tasks);
        let ghost start = self@;
        let ghost all_tasks = task_views(tasks@);
        let ghost all_outcomes = outcome_views(outcomes@);
        assert(task_views(self.pending@) =~= Seq::<TaskView>::empty());
        assert(start == TraversalView { pending: Seq::empty(), ..old(self)@ });
        let mut i: usize = 0;
        assert(all_tasks.skip(0) == all_tasks);
        assert(all_outcomes.skip(0) == all_outcomes);
        while i < tasks.len()
            invariant
                i <= tasks@.len() == outcomes@.len(),
                all_tasks == task_views(tasks@),
                all_outcomes == outcome_views(outcomes@),
                self@.absorbed_all(all_tasks.skip(i as int), all_outcomes.skip(i as int))
                    == start.absorbed_all(all_tasks, all_outcomes),
            decreases tasks@.len() - i,
        {
            assert(all_tasks.skip(i as int)[0] == tasks@[i as int]@);
            assert(all_outcomes.skip(i as int)[0] == outcome_view(outcomes@[i as int]));
            assert(all_tasks.skip(i as int).drop_first() == all_tasks.skip(i + 1));
            assert(all_outcomes.skip(i as int).drop_first() == all_outcomes.skip(i + 1));
            self.absorb_one(&tasks[i], &outcomes[i]);
            i += 1;
        }
        true
    }

    /// Takes what the fetches of the pending sitemaps gave, one result for
    /// each task and in the order of the tasks: the document's text, or the
    /// failure. Each document is decoded against its task's base, and the
    /// next level is made pending. Says whether it did: where the number
    /// of results is not the number of pending tasks nothing changes.
    pub fn advance(&mut self, fetched: &Vec<Result<String, SitemapError>>) -> (done: bool)
        ensures
            done == (fetched@.len() == old(self)@.pending.len()),
            done ==> final(self)@ == old(self)@.advanced(
                decoded_fetches(old(self)@.pending, fetched@),
            ),
            !done ==> final(self)@ == old(self)@,
    {
        if fetched.len() != self.pending.len() {
            return false;
        }
        let mut outcomes: Vec<Result<SitemapParseResult, SitemapError>> = Vec::new();
        let mut i: usize = 0;
        while i < fetched.len()
            invariant
                i <= fetched@.len() == self.pending@.len(),
                outcomes@.len() == i,
                forall|j: int|
                    0 <= j < i ==> outcome_view(#[trigger] outcomes@[j]) == decoded_fetch(
                        self.pending@[j]@,
                        fetched@[j],
                    ),
            decreases fetched@.len() - i,
        {
            let outcome = match &fetched[i] {
                Ok(body) => parse_sitemap_xml(body.as_str(), self.pending[i].base_url.as_str()),
                Err(e) => Err(e.clone()),
            };
            outcomes.push(outcome);
            i += 1;
        }
        assert(outcome_views(outcomes@) =~= decoded_fetches(self@.pending, fetched@));
        self.absorb(&outcomes)
    }
}

/// With no depth left nothing is scheduled: a traversal that is started
/// with depth 0 has nothing to fetch, has found nothing and has counted no
/// request.
pub proof fn lemma_zero_depth_fetches_nothing(
    breadth: nat,
    urls: Seq<Seq<char>>,
    base_url: Seq<char>,
)
    ensures
        TraversalView::initial(breadth).scheduled_all(urls, base_url, 0) == TraversalView::initial(
            breadth,
        ),
        TraversalView::initial(breadth).is_finished(),
        TraversalView::initial(breadth).urls.len() == 0,
        TraversalView::initial(breadth).requests == 0,
    decreases urls.len(),
{
    if urls.len() > 0 {
        lemma_zero_depth_fetches_nothing(breadth, urls.drop_first(), base_url);
    }
}

/// What scheduling a run of sitemaps does: with some depth each of them
/// becomes a task and counts as one request; nothing else changes.
pub proof fn lemma_scheduled_all(
    t: TraversalView,
    urls: Seq<Seq<char>>,
    base_url: Seq<char>,
    depth: nat,
)
    ensures
        depth == 0 ==> t.scheduled_all(urls, base_url, depth) == t,
        depth > 0 ==> t.scheduled_all(urls, base_url, depth) == (TraversalView {
            pending: t.pending + Seq::new(
                urls.len(),
                |i: int| TaskView { url: urls[i], base_url, depth, guarded: false },
            ),
            requests: saturated(t.requests + urls.len()),
            ..t
        }),
    decreases urls.len(),
{
    if urls.len() == 0 {
        assert(t.pending + Seq::new(
            urls.len(),
            |i: int| TaskView { url: urls[i], base_url, depth, guarded: false },
        ) =~= t.pending);
    } else {
        let next = t.scheduled(urls[0], base_url, depth);
        let rest = urls.drop_first();
        lemma_scheduled_all(next, rest, base_url, depth);
        if depth > 0 {
            assert(next.pending + Seq::new(
                rest.len(),
                |i: int| TaskView { url: rest[i], base_url, depth, guarded: false },
            ) =~= t.pending + Seq::new(
                urls.len(),
                |i: int| TaskView { url: urls[i], base_url, depth, guarded: false },
            ));
        }
    }
}

/// With no depth left a single sitemap is not scheduled either, guarded or
/// not.
pub proof fn lemma_zero_depth_schedules_nothing(
    t: TraversalView,
    url: Seq<char>,
    base_url: Seq<char>,
)
    ensures
        t.scheduled(url, base_url, 0) == t,
        t.scheduled_once(url, base_url, 0) == t,
{
}

/// No more than `limit` sitemaps are chosen from a document, and each of
/// them is one that the document refers to and that was not visited.
pub proof fn lemma_first_few_unvisited(
    nested: Seq<Seq<char>>,
    visited: Seq<Seq<char>>,
    limit: nat,
)
    ensures
        first_few_unvisited(nested, visited, limit).len() <= limit,
        first_few_unvisited(nested, visited, limit).len() <= nested.len(),
        forall|i: int|
            0 <= i < first_few_unvisited(nested, visited, limit).len() ==> {
                &&& nested.contains(#[trigger] first_few_unvisited(nested, visited, limit)[i])
                &&& !visited.contains(first_few_unvisited(nested, visited, limit)[i])
            },
    decreases nested.len(),
{
    if limit == 0 || nested.len() == 0 {
    } else {
        let rest = nested.drop_first();
        let chosen = first_few_unvisited(nested, visited, limit);
        if visited.contains(nested[0]) {
            lemma_first_few_unvisited(rest, visited, limit);
            assert forall|i: int| 0 <= i < chosen.len() implies nested.contains(
                #[trigger] chosen[i],
            ) by {
                let j = choose|j: int| 0 <= j < rest.len() && rest[j] == chosen[i];
                assert(nested[j + 1] == chosen[i]);
            }
        } else {
            let tail = first_few_unvisited(rest, visited, (limit - 1) as nat);
            lemma_first_few_unvisited(rest, visited, (limit - 1) as nat);
            assert forall|i: int| 0 <= i < chosen.len() implies nested.contains(
                #[trigger] chosen[i],
            ) && !visited.contains(chosen[i]) by {
                if i == 0 {
                    assert(nested[0] == chosen[0]);
                } else {
                    assert(chosen[i] == tail[i - 1]);
                    let j = choose|j: int| 0 <= j < rest.len() && rest[j] == tail[i - 1];
                    assert(nested[j + 1] == chosen[i]);
                }
            }
        }
    }
}

/// The breadth bound: from one document never more than
/// `max_nested_per_level` sitemaps are followed, and none from a document
/// on the last level.
pub proof fn lemma_breadth_bounded(t: TraversalView, task: TaskView, nested: Seq<Seq<char>>)
    ensures
        t.followed(task, nested).len() <= t.breadth,
        t.followed(task, nested).len() <= nested.len(),
        task.depth <= 1 ==> t.followed(task, nested).len() == 0,
{
    lemma_first_few_unvisited(nested, t.visited, t.breadth);
}

/// Where a document refers to more sitemaps than the breadth bound allows,
/// exactly the first ones up to the bound are followed, in the order of
/// the document: they become the new tasks, one level further down, and
/// each counts as one request. The others are dropped.
pub proof fn lemma_only_first_nested_followed(
    t: TraversalView,
    task: TaskView,
    document: Decoded,
)
    requires
        task.depth > 1,
        !task.guarded,
        t.breadth < document.nested_sitemaps.len(),
    ensures
        t.followed(task, document.nested_sitemaps) == document.nested_sitemaps.take(
            t.breadth as int,
        ),
        t.absorbed(task, Ok(document)).pending.len() == t.pending.len() + t.breadth,
        forall|i: int|
            0 <= i < t.breadth ==> #[trigger] t.absorbed(task, Ok(document)).pending[t.pending.len()
                + i] == (TaskView {
                url: document.nested_sitemaps[i],
                base_url: task.base_url,
                depth: (task.depth - 1) as nat,
                guarded: false,
            }),
        t.absorbed(task, Ok(document)).requests == saturated(t.requests + t.breadth),
{
}

/// A failure costs no URL: it adds its entry to the errors and leaves the
/// content URLs, the pending sitemaps and the count of requests as they
/// were.
pub proof fn lemma_failure_keeps_urls(t: TraversalView, task: TaskView, message: Seq<char>)
    ensures
        t.absorbed(task, Err(message)).urls == t.urls,
        t.absorbed(task, Err(message)).pending == t.pending,
        t.absorbed(task, Err(message)).requests == t.requests,
        t.absorbed(task, Err(message)).errors == t.errors.push(failure_entry(message)),
{
}

/// What a run of outcomes does to a traversal: found URLs and errors stay
/// in place, pending tasks stay pending, each new pending task is one
/// request more, and every new task has less depth than the tasks had,
/// but some.
pub proof fn lemma_absorbed_all(
    t: TraversalView,
    tasks: Seq<TaskView>,
    outcomes: Seq<Outcome>,
    depth: nat,
)
    requires
        forall|i: int| 0 <= i < tasks.len() ==> (#[trigger] tasks[i]).depth <= depth,
    ensures
        t.urls.is_prefix_of(t.absorbed_all(tasks, outcomes).urls),
        t.urls.no_duplicates() ==> t.absorbed_all(tasks, outcomes).urls.no_duplicates(),
        t.errors.is_prefix_of(t.absorbed_all(tasks, outcomes).errors),
        t.pending.is_prefix_of(t.absorbed_all(tasks, outcomes).pending),
        t.absorbed_all(tasks, outcomes).breadth == t.breadth,
        t.absorbed_all(tasks, outcomes).requests == saturated(
            t.requests + t.absorbed_all(tasks, outcomes).pending.len() - t.pending.len(),
        ),
        forall|i: int|
            t.pending.len() <= i < t.absorbed_all(tasks, outcomes).pending.len() ==> 1 <= (
            #[trigger] t.absorbed_all(tasks, outcomes).pending[i]).depth < depth,
    decreases tasks.len(),
{
    if tasks.len() == 0 || outcomes.len() == 0 {
    } else {
        let next = t.absorbed(tasks[0], outcomes[0]);
        let last = next.absorbed_all(tasks.drop_first(), outcomes.drop_first());
        assert forall|i: int| 0 <= i < tasks.drop_first().len() implies (
        #[trigger] tasks.drop_first()[i]).depth <= depth by {
            assert(tasks.drop_first()[i] == tasks[i + 1]);
        }
        lemma_absorbed_all(next, tasks.drop_first(), outcomes.drop_first(), depth);
        match outcomes[0] {
            Err(message) => {},
            Ok(document) => {
                lemma_with_urls_extends(t.urls, document.urls);
                if t.urls.no_duplicates() {
                    lemma_with_urls(t.urls, document.urls);
                }
                lemma_breadth_bounded(t, tasks[0], document.nested_sitemaps);
                let chosen = t.followed(tasks[0], document.nested_sitemaps);
                assert(next.pending.len() == t.pending.len() + chosen.len());
                assert forall|i: int| t.pending.len() <= i < last.pending.len() implies 1 <= (
                #[trigger] last.pending[i]).depth < depth by {
                    if i < next.pending.len() {
                        assert(last.pending[i] == next.pending[i]);
                        assert(next.pending[i] == child_tasks(chosen, tasks[0])[i
                            - t.pending.len()]);
                    }
                }
            },
        }
    }
}

/// What a level of outcomes does to a traversal. The content URLs found
/// before stay, in place and each once, and so do the errors. Every
/// sitemap of the next level counts as exactly one request, whether its
/// fetch will succeed or fail. And the next level has less depth left than
/// this one had: a traversal whose tasks have depth `depth` at most is
/// finished after `depth` levels.
pub proof fn lemma_advanced(t: TraversalView, outcomes: Seq<Outcome>, depth: nat)
    requires
        forall|i: int| 0 <= i < t.pending.len() ==> (#[trigger] t.pending[i]).depth <= depth,
    ensures
        t.urls.is_prefix_of(t.advanced(outcomes).urls),
        t.urls.no_duplicates() ==> t.advanced(outcomes).urls.no_duplicates(),
        t.errors.is_prefix_of(t.advanced(outcomes).errors),
        t.advanced(outcomes).requests == saturated(
            t.requests + t.advanced(outcomes).pending.len(),
        ),
        forall|i: int|
            0 <= i < t.advanced(outcomes).pending.len() ==> 1 <= (#[trigger] t.advanced(
                outcomes,
            ).pending[i]).depth < depth,
        depth <= 1 ==> t.advanced(outcomes).is_finished(),
{
    let cleared = TraversalView { pending: Seq::empty(), ..t };
    lemma_absorbed_all(cleared, t.pending, outcomes, depth);
    if depth <= 1 && t.advanced(outcomes).pending.len() > 0 {
        assert(1 <= t.advanced(outcomes).pending[0].depth < depth);
    }
}

/// No level is more than `max_nested_per_level` times as wide as the
/// level before it.
pub proof fn lemma_level_width_bounded(t: TraversalView, outcomes: Seq<Outcome>)
    ensures
        t.advanced(outcomes).pending.len() <= t.pending.len() * t.breadth,
{
    let cleared = TraversalView { pending: Seq::empty(), ..t };
    lemma_absorbed_width(cleared, t.pending, outcomes);
}

/// A run of outcomes adds no more than `max_nested_per_level` tasks for
/// each task it is for.
proof fn lemma_absorbed_width(t: TraversalView, tasks: Seq<TaskView>, outcomes: Seq<Outcome>)
    ensures
        t.absorbed_all(tasks, outcomes).pending.len() <= t.pending.len() + tasks.len() * t.breadth,
        t.absorbed_all(tasks, outcomes).breadth == t.breadth,
    decreases tasks.len(),
{
    if tasks.len() == 0 || outcomes.len() == 0 {
        assert(tasks.len() * t.breadth >= 0) by (nonlinear_arith);
    } else {
        let next = t.absorbed(tasks[0], outcomes[0]);
        lemma_absorbed_width(next, tasks.drop_first(), outcomes.drop_first());
        match outcomes[0] {
            Err(message) => {},
            Ok(document) => {
                lemma_breadth_bounded(t, tasks[0], document.nested_sitemaps);
            },
        }
        assert(tasks.len() * t.breadth == (tasks.len() - 1) * t.breadth + t.breadth)
            by (nonlinear_arith);
        assert((tasks.len() - 1) * t.breadth >= 0) by (nonlinear_arith)
            requires
                tasks.len() >= 1,
        ;
    }
}

impl TraversalView {
    /// The state after several levels of outcomes, one after the other.
    pub open spec fn advanced_through(self, levels: Seq<Seq<Outcome>>) -> TraversalView
        decreases levels.len(),
    {
        if levels.len() == 0 {
            self
        } else {
            self.advanced(levels[0]).advanced_through(levels.drop_first())
        }
    }
}

/// The depth bound: a traversal whose tasks have some depth, `depth` at
/// most, is finished after `depth` levels, whatever came back for them,
/// and stays finished. However the sitemaps of a site refer to each other,
/// no more levels than that are fetched.
pub proof fn lemma_finished_within_depth(
    t: TraversalView,
    levels: Seq<Seq<Outcome>>,
    depth: nat,
)
    requires
        forall|i: int| 0 <= i < t.pending.len() ==> 1 <= (#[trigger] t.pending[i]).depth <= depth,
        levels.len() >= depth,
    ensures
        t.advanced_through(levels).is_finished(),
    decreases levels.len(),
{
    if levels.len() == 0 {
        if t.pending.len() > 0 {
            assert(1 <= t.pending[0].depth <= depth);
        }
    } else {
        let next = t.advanced(levels[0]);
        lemma_advanced(t, levels[0], depth);
        if depth == 0 {
            if next.pending.len() > 0 {
                assert(1 <= next.pending[0].depth < depth);
            }
            lemma_finished_within_depth(next, levels.drop_first(), 0);
        } else {
            assert forall|i: int| 0 <= i < next.pending.len() implies 1 <= (
            #[trigger] next.pending[i]).depth <= depth - 1 by {
                assert(1 <= next.pending[i].depth < depth);
            }
            lemma_finished_within_depth(next, levels.drop_first(), (depth - 1) as nat);
        }
    }
}

} // verus!
