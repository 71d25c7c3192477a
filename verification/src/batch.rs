//! The concurrency governor: how many sites of a batch run at a time.

use crate::parser::{ParsedSiteResult, SiteResultView};
use crate::url_set::texts;
use vstd::prelude::*;

verus! {

/// The models of a run of site results.
pub open spec fn result_views(results: Seq<ParsedSiteResult>) -> Seq<SiteResultView> {
    Seq::new(results.len(), |i: int| results[i]@)
}

/// Mathematical model of a [`SiteBatch`].
pub struct SiteBatchView {
    /// How many sites may run at the same time.
    pub max_concurrent: nat,
    /// The sites of the batch, in the order in which they are started.
    pub sites: Seq<Seq<char>>,
    /// How many sites were started.
    pub started: nat,
    /// How many sites run now.
    pub active: nat,
    /// The results of the sites that ended, in the order of their ending.
    pub results: Seq<SiteResultView>,
}

/// What can happen to a batch.
pub enum BatchEvent {
    /// The transport asks for the next site to start.
    Start,
    /// A running site ended with this result.
    Complete(SiteResultView),
}

impl SiteBatchView {
    /// The batch before any site was started.
    pub open spec fn initial(sites: Seq<Seq<char>>, max_concurrent: nat) -> SiteBatchView {
        SiteBatchView { max_concurrent, sites, started: 0, active: 0, results: Seq::empty() }
    }

    /// Whether a site can be started now: one is left, and fewer than
    /// `max_concurrent` run.
    pub open spec fn can_start(self) -> bool {
        self.active < self.max_concurrent && self.started < self.sites.len()
    }

    /// The batch after the next site was asked for.
    pub open spec fn next_started(self) -> SiteBatchView {
        if self.can_start() {
            SiteBatchView { started: self.started + 1, active: self.active + 1, ..self }
        } else {
            self
        }
    }

    /// The batch after a running site ended with `result`.
    pub open spec fn completed(self, result: SiteResultView) -> SiteBatchView {
        if self.active > 0 {
            SiteBatchView {
                active: (self.active - 1) as nat,
                results: self.results.push(result),
                ..self
            }
        } else {
            self
        }
    }

    /// The batch after one event.
    pub open spec fn after(self, event: BatchEvent) -> SiteBatchView {
        match event {
            BatchEvent::Start => self.next_started(),
            BatchEvent::Complete(result) => self.completed(result),
        }
    }

    /// The batch after a run of events.
    pub open spec fn after_all(self, events: Seq<BatchEvent>) -> SiteBatchView
        decreases events.len(),
    {
        if events.len() == 0 {
            self
        } else {
            self.after(events[0]).after_all(events.drop_first())
        }
    }

    /// Whether every site was started and has ended.
    pub open spec fn is_finished(self) -> bool {
        self.started == self.sites.len() && self.active == 0
    }

    /// The books balance: no more sites run than may, every started site
    /// runs or has ended, and no site was started that is not in the batch.
    pub open spec fn balanced(self) -> bool {
        &&& self.active <= self.max_concurrent
        &&& self.active + self.results.len() == self.started
        &&& self.started <= self.sites.len()
    }
}

/// A batch of sites that are crawled with bounded concurrency.
pub struct SiteBatch {
    max_concurrent: usize,
    sites: Vec<String>,
    started: usize,
    active: usize,
    results: Vec<ParsedSiteResult>,
}

impl View for SiteBatch {
    type V = SiteBatchView;

    closed spec fn view(&self) -> SiteBatchView {
        SiteBatchView {
            max_concurrent: self.max_concurrent as nat,
            sites: texts(self.sites@),
            started: self.started as nat,
            active: self.active as nat,
            results: result_views(self.results@),
        }
    }
}

impl SiteBatch {
    /// A batch of `sites`, none started yet.
    pub fn new(sites: Vec<String>, max_concurrent: usize) -> (batch: SiteBatch)
        ensures
            batch@ == SiteBatchView::initial(texts(sites@), max_concurrent as nat),
    {
        let batch = SiteBatch { max_concurrent, sites, started: 0, active: 0, results: Vec::new() };
        assert(result_views(batch.results@) =~= Seq::<SiteResultView>::empty());
        batch
    }

    /// Hands out the next site to start, if one is left and fewer than
    /// `max_concurrent` sites run; that site then counts as running.
    pub fn start_next(&mut self) -> (site: Option<String>)
        ensures
            final(self)@ == old(self)@.next_started(),
            match site {
                Some(url) => old(self)@.can_start() && url@ == old(self)@.sites[old(
                    self,
                )@.started as int],
                None => !old(self)@.can_start(),
            },
    {
        if self.active < self.max_concurrent && self.started < self.sites.len() {
            let url = self.sites[self.started].clone();
            self.started = self.started + 1;
            self.active = self.active + 1;
            Some(url)
        } else {
            None
        }
    }

    /// Records the result of a running site, which then runs no longer.
    /// Says whether it did: where no site runs nothing changes.
    pub fn complete(&mut self, result: ParsedSiteResult) -> (done: bool)
        ensures
            done == (old(self)@.active > 0),
            final(self)@ == old(self)@.completed(result@),
    {
        if self.active == 0 {
            return false;
        }
        let ghost before = result_views(self.results@);
        self.active = self.active - 1;
        self.results.push(result);
        assert(result_views(self.results@) =~= before.push(result@));
        true
    }

    /// How many sites run now.
    pub fn active(&self) -> (n: usize)
        ensures
            n == self@.active,
    {
        self.active
    }

    /// Whether every site was started and has ended.
    pub fn is_finished(&self) -> (r: bool)
        ensures
            r == self@.is_finished(),
    {
        self.started == self.sites.len() && self.active == 0
    }

    /// Ends the batch and hands out the results of the sites that ended,
    /// in the order of their ending.
    pub fn into_results(self) -> (results: Vec<ParsedSiteResult>)
        ensures
            result_views(results@) == self@.results,
    {
        self.results
    }
}

/// Whatever happens to a batch, no more than `max_concurrent` of its sites
/// run at the same time, and the books stay balanced.
pub proof fn lemma_concurrency_bounded(
    sites: Seq<Seq<char>>,
    max_concurrent: nat,
    events: Seq<BatchEvent>,
)
    ensures
        SiteBatchView::initial(sites, max_concurrent).after_all(events).active <= max_concurrent,
        SiteBatchView::initial(sites, max_concurrent).after_all(events).balanced(),
{
    lemma_balance_kept(SiteBatchView::initial(sites, max_concurrent), events);
}

/// Events keep a balanced batch balanced, and change neither its sites nor
/// its limit.
pub proof fn lemma_balance_kept(batch: SiteBatchView, events: Seq<BatchEvent>)
    requires
        batch.balanced(),
    ensures
        batch.after_all(events).balanced(),
        batch.after_all(events).sites == batch.sites,
        batch.after_all(events).max_concurrent == batch.max_concurrent,
    decreases events.len(),
{
    if events.len() > 0 {
        lemma_balance_kept(batch.after(events[0]), events.drop_first());
    }
}

/// A balanced batch that is finished holds one result for each of its
/// sites.
pub proof fn lemma_one_result_per_site(batch: SiteBatchView)
    requires
        batch.balanced(),
        batch.is_finished(),
    ensures
        batch.results.len() == batch.sites.len(),
{
}

/// A balanced batch that is not finished can go on: a site can be started
/// or a site runs, unless no site may ever run.
pub proof fn lemma_batch_progress(batch: SiteBatchView)
    requires
        batch.balanced(),
        !batch.is_finished(),
        batch.max_concurrent > 0,
    ensures
        batch.can_start() || batch.active > 0,
{
}

} // verus!
