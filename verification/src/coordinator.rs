//! The coordinator of a download: it lets a bounded number of chapter
//! pipelines run side by side and collects the outcome of each.

use crate::pipeline::{ChapterOutcome, ChapterPipeline};
use crate::pool::{JobState, PoolStep, WorkPool};
use vstd::prelude::*;

verus! {

/// The number of page requests that one chapter keeps under way, unless
/// the caller says otherwise.
pub const DEFAULT_PAGE_WORKERS: usize = 10;

/// The number of chapters that run side by side, unless the caller says
/// otherwise.
pub const DEFAULT_CHAPTER_WORKERS: usize = 4;

/// What the caller of a coordinator has to do next.
#[derive(Clone, Copy, Debug, PartialEq, Eq, Structural)]
pub enum CoordinatorStep {
    /// Start the pipeline of the chapter with this index.
    Start(usize),
    /// Wait for a running pipeline to end and report its outcome.
    Wait,
    /// Every chapter has ended.
    Finished,
}

/// The coordinator of the chapters of one download, which are known by
/// their index in the list that was chosen.
pub struct DownloadCoordinator {
    pool: WorkPool,
    page_workers: usize,
    outcomes: Vec<Option<ChapterOutcome>>,
}

/// The number of page requests under way over all of `pipelines`.
pub open spec fn total_in_flight(pipelines: Seq<ChapterPipeline>) -> nat
    decreases pipelines.len(),
{
    if pipelines.len() == 0 {
        0
    } else {
        total_in_flight(pipelines.drop_last()) + pipelines.last().in_flight()
    }
}

impl DownloadCoordinator {
    /// The number of chapters that may run at once.
    pub closed spec fn chapter_workers(&self) -> nat {
        self.pool.capacity()
    }

    /// The number of page requests that each chapter may keep under way.
    pub closed spec fn page_workers(&self) -> nat {
        self.page_workers as nat
    }

    /// The state of every chapter, by index.
    pub closed spec fn chapters(&self) -> Seq<JobState> {
        self.pool.states()
    }

    /// The number of chapters that run.
    pub open spec fn running(&self) -> nat {
        crate::pool::count_in_state(self.chapters(), JobState::Running)
    }

    /// The outcome of every chapter, by index; `None` until it has ended.
    pub closed spec fn outcomes(&self) -> Seq<Option<ChapterOutcome>> {
        self.outcomes@
    }

    /// The invariant of a coordinator: a chapter has an outcome exactly
    /// when it is done.
    pub closed spec fn wf(&self) -> bool {
        &&& self.pool.wf()
        &&& self.page_workers >= 1
        &&& self.outcomes.len() == self.pool.states().len()
        &&& forall|i: int|
            0 <= i < self.outcomes.len() ==> ((#[trigger] self.outcomes[i]) is Some
                <==> self.pool.states()[i] == JobState::Done)
    }

    /// A coordinator for `chapter_count` chapters, of which at most
    /// `chapter_workers` run at once, each with at most `page_workers`
    /// page requests under way. Both bounds have to allow some work.
    pub fn new(chapter_count: usize, chapter_workers: usize, page_workers: usize) -> (r: Option<
        DownloadCoordinator,
    >)
        ensures
            r is Some <==> chapter_workers >= 1 && page_workers >= 1,
            r matches Some(c) ==> {
                &&& c.wf()
                &&& c.chapter_workers() == chapter_workers
                &&& c.page_workers() == page_workers
                &&& c.chapters() == Seq::new(chapter_count as nat, |i: int| JobState::Pending)
                &&& c.running() == 0
                &&& c.outcomes() == Seq::new(
                    chapter_count as nat,
                    |i: int| None::<ChapterOutcome>,
                )
            },
    {
        if page_workers == 0 {
            return None;
        }
        let pool = match WorkPool::new(chapter_count, chapter_workers) {
            Some(pool) => pool,
            None => {
                return None;
            },
        };
        let mut outcomes: Vec<Option<ChapterOutcome>> = Vec::new();
        while outcomes.len() < chapter_count
            invariant
                outcomes.len() <= chapter_count,
                forall|i: int| 0 <= i < outcomes.len() ==> outcomes[i] is None,
            decreases chapter_count - outcomes.len(),
        {
            outcomes.push(None);
        }
        assert(outcomes@ =~= Seq::new(chapter_count as nat, |i: int| None::<ChapterOutcome>));
        Some(DownloadCoordinator { pool, page_workers, outcomes })
    }

    /// The number of page requests that each chapter may keep under way.
    pub fn page_capacity(&self) -> (r: usize)
        ensures
            r == self.page_workers(),
    {
        self.page_workers
    }

    /// The most connections that the download can have open at once: one
    /// for each page worker of each chapter that runs.
    pub fn connection_limit(&self) -> (r: usize)
        ensures
            r == if self.chapter_workers() * self.page_workers() <= usize::MAX {
                self.chapter_workers() * self.page_workers()
            } else {
                usize::MAX as nat
            },
    {
        match self.pool.slots().checked_mul(self.page_workers) {
            Some(limit) => limit,
            None => usize::MAX,
        }
    }

    /// Decides the next step: a chapter starts as soon as fewer than
    /// `chapter_workers` run, in the order of the list; the download has
    /// finished once every chapter has ended.
    pub fn next_step(&mut self) -> (r: CoordinatorStep)
        requires
            old(self).wf(),
        ensures
            final(self).wf(),
            final(self).chapter_workers() == old(self).chapter_workers(),
            final(self).page_workers() == old(self).page_workers(),
            final(self).outcomes() == old(self).outcomes(),
            final(self).running() <= final(self).chapter_workers(),
            match r {
                CoordinatorStep::Start(chapter) => {
                    &&& chapter < old(self).chapters().len()
                    &&& old(self).chapters()[chapter as int] == JobState::Pending
                    &&& forall|i: int|
                        0 <= i < chapter ==> old(self).chapters()[i] != JobState::Pending
                    &&& old(self).running() < old(self).chapter_workers()
                    &&& final(self).chapters() == old(self).chapters().update(
                        chapter as int,
                        JobState::Running,
                    )
                    &&& final(self).running() == old(self).running() + 1
                },
                CoordinatorStep::Wait => {
                    &&& old(self).running() > 0
                    &&& old(self).running() >= old(self).chapter_workers() || forall|i: int|
                        0 <= i < old(self).chapters().len() ==> old(self).chapters()[i]
                            != JobState::Pending
                    &&& *final(self) == *old(self)
                },
                CoordinatorStep::Finished => {
                    &&& forall|i: int|
                        0 <= i < old(self).outcomes().len() ==> (#[trigger] old(
                            self,
                        ).outcomes()[i]) is Some
                    &&& *final(self) == *old(self)
                },
            },
    {
        proof {
            self.pool.lemma_first_pending();
        }
        let step = self.pool.next_step();
        proof {
            self.pool.lemma_running_within_capacity();
        }
        match step {
            PoolStep::Start(chapter) => CoordinatorStep::Start(chapter),
            PoolStep::Wait => CoordinatorStep::Wait,
            PoolStep::Finished => {
                proof {
                    self.pool.lemma_first_pending();
                    crate::pool::lemma_none_running(self.pool.states());
                }
                CoordinatorStep::Finished
            },
        }
    }

    /// Records how the pipeline of chapter `chapter` ended and lets the
    /// next chapter start. Nothing but the record of this chapter changes:
    /// a chapter that failed stops no other. Returns whether the chapter
    /// was running; if not, nothing changes.
    pub fn chapter_finished(&mut self, chapter: usize, outcome: ChapterOutcome) -> (r: bool)
        requires
            old(self).wf(),
        ensures
            final(self).wf(),
            final(self).chapter_workers() == old(self).chapter_workers(),
            final(self).page_workers() == old(self).page_workers(),
            r == (chapter < old(self).chapters().len() && old(self).chapters()[chapter as int]
                == JobState::Running),
            !r ==> *final(self) == *old(self),
            r ==> {
                &&& final(self).chapters() == old(self).chapters().update(
                    chapter as int,
                    JobState::Done,
                )
                &&& final(self).outcomes() == old(self).outcomes().update(
                    chapter as int,
                    Some(outcome),
                )
                &&& final(self).running() + 1 == old(self).running()
            },
    {
        if !self.pool.complete(chapter) {
            return false;
        }
        self.outcomes.set(chapter, Some(outcome));
        true
    }

    /// The outcome of chapter `chapter`; `None` while it has not ended,
    /// and for an index past the list.
    pub fn outcome_of(&self, chapter: usize) -> (r: Option<ChapterOutcome>)
        ensures
            r == if chapter < self.outcomes().len() {
                self.outcomes()[chapter as int]
            } else {
                None
            },
    {
        if chapter < self.outcomes.len() {
            self.outcomes[chapter]
        } else {
            None
        }
    }

    /// In every state of a coordinator, the chapters that run are at most
    /// `chapter_workers`.
    pub proof fn lemma_chapters_within_capacity(&self)
        requires
            self.wf(),
        ensures
            self.running() <= self.chapter_workers(),
    {
        self.pool.lemma_running_within_capacity();
    }

    /// The connections of a download are bounded: where `pipelines` are
    /// the pipelines of the chapters that run, each with the coordinator's
    /// number of page workers, the page requests under way over all of
    /// them are at most `chapter_workers` times `page_workers`.
    pub proof fn lemma_connections_bounded(&self, pipelines: Seq<ChapterPipeline>)
        requires
            self.wf(),
            pipelines.len() == self.running(),
            forall|i: int|
                0 <= i < pipelines.len() ==> (#[trigger] pipelines[i]).wf() && pipelines[i].capacity()
                    == self.page_workers(),
        ensures
            total_in_flight(pipelines) <= self.chapter_workers() * self.page_workers(),
    {
        self.pool.lemma_running_within_capacity();
        lemma_in_flight_bounded(pipelines, self.page_workers());
        assert(pipelines.len() * self.page_workers() <= self.chapter_workers()
            * self.page_workers()) by (nonlinear_arith)
            requires
                pipelines.len() <= self.chapter_workers(),
        ;
    }
}

/// Pipelines that run side by side, each with at most `workers` page
/// requests under way, have at most `workers` requests each under way.
pub proof fn lemma_in_flight_bounded(pipelines: Seq<ChapterPipeline>, workers: nat)
    requires
        forall|i: int|
            0 <= i < pipelines.len() ==> (#[trigger] pipelines[i]).wf() && pipelines[i].capacity()
                == workers,
    ensures
        total_in_flight(pipelines) <= pipelines.len() * workers,
    decreases pipelines.len(),
{
    if pipelines.len() > 0 {
        let rest = pipelines.drop_last();
        assert forall|i: int| 0 <= i < rest.len() implies (#[trigger] rest[i]).wf()
            && rest[i].capacity() == workers by {
            assert(rest[i] == pipelines[i]);
        }
        lemma_in_flight_bounded(rest, workers);
        assert(pipelines.last() == pipelines[pipelines.len() - 1]);
        pipelines.last().lemma_requests_within_capacity();
        assert(rest.len() * workers + workers == pipelines.len() * workers) by (nonlinear_arith)
            requires
                rest.len() + 1 == pipelines.len(),
        ;
    }
}

} // verus!
