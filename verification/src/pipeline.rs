//! The pipeline of one chapter as a state machine. It decides what happens
//! next (which request to send, which staged file to read or delete, when
//! to write the document) and the caller does it and reports back. Progress
//! counts the pages taken up by the assembler out of those staged.
//!
//! A page that cannot be fetched, read back or embedded is dropped and
//! counted; it never stops the chapter, and it never keeps the remaining
//! pages from being requested. The chapter fails where its manifest
//! cannot be resolved, where the staging area cannot be written,
//! where no page is left to put into the document, or where the document
//! cannot be written.

use crate::assembler::{PdfAssembler, PdfDocument};
use crate::fetch::{
    distinct_ordinals, judge_reply, lemma_ordering_keeps_pages, lemma_rising_and_full,
    order_pages, rising, sorted_by_ordinal, verdict_of, DropReason, DroppedPage, StagedPage,
};
use crate::manifest::{
    defect_of, describes, is_success, resolve_manifest, MetadataError, PageManifest,
};
use crate::json::parsed_json;
use crate::naming::{
    chapter_namespace, manifest_url, manifest_url_of, namespace_of, ordinal_width,
    ordinal_width_of, output_name, output_name_of, page_url, page_url_of, staged_path,
    staged_path_of,
};
use crate::pool::{JobState, PoolStep, WorkPool};
use vstd::prelude::*;
use vstd::string::*;

verus! {

/// A chapter that was chosen for download.
pub struct Chapter {
    pub id: String,
    pub number: String,
    pub display_name: String,
}

/// Why the pipeline of a chapter failed.
#[derive(Clone, Copy, Debug, PartialEq, Eq, Structural)]
pub enum ChapterError {
    /// The manifest of the chapter could not be resolved.
    Metadata(MetadataError),
    /// The staging area cannot be used: a fetched page could not be
    /// written to it.
    Staging,
    /// The pipeline was given no worker.
    NoWorkers,
    /// No page could be put into the document; no document is written.
    EmptyChapter,
    /// The document could not be written.
    PdfWrite,
    /// The pipeline stopped before it reported an outcome.
    Aborted,
}

/// How the pipeline of a chapter ended.
#[derive(Clone, Copy, Debug, PartialEq, Eq, Structural)]
pub enum ChapterOutcome {
    /// The document was written with `pages` pages; `dropped` pages of the
    /// manifest are missing from it.
    Success { pages: usize, dropped: usize },
    Failure(ChapterError),
}

/// Where the pipeline stands.
#[derive(Clone, Copy, Debug, PartialEq, Eq, Structural)]
pub enum Phase {
    Start,
    AwaitingManifest,
    Fetching,
    Assembling,
    Writing,
    Cleaning,
    Finished,
}

/// What the caller of the pipeline has to do next.
pub enum Action {
    /// Request the manifest at `url` and report the response with
    /// `manifest_reply`.
    RequestManifest { url: String },
    /// Request the page at `url`; store its body at `staged_path` if
    /// `judge_reply` keeps the reply; report with `page_reply`.
    RequestPage { ordinal: usize, url: String, staged_path: String },
    /// Wait for the reply to a request that is under way, or for the
    /// writing of the document, and report it.
    Wait,
    /// Read the staged file at `path` and hand its bytes to `page_loaded`.
    LoadStaged { path: String },
    /// Delete the staged file at `path`.
    DeleteStaged { path: String },
    /// Write `bytes`, the finished document, to the file `file_name` of
    /// the destination directory in one step and report with `written`.
    WriteOutput { file_name: String, bytes: Vec<u8> },
    /// The pipeline has ended.
    Done(ChapterOutcome),
}

/// Why a metadata response resolves to no manifest.
pub open spec fn metadata_failure(status: Option<u16>, body: Seq<u8>, e: MetadataError) -> bool {
    match status {
        None => e == MetadataError::Unreachable,
        Some(code) => if !is_success(code) {
            e == MetadataError::Status(code)
        } else {
            match parsed_json(body) {
                None => e == MetadataError::NotJson,
                Some(payload) => defect_of(payload, Some(e)),
            }
        },
    }
}

/// The pipeline of one chapter.
pub struct ChapterPipeline {
    chapter: Chapter,
    namespace: String,
    capacity: usize,
    phase: Phase,
    manifest: PageManifest,
    width: usize,
    pool: WorkPool,
    staged: Vec<StagedPage>,
    cursor: usize,
    dropped: Vec<DroppedPage>,
    embedded: Vec<usize>,
    assembler: Option<PdfAssembler>,
    failure: Option<ChapterError>,
    outcome: Option<ChapterOutcome>,
}

impl ChapterPipeline {
    /// The identifier of the chapter; its staging namespace is
    /// `namespace_of` this identifier.
    pub closed spec fn chapter_id(&self) -> Seq<char> {
        self.chapter.id@
    }

    /// The number of staged pages that the assembler has taken up, or
    /// that were handed out for deletion after a failure.
    pub closed spec fn taken_up(&self) -> nat {
        self.cursor as nat
    }

    /// The number of the chapter, which names its document.
    pub closed spec fn chapter_number(&self) -> Seq<char> {
        self.chapter.number@
    }

    pub closed spec fn phase(&self) -> Phase {
        self.phase
    }

    /// The manifest of the chapter; without entries until it is resolved.
    pub closed spec fn manifest(&self) -> PageManifest {
        self.manifest
    }

    /// The number of page requests that may be under way at once.
    pub closed spec fn capacity(&self) -> nat {
        self.capacity as nat
    }

    /// The number of page requests under way.
    pub closed spec fn in_flight(&self) -> nat {
        self.pool.running()
    }

    /// The state of every page request, by ordinal.
    pub closed spec fn requests(&self) -> Seq<JobState> {
        self.pool.states()
    }

    /// The staged files that exist: the pages that were stored and have
    /// not been handed out for deletion. While the document is assembled
    /// they stand in manifest order.
    pub closed spec fn ledger(&self) -> Seq<StagedPage> {
        self.staged@.skip(self.cursor as int)
    }

    /// The pages that the chapter goes on without, in the order in which
    /// they were dropped.
    pub closed spec fn dropped(&self) -> Seq<DroppedPage> {
        self.dropped@
    }

    /// The ordinals of the pages of the document, in page order.
    pub closed spec fn embedded(&self) -> Seq<usize> {
        self.embedded@
    }

    /// The failure that ends the chapter once its staged files are gone.
    pub closed spec fn failure(&self) -> Option<ChapterError> {
        self.failure
    }

    /// How the pipeline ended; `None` while it runs.
    pub closed spec fn outcome(&self) -> Option<ChapterOutcome> {
        self.outcome
    }

    /// The invariant of a pipeline.
    pub closed spec fn wf(&self) -> bool {
        &&& self.namespace@ == namespace_of(self.chapter.id@)
        &&& self.capacity >= 1
        &&& self.pool.wf()
        &&& self.pool.capacity() == self.capacity
        &&& self.pool.states().len() == self.manifest.entries.len()
        &&& self.manifest.wf()
        &&& self.width == ordinal_width_of(self.manifest.entries.len() as nat)
        &&& self.cursor <= self.staged.len()
        &&& forall|i: int|
            0 <= i < self.staged.len() ==> (#[trigger] self.staged[i]).ordinal
                < self.manifest.entries.len()
        &&& distinct_ordinals(self.staged@)
        &&& rising(self.embedded@)
        &&& forall|k: int|
            0 <= k < self.embedded.len() ==> (#[trigger] self.embedded[k])
                < self.manifest.entries.len()
        &&& (self.embedded.len() > 0 ==> self.cursor > 0 && self.embedded[self.embedded.len() - 1]
            <= self.staged[self.cursor - 1].ordinal)
        &&& (self.assembler matches Some(a) ==> a.wf() && a.pages().len() == self.embedded.len())
        &&& (self.phase != Phase::Finished ==> self.outcome is None)
        &&& match self.phase {
            Phase::Start => self.idle(),
            Phase::AwaitingManifest => self.idle(),
            Phase::Fetching => {
                &&& self.cursor == 0
                &&& self.embedded.len() == 0
                &&& self.assembler is Some
                &&& self.staged.len() + self.dropped.len() == self.pool.done()
                &&& forall|i: int|
                    0 <= i < self.staged.len() ==> self.pool.states()[(
                    #[trigger] self.staged[i]).ordinal as int] == JobState::Done
            },
            Phase::Assembling => {
                &&& self.failure is None
                &&& self.assembler is Some
                &&& sorted_by_ordinal(self.staged@)
                &&& self.embedded.len() + self.dropped.len() + self.staged.len() - self.cursor
                    == self.manifest.entries.len()
                &&& self.pool.running() == 0
            },
            Phase::Writing => {
                &&& self.failure is None
                &&& self.cursor == self.staged.len()
                &&& self.embedded.len() >= 1
                &&& self.embedded.len() + self.dropped.len() == self.manifest.entries.len()
                &&& self.pool.running() == 0
            },
            Phase::Cleaning => {
                &&& self.failure is Some
                &&& self.embedded.len() == 0
                &&& self.pool.running() == 0
            },
            Phase::Finished => {
                &&& self.cursor == self.staged.len()
                &&& self.pool.running() == 0
                &&& self.outcome is Some
                &&& (self.outcome matches Some(ChapterOutcome::Success { pages, dropped }) ==> {
                    &&& pages == self.embedded.len()
                    &&& pages >= 1
                    &&& dropped == self.dropped.len()
                    &&& pages + dropped == self.manifest.entries.len()
                })
            },
        }
    }

    spec fn idle(&self) -> bool {
        &&& self.manifest.entries.len() == 0
        &&& self.staged.len() == 0
        &&& self.dropped.len() == 0
        &&& self.embedded.len() == 0
        &&& self.failure is None
        &&& self.assembler is Some
    }

    /// A pipeline for `chapter` that keeps at most `capacity` page requests
    /// under way. It needs at least one worker.
    pub fn new(chapter: Chapter, capacity: usize) -> (r: Result<ChapterPipeline, ChapterError>)
        ensures
            match r {
                Ok(pipeline) => {
                    &&& capacity >= 1
                    &&& pipeline.wf()
                    &&& pipeline.phase() == Phase::Start
                    &&& pipeline.chapter_id() == chapter.id@
                    &&& pipeline.chapter_number() == chapter.number@
                    &&& pipeline.capacity() == capacity
                    &&& pipeline.in_flight() == 0
                    &&& pipeline.ledger().len() == 0
                    &&& pipeline.taken_up() == 0
                    &&& pipeline.dropped().len() == 0
                    &&& pipeline.embedded().len() == 0
                    &&& pipeline.failure() is None
                    &&& pipeline.outcome() is None
                },
                Err(e) => e == ChapterError::NoWorkers && capacity == 0,
            },
    {
        let namespace = chapter_namespace(chapter.id.as_str());
        let pool = match WorkPool::new(0, capacity) {
            Some(pool) => pool,
            None => {
                return Err(ChapterError::NoWorkers);
            },
        };
        let manifest = PageManifest {
            base_url: String::new(),
            hash: String::new(),
            entries: Vec::new(),
        };
        let width = ordinal_width(0);
        Ok(
            ChapterPipeline {
                chapter,
                namespace,
                capacity,
                phase: Phase::Start,
                manifest,
                width,
                pool,
                staged: Vec::new(),
                cursor: 0,
                dropped: Vec::new(),
                embedded: Vec::new(),
                assembler: Some(PdfAssembler::new()),
                failure: None,
                outcome: None,
            },
        )
    }

    /// Where the pipeline stands.
    pub fn current_phase(&self) -> (r: Phase)
        ensures
            r == self.phase(),
    {
        self.phase
    }

    /// How the pipeline ended; `None` while it runs.
    pub fn result(&self) -> (r: Option<ChapterOutcome>)
        ensures
            r == self.outcome(),
    {
        self.outcome
    }

    /// The number of page requests under way.
    pub fn requests_in_flight(&self) -> (r: usize)
        requires
            self.wf(),
        ensures
            r == self.in_flight(),
            r <= self.capacity(),
    {
        self.pool.in_flight()
    }

    /// The number of pages dropped so far.
    pub fn dropped_count(&self) -> (r: usize)
        ensures
            r == self.dropped().len(),
    {
        self.dropped.len()
    }

    /// The page dropped as the `index`-th one; `None` past the last.
    pub fn dropped_page(&self, index: usize) -> (r: Option<DroppedPage>)
        ensures
            r == if index < self.dropped().len() {
                Some(self.dropped()[index as int])
            } else {
                None
            },
    {
        if index < self.dropped.len() {
            Some(self.dropped[index])
        } else {
            None
        }
    }

    /// Progress as position and length: the number of staged pages that
    /// the assembler has taken up, out of the number of pages staged,
    /// which are those taken up and those still standing.
    pub fn progress(&self) -> (r: (usize, usize))
        requires
            self.wf(),
        ensures
            r.0 == self.taken_up(),
            r.1 == self.taken_up() + self.ledger().len(),
    {
        (self.cursor, self.staged.len())
    }
}

impl ChapterPipeline {
    spec fn same_chapter(&self, other: &ChapterPipeline) -> bool {
        &&& self.chapter == other.chapter
        &&& self.namespace == other.namespace
        &&& self.capacity == other.capacity
    }

    fn fail(&mut self, e: ChapterError)
        requires
            old(self).wf(),
            old(self).cursor == old(self).staged.len(),
            old(self).pool.running() == 0,
        ensures
            final(self).wf(),
            final(self).same_chapter(old(self)),
            final(self).phase == Phase::Finished,
            final(self).outcome == Some(ChapterOutcome::Failure(e)),
            final(self).manifest == old(self).manifest,
            final(self).staged == old(self).staged,
            final(self).cursor == old(self).cursor,
            final(self).dropped == old(self).dropped,
            final(self).embedded == old(self).embedded,
            final(self).pool == old(self).pool,
            final(self).failure == old(self).failure,
    {
        self.phase = Phase::Finished;
        self.outcome = Some(ChapterOutcome::Failure(e));
    }

    /// Takes the response to the manifest request: `status` is `None`
    /// where the request got no response. A sound payload starts the
    /// fetching of its pages; anything else ends the chapter with the
    /// reason. Outside the wait for the manifest the call changes nothing.
    pub fn manifest_reply(&mut self, status: Option<u16>, body: &[u8])
        requires
            old(self).wf(),
        ensures
            final(self).wf(),
            final(self).chapter_id() == old(self).chapter_id(),
            final(self).chapter_number() == old(self).chapter_number(),
            final(self).capacity() == old(self).capacity(),
            old(self).phase() != Phase::AwaitingManifest ==> *final(self) == *old(self),
            old(self).phase() == Phase::AwaitingManifest ==> {
                &&& final(self).ledger().len() == 0
                &&& final(self).taken_up() == 0
                &&& final(self).dropped().len() == 0
                &&& final(self).embedded().len() == 0
                &&& final(self).in_flight() == 0
                &&& final(self).failure() is None
                &&& final(self).phase() == Phase::Fetching || final(self).phase()
                    == Phase::Finished
                &&& final(self).phase() == Phase::Fetching ==> {
                    &&& status matches Some(code) && is_success(code)
                    &&& parsed_json(body@) matches Some(payload) && defect_of(payload, None)
                        && describes(payload, final(self).manifest())
                    &&& final(self).requests() == Seq::new(
                        final(self).manifest().entries.len() as nat,
                        |i: int| JobState::Pending,
                    )
                }
                &&& final(self).phase() == Phase::Finished ==> (final(self).outcome() matches Some(
                    ChapterOutcome::Failure(ChapterError::Metadata(e)),
                ) && metadata_failure(status, body@, e))
            },
    {
        if self.phase != Phase::AwaitingManifest {
            return ;
        }
        let code = match status {
            Some(code) => code,
            None => {
                self.fail(ChapterError::Metadata(MetadataError::Unreachable));
                return ;
            },
        };
        match resolve_manifest(code, body) {
            Err(e) => {
                self.fail(ChapterError::Metadata(e));
            },
            Ok(manifest) => {
                let count = manifest.entries.len();
                self.pool = WorkPool::new(count, self.capacity).unwrap();
                self.width = ordinal_width(count);
                self.manifest = manifest;
                self.phase = Phase::Fetching;
            },
        }
    }

    /// Takes the reply to the request for the page `ordinal`, and gives its
    /// slot back whatever the reply is. `status` is `None` where transport
    /// failed, `body_len` is the number of bytes received, and `stored`
    /// says whether the caller wrote them to the staged path of the page,
    /// which it does exactly for a reply that `judge_reply` keeps. A reply
    /// that is not kept drops the page. A kept reply that could not be
    /// stored drops the page and fails the chapter once its requests have
    /// ended. Returns whether a request for `ordinal` was under way; if
    /// not, nothing changes.
    pub fn page_reply(
        &mut self,
        ordinal: usize,
        status: Option<u16>,
        body_len: usize,
        stored: bool,
    ) -> (accepted: bool)
        requires
            old(self).wf(),
        ensures
            final(self).wf(),
            final(self).chapter_id() == old(self).chapter_id(),
            final(self).chapter_number() == old(self).chapter_number(),
            final(self).capacity() == old(self).capacity(),
            accepted == (old(self).phase() == Phase::Fetching && ordinal < old(
                self,
            ).requests().len() && old(self).requests()[ordinal as int] == JobState::Running),
            !accepted ==> *final(self) == *old(self),
            accepted ==> {
                &&& final(self).phase() == Phase::Fetching
                &&& final(self).manifest() == old(self).manifest()
                &&& final(self).requests() == old(self).requests().update(
                    ordinal as int,
                    JobState::Done,
                )
                &&& final(self).in_flight() + 1 == old(self).in_flight()
                &&& final(self).embedded() == old(self).embedded()
                &&& final(self).taken_up() == old(self).taken_up()
                &&& match verdict_of(status, body_len as nat) {
                    Some(reason) => {
                        &&& final(self).dropped() == old(self).dropped().push(
                            DroppedPage { ordinal, reason: DropReason::Fetch(reason) },
                        )
                        &&& final(self).ledger() == old(self).ledger()
                        &&& final(self).failure() == old(self).failure()
                    },
                    None => if stored {
                        &&& final(self).dropped() == old(self).dropped()
                        &&& final(self).failure() == old(self).failure()
                        &&& final(self).ledger().len() == old(self).ledger().len() + 1
                        &&& final(self).ledger().drop_last() == old(self).ledger()
                        &&& final(self).ledger().last().ordinal == ordinal
                        &&& final(self).ledger().last().byte_size == body_len
                        &&& final(self).ledger().last().local_path@ == staged_path_of(
                            namespace_of(old(self).chapter_id()),
                            ordinal_width_of(old(self).manifest().entries.len() as nat),
                            ordinal as nat,
                            old(self).manifest().entries[ordinal as int].remote_filename@,
                        )
                    } else {
                        &&& final(self).dropped() == old(self).dropped().push(
                            DroppedPage { ordinal, reason: DropReason::NotStored },
                        )
                        &&& final(self).ledger() == old(self).ledger()
                        &&& final(self).failure() == Some(ChapterError::Staging)
                    },
                }
            },
    {
        if self.phase != Phase::Fetching {
            return false;
        }
        if !self.pool.complete(ordinal) {
            return false;
        }
        let ghost before = *old(self);
        match judge_reply(status, body_len) {
            Err(reason) => {
                self.dropped.push(DroppedPage { ordinal, reason: DropReason::Fetch(reason) });
            },
            Ok(_) => {
                if stored {
                    let path = staged_path(
                        self.namespace.as_str(),
                        self.width,
                        ordinal,
                        self.manifest.entries[ordinal].remote_filename.as_str(),
                    );
                    self.staged.push(StagedPage { ordinal, local_path: path, byte_size: body_len });
                    proof {
                        assert(self.staged@.skip(0) =~= self.staged@);
                        assert(before.staged@.skip(0) =~= before.staged@);
                        assert(self.staged@.drop_last() =~= before.staged@);
                        assert forall|i: int| 0 <= i < self.staged.len() implies self.pool.states()[(
                        #[trigger] self.staged[i]).ordinal as int] == JobState::Done by {
                            if i < before.staged.len() {
                                assert(self.staged[i] == before.staged[i]);
                            }
                        }
                        assert forall|i: int, j: int|
                            0 <= i < j < self.staged.len() implies self.staged[i].ordinal
                            != self.staged[j].ordinal by {
                            assert(self.staged[i] == before.staged[i]);
                            if j < before.staged.len() {
                                assert(self.staged[j] == before.staged[j]);
                            }
                        }
                    }
                } else {
                    self.dropped.push(DroppedPage { ordinal, reason: DropReason::NotStored });
                    self.failure = Some(ChapterError::Staging);
                }
            },
        }
        true
    }

    /// Takes the bytes of the staged file that `LoadStaged` asked for;
    /// `None` where it could not be read. The page is embedded as the next
    /// page of the document, or dropped where it cannot be. Either way the
    /// staged file has served: the call returns its path, and the caller
    /// deletes it at once. Outside the assembly of a page the call returns
    /// `None` and changes nothing.
    pub fn page_loaded(&mut self, bytes: Option<Vec<u8>>) -> (r: Option<String>)
        requires
            old(self).wf(),
        ensures
            final(self).wf(),
            final(self).chapter_id() == old(self).chapter_id(),
            final(self).chapter_number() == old(self).chapter_number(),
            final(self).capacity() == old(self).capacity(),
            r is Some <==> old(self).phase() == Phase::Assembling && old(self).ledger().len() > 0,
            r is None ==> *final(self) == *old(self),
            r matches Some(path) ==> {
                let page = old(self).ledger()[0];
                &&& final(self).phase() == Phase::Assembling
                &&& final(self).manifest() == old(self).manifest()
                &&& final(self).in_flight() == 0
                &&& path@ == page.local_path@
                &&& final(self).ledger() == old(self).ledger().skip(1)
                &&& final(self).taken_up() == old(self).taken_up() + 1
                &&& final(self).failure() == old(self).failure()
                &&& match bytes {
                    None => {
                        &&& final(self).embedded() == old(self).embedded()
                        &&& final(self).dropped() == old(self).dropped().push(
                            DroppedPage { ordinal: page.ordinal, reason: DropReason::Unreadable },
                        )
                    },
                    Some(image) => match crate::assembler::embed_defect(
                        old(self).embedded().len(),
                        image@,
                    ) {
                        None => {
                            &&& final(self).embedded() == old(self).embedded().push(page.ordinal)
                            &&& final(self).dropped() == old(self).dropped()
                        },
                        Some(e) => {
                            &&& final(self).embedded() == old(self).embedded()
                            &&& final(self).dropped() == old(self).dropped().push(
                                DroppedPage {
                                    ordinal: page.ordinal,
                                    reason: DropReason::Assembly(e),
                                },
                            )
                        },
                    },
                }
            },
    {
        if self.phase != Phase::Assembling || self.cursor >= self.staged.len() {
            assert(self.phase == Phase::Assembling ==> self.staged@.skip(self.cursor as int).len()
                == 0);
            return None;
        }
        let ghost before = *old(self);
        let ordinal = self.staged[self.cursor].ordinal;
        let path = self.staged[self.cursor].local_path.clone();
        let embedded = match bytes {
            None => Err(DropReason::Unreadable),
            Some(image) => {
                let mut assembler = self.assembler.take().unwrap();
                let outcome = assembler.embed(image);
                self.assembler = Some(assembler);
                match outcome {
                    Ok(_) => Ok(()),
                    Err(e) => Err(DropReason::Assembly(e)),
                }
            },
        };
        match embedded {
            Ok(_) => {
                self.embedded.push(ordinal);
            },
            Err(reason) => {
                self.dropped.push(DroppedPage { ordinal, reason });
            },
        }
        self.cursor = self.cursor + 1;
        proof {
            assert(before.staged@.skip(before.cursor as int)[0] == before.staged@[before.cursor as int]);
            assert(self.staged@.skip(self.cursor as int) =~= before.staged@.skip(
                before.cursor as int,
            ).skip(1));
            if before.embedded.len() > 0 {
                assert(before.staged@[before.cursor - 1].ordinal <= before.staged@[before.cursor as int].ordinal);
                assert(before.staged@[before.cursor - 1].ordinal != before.staged@[before.cursor as int].ordinal);
            }
            assert forall|i: int, j: int| 0 <= i < j < self.embedded@.len() implies self.embedded@[i]
                < self.embedded@[j] by {
                if j < before.embedded@.len() {
                    assert(self.embedded@[i] == before.embedded@[i]);
                    assert(self.embedded@[j] == before.embedded@[j]);
                } else {
                    assert(self.embedded@[i] == before.embedded@[i]);
                    assert(before.embedded@[i] <= before.embedded@[before.embedded@.len() - 1]);
                }
            }
        }
        Some(path)
    }

    /// Takes the result of writing the document: `ok` says whether the
    /// file was written. This ends the chapter, with the number of pages
    /// in the document and the number of pages dropped, or with the
    /// failure to write. Outside the wait for the writing the call changes
    /// nothing.
    pub fn written(&mut self, ok: bool)
        requires
            old(self).wf(),
        ensures
            final(self).wf(),
            final(self).chapter_id() == old(self).chapter_id(),
            final(self).chapter_number() == old(self).chapter_number(),
            final(self).capacity() == old(self).capacity(),
            old(self).phase() != Phase::Writing ==> *final(self) == *old(self),
            old(self).phase() == Phase::Writing ==> {
                &&& final(self).phase() == Phase::Finished
                &&& final(self).manifest() == old(self).manifest()
                &&& final(self).embedded() == old(self).embedded()
                &&& final(self).dropped() == old(self).dropped()
                &&& final(self).ledger().len() == 0
                &&& final(self).taken_up() == old(self).taken_up()
                &&& final(self).failure() == old(self).failure()
                &&& final(self).outcome() == Some(
                    if ok {
                        ChapterOutcome::Success {
                            pages: old(self).embedded().len() as usize,
                            dropped: old(self).dropped().len() as usize,
                        }
                    } else {
                        ChapterOutcome::Failure(ChapterError::PdfWrite)
                    },
                )
            },
    {
        if self.phase != Phase::Writing {
            return ;
        }
        self.phase = Phase::Finished;
        if ok {
            self.outcome = Some(
                ChapterOutcome::Success { pages: self.embedded.len(), dropped: self.dropped.len() },
            );
        } else {
            self.outcome = Some(ChapterOutcome::Failure(ChapterError::PdfWrite));
        }
    }
}

impl ChapterPipeline {
    fn begin_assembly(&mut self)
        requires
            old(self).wf(),
            old(self).phase == Phase::Fetching,
            old(self).failure is None,
            old(self).pool.running() == 0,
            old(self).pool.done() == old(self).pool.states().len(),
        ensures
            final(self).wf(),
            final(self).same_chapter(old(self)),
            final(self).phase == Phase::Assembling,
            final(self).manifest == old(self).manifest,
            final(self).dropped == old(self).dropped,
            final(self).embedded == old(self).embedded,
            final(self).pool == old(self).pool,
            final(self).failure == old(self).failure,
            final(self).cursor == 0,
            crate::fetch::is_ordering_of(final(self).staged@, old(self).staged@),
    {
        let mut taken: Vec<StagedPage> = Vec::new();
        core::mem::swap(&mut self.staged, &mut taken);
        let ghost before = taken@;
        let ordered = order_pages(taken);
        proof {
            lemma_ordering_keeps_pages(ordered@, before);
            assert forall|i: int| 0 <= i < ordered.len() implies (#[trigger] ordered[i]).ordinal
                < self.manifest.entries.len() by {
                assert(ordered@.contains(ordered[i]));
                assert(before.contains(ordered[i]));
                let j = choose|j: int| 0 <= j < before.len() && before[j] == ordered[i];
                assert(before[j].ordinal < self.manifest.entries.len());
            }
        }
        self.staged = ordered;
        self.phase = Phase::Assembling;
    }

    /// Decides what the caller does next. In order: the manifest is asked
    /// for; pages are requested, lowest ordinal first, as long as a slot is
    /// free; once every request has ended the staged pages are put into
    /// manifest order and read back one by one; the finished document is
    /// handed out for writing; and the outcome is reported. A chapter that
    /// fails while pages are staged has each staged file deleted before it
    /// reports its failure. A document is handed out only if it has a
    /// page; with none, the chapter fails as empty.
    pub fn next_action(&mut self) -> (r: Action)
        requires
            old(self).wf(),
        ensures
            final(self).wf(),
            final(self).chapter_id() == old(self).chapter_id(),
            final(self).chapter_number() == old(self).chapter_number(),
            final(self).capacity() == old(self).capacity(),
            final(self).manifest() == old(self).manifest(),
            final(self).dropped() == old(self).dropped(),
            final(self).embedded() == old(self).embedded(),
            final(self).failure() == old(self).failure(),
            final(self).taken_up() == old(self).taken_up() + if r is DeleteStaged {
                1nat
            } else {
                0nat
            },
            old(self).phase() == Phase::Start ==> r is RequestManifest,
            old(self).phase() == Phase::AwaitingManifest || old(self).phase() == Phase::Writing
                ==> r is Wait,
            old(self).phase() == Phase::Assembling && old(self).ledger().len() > 0
                ==> r is LoadStaged,
            old(self).phase() == Phase::Cleaning && old(self).ledger().len() > 0
                ==> r is DeleteStaged,
            old(self).phase() == Phase::Finished ==> r is Done,
            old(self).phase() == Phase::Fetching && old(self).failure() is None && old(
                self,
            ).in_flight() < old(self).capacity() && (exists|i: int|
                0 <= i < old(self).requests().len() && old(self).requests()[i]
                    == JobState::Pending) ==> r is RequestPage,
            old(self).phase() == Phase::Fetching && old(self).in_flight() > 0 && (old(
                self,
            ).failure() is Some || old(self).in_flight() >= old(self).capacity() || forall|i: int|
                0 <= i < old(self).requests().len() ==> old(self).requests()[i]
                    != JobState::Pending) ==> r is Wait,
            match r {
                Action::RequestManifest { url } => {
                    &&& old(self).phase() == Phase::Start
                    &&& final(self).phase() == Phase::AwaitingManifest
                    &&& url@ == manifest_url_of(old(self).chapter_id())
                    &&& final(self).ledger() == old(self).ledger()
                },
                Action::RequestPage { ordinal, url, staged_path } => {
                    &&& old(self).phase() == Phase::Fetching
                    &&& final(self).phase() == Phase::Fetching
                    &&& old(self).failure() is None
                    &&& old(self).in_flight() < old(self).capacity()
                    &&& final(self).in_flight() == old(self).in_flight() + 1
                    &&& ordinal < old(self).manifest().entries.len()
                    &&& old(self).requests()[ordinal as int] == JobState::Pending
                    &&& forall|i: int| 0 <= i < ordinal ==> old(self).requests()[i] != JobState::Pending
                    &&& final(self).requests() == old(self).requests().update(
                        ordinal as int,
                        JobState::Running,
                    )
                    &&& url@ == page_url_of(
                        old(self).manifest().base_url@,
                        old(self).manifest().hash@,
                        old(self).manifest().entries[ordinal as int].remote_filename@,
                    )
                    &&& staged_path@ == staged_path_of(
                        namespace_of(old(self).chapter_id()),
                        ordinal_width_of(old(self).manifest().entries.len() as nat),
                        ordinal as nat,
                        old(self).manifest().entries[ordinal as int].remote_filename@,
                    )
                    &&& final(self).ledger() == old(self).ledger()
                },
                Action::Wait => {
                    &&& *final(self) == *old(self)
                    &&& old(self).phase() == Phase::AwaitingManifest || old(self).phase()
                        == Phase::Writing || (old(self).phase() == Phase::Fetching && old(
                        self,
                    ).in_flight() > 0)
                },
                Action::LoadStaged { path } => {
                    &&& old(self).phase() == Phase::Fetching || old(self).phase()
                        == Phase::Assembling
                    &&& final(self).phase() == Phase::Assembling
                    &&& final(self).in_flight() == 0
                    &&& crate::fetch::is_ordering_of(final(self).ledger(), old(self).ledger())
                    &&& final(self).ledger().len() > 0
                    &&& path@ == final(self).ledger()[0].local_path@
                },
                Action::DeleteStaged { path } => {
                    &&& final(self).phase() == Phase::Cleaning
                    &&& final(self).in_flight() == 0
                    &&& old(self).failure() is Some
                    &&& old(self).ledger().len() > 0
                    &&& path@ == old(self).ledger()[0].local_path@
                    &&& final(self).ledger() == old(self).ledger().skip(1)
                },
                Action::WriteOutput { file_name, bytes } => {
                    &&& old(self).phase() == Phase::Assembling
                    &&& final(self).phase() == Phase::Writing
                    &&& old(self).ledger().len() == 0
                    &&& final(self).ledger().len() == 0
                    &&& final(self).embedded().len() >= 1
                    &&& file_name@ == output_name_of(old(self).chapter_number())
                    &&& exists|document: PdfDocument| #[trigger]
                        document.wf() && document.pages().len() == final(self).embedded().len()
                            && document.saved() == Some(bytes@)
                },
                Action::Done(outcome) => {
                    &&& final(self).phase() == Phase::Finished
                    &&& final(self).outcome() == Some(outcome)
                    &&& old(self).ledger().len() == 0
                    &&& final(self).ledger().len() == 0
                    &&& old(self).phase() != Phase::Finished ==> (outcome matches ChapterOutcome::Failure(
                        e,
                    ) && match old(self).failure() {
                        Some(reason) => e == reason,
                        None => (e == ChapterError::EmptyChapter && old(self).embedded().len() == 0)
                            || (e == ChapterError::PdfWrite && old(self).embedded().len() > 0
                            && exists|document: PdfDocument| #[trigger]
                                document.wf() && document.pages().len() == old(
                                    self,
                                ).embedded().len() && document.saved() is None),
                    })
                },
            },
    {
        if self.phase == Phase::Start {
            self.phase = Phase::AwaitingManifest;
            return Action::RequestManifest { url: manifest_url(self.chapter.id.as_str()) };
        }
        if self.phase == Phase::AwaitingManifest || self.phase == Phase::Writing {
            return Action::Wait;
        }
        if self.phase == Phase::Fetching {
            if self.failure.is_none() {
                proof {
                    self.pool.lemma_first_pending();
                }
                match self.pool.next_step() {
                    PoolStep::Start(job) => {
                        let entry = &self.manifest.entries[job];
                        let url = page_url(
                            self.manifest.base_url.as_str(),
                            self.manifest.hash.as_str(),
                            entry.remote_filename.as_str(),
                        );
                        let path = staged_path(
                            self.namespace.as_str(),
                            self.width,
                            job,
                            entry.remote_filename.as_str(),
                        );
                        proof {
                            assert forall|i: int| 0 <= i < self.staged.len() implies self.pool.states()[(
                            #[trigger] self.staged[i]).ordinal as int] == JobState::Done by {
                                assert(old(self).pool.states()[self.staged[i].ordinal as int]
                                    == JobState::Done);
                            }
                        }
                        return Action::RequestPage { ordinal: job, url, staged_path: path };
                    },
                    PoolStep::Wait => {
                        return Action::Wait;
                    },
                    PoolStep::Finished => {
                        self.begin_assembly();
                        proof {
                            assert(old(self).staged@.skip(0) =~= old(self).staged@);
                            assert(self.staged@.skip(0) =~= self.staged@);
                        }
                    },
                }
            } else {
                if self.pool.in_flight() > 0 {
                    return Action::Wait;
                }
                self.phase = Phase::Cleaning;
            }
        }
        if self.phase == Phase::Assembling {
            if self.cursor < self.staged.len() {
                proof {
                    let suffix = self.staged@.skip(self.cursor as int);
                    assert forall|i: int, j: int| 0 <= i < j < suffix.len() implies suffix[i].ordinal
                        <= suffix[j].ordinal by {
                        assert(suffix[i] == self.staged@[self.cursor + i]);
                        assert(suffix[j] == self.staged@[self.cursor + j]);
                    }
                }
                return Action::LoadStaged { path: self.staged[self.cursor].local_path.clone() };
            }
            let assembler = self.assembler.take().unwrap();
            match assembler.finish() {
                Err(_) => {
                    self.phase = Phase::Finished;
                    self.outcome = Some(ChapterOutcome::Failure(ChapterError::EmptyChapter));
                },
                Ok(document) => {
                    let ghost finished = document;
                    match document.to_bytes() {
                        Err(_) => {
                            self.phase = Phase::Finished;
                            self.outcome = Some(ChapterOutcome::Failure(ChapterError::PdfWrite));
                            assert(finished.wf() && finished.pages().len() == self.embedded@.len()
                                && finished.saved() is None);
                        },
                        Ok(bytes) => {
                            self.phase = Phase::Writing;
                            assert(finished.wf() && finished.pages().len() == self.embedded@.len()
                                && finished.saved() == Some(bytes@));
                            return Action::WriteOutput {
                                file_name: output_name(self.chapter.number.as_str()),
                                bytes,
                            };
                        },
                    }
                },
            }
        }
        if self.phase == Phase::Cleaning {
            if self.cursor < self.staged.len() {
                let path = self.staged[self.cursor].local_path.clone();
                proof {
                    assert(self.staged@.skip(self.cursor as int)[0] == self.staged@[self.cursor as int]);
                    assert(self.staged@.skip(self.cursor + 1) =~= self.staged@.skip(
                        self.cursor as int,
                    ).skip(1));
                }
                self.cursor = self.cursor + 1;
                return Action::DeleteStaged { path };
            }
            let reason = self.failure.unwrap();
            self.fail(reason);
        }
        Action::Done(self.outcome.unwrap())
    }

    /// Bounded concurrency: in every state of a pipeline, the number of
    /// page requests under way is at most its capacity.
    pub proof fn lemma_requests_within_capacity(&self)
        requires
            self.wf(),
        ensures
            self.in_flight() <= self.capacity(),
    {
        self.pool.lemma_running_within_capacity();
    }

    /// Storage reclamation: a pipeline that has ended, in success or in
    /// failure, has handed out every staged file for deletion, and no
    /// request of it is under way.
    pub proof fn lemma_nothing_staged_at_the_end(&self)
        requires
            self.wf(),
            self.phase() == Phase::Finished,
        ensures
            self.ledger().len() == 0,
            self.in_flight() == 0,
            self.outcome() is Some,
    {
    }

    /// What a success reports: the document has at least one page, the
    /// reported numbers are those of the pages in the document and of the
    /// pages dropped, and together they are the pages of the manifest.
    pub proof fn lemma_success_accounts_for_every_page(&self)
        requires
            self.wf(),
            self.outcome() matches Some(ChapterOutcome::Success { .. }),
        ensures
            self.outcome() matches Some(ChapterOutcome::Success { pages, dropped }) && pages >= 1
                && pages == self.embedded().len() && dropped == self.dropped().len() && pages
                + dropped == self.manifest().entries.len(),
    {
    }

    /// Zero-page refusal: while no page is in the document the chapter has
    /// not succeeded, whatever state the pipeline is in.
    pub proof fn lemma_no_page_no_success(&self)
        requires
            self.wf(),
            self.embedded().len() == 0,
        ensures
            !(self.outcome() matches Some(ChapterOutcome::Success { .. })),
            self.phase() != Phase::Writing,
    {
    }

    /// Page order: in every state the pages of the document stand by
    /// rising ordinal, whatever the order in which their fetches ended.
    pub proof fn lemma_document_in_manifest_order(&self)
        requires
            self.wf(),
        ensures
            rising(self.embedded()),
            forall|k: int|
                0 <= k < self.embedded().len() ==> self.embedded()[k]
                    < self.manifest().entries.len(),
    {
    }

    /// A chapter without drops is complete: where a success reports no
    /// dropped page, the document has one page for each entry of the
    /// manifest, and its page at position `i` is the one with ordinal `i`.
    pub proof fn lemma_no_drop_means_every_page_in_place(&self)
        requires
            self.wf(),
            self.outcome() matches Some(ChapterOutcome::Success { pages, dropped }) && dropped == 0,
        ensures
            self.embedded().len() == self.manifest().entries.len(),
            forall|i: int| 0 <= i < self.embedded().len() ==> self.embedded()[i] == i,
    {
        lemma_rising_and_full(self.embedded@);
    }
}

} // verus!
