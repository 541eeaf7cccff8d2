//! The background job queue: which job runs next, and what the reader's
//! requests do to the work already queued.
//!
//! The queue is a priority queue ordered by [`JobPriority`] and, within one
//! priority, by arrival. Render jobs carry a cancellation handle and a reply
//! channel of the caller's choosing (`C`, `R`), OCR jobs a reply channel (`O`);
//! the queue never looks inside them.
use vstd::prelude::*;

verus! {

#[derive(Debug, Clone, Copy, PartialEq, Eq, Structural, PartialOrd, Ord)]
pub enum JobPriority {
    CacheEviction,
    OcrTranslation,
    CoverGeneration,
    Indexing,
    ReaderPrefetch,
    Interactive,
}

pub open spec fn rank(p: JobPriority) -> int {
    match p {
        JobPriority::CacheEviction => 0,
        JobPriority::OcrTranslation => 1,
        JobPriority::CoverGeneration => 2,
        JobPriority::Indexing => 3,
        JobPriority::ReaderPrefetch => 4,
        JobPriority::Interactive => 5,
    }
}

impl JobPriority {
    /// Position in the scheduling order: higher runs first.
    pub fn rank(&self) -> (r: u8)
        ensures
            r == rank(*self),
    {
        match self {
            JobPriority::CacheEviction => 0,
            JobPriority::OcrTranslation => 1,
            JobPriority::CoverGeneration => 2,
            JobPriority::Indexing => 3,
            JobPriority::ReaderPrefetch => 4,
            JobPriority::Interactive => 5,
        }
    }
}

pub enum JobKind<C, R, O> {
    ScanRoot { root_id: i64, path: String },
    Indexing { chapter_id: i64, file_path: String },
    CoverGeneration { series_id: i64, chapter_id: i64, file_path: String },
    DimensionAnalysis { series_id: i64 },
    RenderPage {
        chapter_id: i64,
        file_path: String,
        page_index: i32,
        target_width: u32,
        priority: JobPriority,
        cancel_token: C,
        reply: Option<R>,
    },
    CacheEviction { chapter_id: i64, current_page: i32, window: i32 },
    OcrTranslation {
        chapter_id: i64,
        page_index: i32,
        engine_id: String,
        translator_id: String,
        reply: Option<O>,
    },
    FileHash { chapter_id: i64, file_path: String },
}

/// Jobs that count toward indexing progress.
pub open spec fn is_index_kind<C, R, O>(job: JobKind<C, R, O>) -> bool {
    ||| job is ScanRoot
    ||| job is Indexing
    ||| job is CoverGeneration
    ||| job is DimensionAnalysis
    ||| job is FileHash
}

/// The priority a job is queued at: render jobs carry their own.
pub open spec fn priority_of<C, R, O>(job: JobKind<C, R, O>) -> JobPriority {
    match job {
        JobKind::RenderPage { priority, .. } => priority,
        JobKind::ScanRoot { .. } | JobKind::Indexing { .. } | JobKind::FileHash { .. } => {
            JobPriority::Indexing
        },
        JobKind::CoverGeneration { .. } | JobKind::DimensionAnalysis { .. } => {
            JobPriority::CoverGeneration
        },
        JobKind::CacheEviction { .. } => JobPriority::CacheEviction,
        JobKind::OcrTranslation { .. } => JobPriority::OcrTranslation,
    }
}

pub fn is_index_job<C, R, O>(job: &JobKind<C, R, O>) -> (r: bool)
    ensures
        r == is_index_kind(*job),
{
    match job {
        JobKind::ScanRoot { .. } => true,
        JobKind::Indexing { .. } => true,
        JobKind::CoverGeneration { .. } => true,
        JobKind::DimensionAnalysis { .. } => true,
        JobKind::FileHash { .. } => true,
        _ => false,
    }
}

pub fn job_priority<C, R, O>(job: &JobKind<C, R, O>) -> (p: JobPriority)
    ensures
        p == priority_of(*job),
{
    match job {
        JobKind::RenderPage { priority, .. } => *priority,
        JobKind::ScanRoot { .. } => JobPriority::Indexing,
        JobKind::Indexing { .. } => JobPriority::Indexing,
        JobKind::FileHash { .. } => JobPriority::Indexing,
        JobKind::CoverGeneration { .. } => JobPriority::CoverGeneration,
        JobKind::DimensionAnalysis { .. } => JobPriority::CoverGeneration,
        JobKind::CacheEviction { .. } => JobPriority::CacheEviction,
        JobKind::OcrTranslation { .. } => JobPriority::OcrTranslation,
    }
}

/// Only a page render can be queued ahead of prefetching: every other kind of job
/// runs below the reader's prefetches, each at its own fixed level (indexing and
/// hashing, then covers and dimension analysis, then OCR, then cache eviction).
pub proof fn lemma_background_jobs_below_prefetch<C, R, O>(job: JobKind<C, R, O>)
    ensures
        !(job is RenderPage) ==> rank(priority_of(job)) < rank(JobPriority::ReaderPrefetch),
        priority_of(job) == JobPriority::Interactive ==> job is RenderPage,
        (job is ScanRoot || job is Indexing || job is FileHash) ==> priority_of(job)
            == JobPriority::Indexing,
        (job is CoverGeneration || job is DimensionAnalysis) ==> priority_of(job)
            == JobPriority::CoverGeneration,
        job is OcrTranslation ==> priority_of(job) == JobPriority::OcrTranslation,
        job is CacheEviction ==> priority_of(job) == JobPriority::CacheEviction,
        job matches JobKind::RenderPage { priority, .. } ==> priority_of(job) == priority,
{
}

/// A queued job with its priority and arrival number.
pub struct QueuedJob<C, R, O> {
    pub priority: JobPriority,
    pub seq: u64,
    pub job: JobKind<C, R, O>,
}

/// `a` is taken off the queue before `b`: higher priority first, then earlier arrival.
pub open spec fn runs_before<C, R, O>(a: QueuedJob<C, R, O>, b: QueuedJob<C, R, O>) -> bool {
    rank(a.priority) > rank(b.priority) || (rank(a.priority) == rank(b.priority) && a.seq
        < b.seq)
}

/// `q[i]` is the job that runs before every other queued job.
pub open spec fn is_next<C, R, O>(q: Seq<QueuedJob<C, R, O>>, i: int) -> bool {
    &&& 0 <= i < q.len()
    &&& forall|j: int| 0 <= j < q.len() && j != i ==> runs_before(q[i], #[trigger] q[j])
}

/// Reader prefetches of `chapter_id` that lie more than `window` pages from `keep_page`
/// (all of them when there is no page to keep).
pub open spec fn is_stale_prefetch<C, R, O>(
    job: JobKind<C, R, O>,
    chapter_id: i64,
    keep_page: Option<i32>,
    window: i32,
) -> bool {
    match job {
        JobKind::RenderPage { chapter_id: cid, page_index, priority, .. } => {
            &&& cid == chapter_id
            &&& priority == JobPriority::ReaderPrefetch
            &&& match keep_page {
                Some(p) => {
                    let d = page_index - p;
                    (if d < 0 {
                        -d
                    } else {
                        d
                    }) > window
                },
                None => true,
            }
        },
        _ => false,
    }
}

/// `page_index - keep_page` and its absolute value fit in `i32` for every queued render job.
pub open spec fn distances_fit<C, R, O>(q: Seq<QueuedJob<C, R, O>>, keep_page: Option<i32>) -> bool {
    forall|i: int|
        0 <= i < q.len() ==> match (#[trigger] q[i]).job {
            JobKind::RenderPage { page_index, .. } => match keep_page {
                Some(p) => i32::MIN < page_index - p <= i32::MAX,
                None => true,
            },
            _ => true,
        }
}

pub struct JobQueue<C, R, O> {
    items: Vec<QueuedJob<C, R, O>>,
    seq: u64,
    pending: u32,
    index_pending: u32,
    index_processed: u32,
    index_failed: u32,
    interactive_pending: u32,
}

impl<C, R, O> JobQueue<C, R, O> {
    /// The queued jobs, in no particular order.
    pub closed spec fn jobs(&self) -> Seq<QueuedJob<C, R, O>> {
        self.items@
    }

    /// The last arrival number handed out.
    pub closed spec fn last_seq(&self) -> u64 {
        self.seq
    }

    pub closed spec fn pending_spec(&self) -> u32 {
        self.pending
    }

    pub closed spec fn index_pending_spec(&self) -> u32 {
        self.index_pending
    }

    pub closed spec fn index_processed_spec(&self) -> u32 {
        self.index_processed
    }

    pub closed spec fn index_failed_spec(&self) -> u32 {
        self.index_failed
    }

    pub closed spec fn interactive_pending_spec(&self) -> u32 {
        self.interactive_pending
    }

    /// Arrival numbers are distinct and none is later than the last one handed out,
    /// and the pending count is the number of queued jobs (counted modulo 2^32, as
    /// the 32-bit counter wraps).
    pub open spec fn wf(&self) -> bool {
        &&& self.pending_spec() as int == self.jobs().len() as int % 0x1_0000_0000
        &&& forall|i: int|
            0 <= i < self.jobs().len() ==> (#[trigger] self.jobs()[i]).seq <= self.last_seq()
        &&& forall|i: int, j: int|
            0 <= i < self.jobs().len() && 0 <= j < self.jobs().len() && i != j
                ==> #[trigger] self.jobs()[i].seq != #[trigger] self.jobs()[j].seq
    }

    pub fn new() -> (q: Self)
        ensures
            q.wf(),
            q.jobs().len() == 0,
            q.last_seq() == 0,
            q.pending_spec() == 0,
            q.index_pending_spec() == 0,
            q.index_processed_spec() == 0,
            q.index_failed_spec() == 0,
            q.interactive_pending_spec() == 0,
    {
        JobQueue {
            items: Vec::new(),
            seq: 0,
            pending: 0,
            index_pending: 0,
            index_processed: 0,
            index_failed: 0,
            interactive_pending: 0,
        }
    }

    /// Queues `job` at its priority with the next arrival number.
    pub fn enqueue(&mut self, job: JobKind<C, R, O>)
        requires
            old(self).wf(),
            old(self).last_seq() < u64::MAX,
        ensures
            final(self).wf(),
            final(self).last_seq() == old(self).last_seq() + 1,
            final(self).jobs() == old(self).jobs().push(
                QueuedJob { priority: priority_of(job), seq: final(self).last_seq(), job },
            ),
            final(self).pending_spec() == old(self).pending_spec().wrapping_add(1),
            final(self).index_pending_spec() == if is_index_kind(job) {
                old(self).index_pending_spec().wrapping_add(1)
            } else {
                old(self).index_pending_spec()
            },
            final(self).interactive_pending_spec() == if priority_of(job)
                == JobPriority::Interactive {
                old(self).interactive_pending_spec().wrapping_add(1)
            } else {
                old(self).interactive_pending_spec()
            },
            final(self).index_processed_spec() == old(self).index_processed_spec(),
            final(self).index_failed_spec() == old(self).index_failed_spec(),
    {
        if is_index_job(&job) {
            self.index_pending = self.index_pending.wrapping_add(1);
        }
        let priority = job_priority(&job);
        if priority == JobPriority::Interactive {
            self.interactive_pending = self.interactive_pending.wrapping_add(1);
        }
        self.seq = self.seq + 1;
        let item = QueuedJob { priority, seq: self.seq, job };
        self.items.push(item);
        self.pending = self.pending.wrapping_add(1);
    }

    /// The last arrival number handed out.
    pub fn last_arrival(&self) -> (r: u64)
        ensures
            r == self.last_seq(),
    {
        self.seq
    }

    /// How many jobs are queued.
    pub fn job_count(&self) -> (r: usize)
        ensures
            r == self.jobs().len(),
    {
        self.items.len()
    }

    /// A job taken off with this arrival number can be put back: the number was
    /// handed out and no queued job carries it.
    pub fn arrival_free(&self, seq: u64) -> (r: bool)
        ensures
            r == (seq <= self.last_seq() && forall|i: int|
                0 <= i < self.jobs().len() ==> (#[trigger] self.jobs()[i]).seq != seq),
    {
        if seq > self.seq {
            return false;
        }
        let mut i: usize = 0;
        while i < self.items.len()
            invariant
                i <= self.items@.len(),
                forall|k: int| 0 <= k < i ==> (#[trigger] self.items@[k]).seq != seq,
            decreases self.items@.len() - i,
        {
            if self.items[i].seq == seq {
                return false;
            }
            i = i + 1;
        }
        true
    }

    /// Whether every queued render job's distance from `keep_page` fits in `i32`.
    pub fn prefetch_distances_fit(&self, keep_page: Option<i32>) -> (r: bool)
        ensures
            r == distances_fit(self.jobs(), keep_page),
    {
        let p = match keep_page {
            Some(p) => p,
            None => return true,
        };
        let mut i: usize = 0;
        while i < self.items.len()
            invariant
                i <= self.items@.len(),
                keep_page == Some(p),
                forall|k: int|
                    0 <= k < i ==> match (#[trigger] self.items@[k]).job {
                        JobKind::RenderPage { page_index, .. } => i32::MIN < page_index - p
                            <= i32::MAX,
                        _ => true,
                    },
            decreases self.items@.len() - i,
        {
            match &self.items[i].job {
                JobKind::RenderPage { page_index, .. } => {
                    let d: i64 = *page_index as i64 - p as i64;
                    let lo: i64 = -2147483648;
                    let hi: i64 = 2147483647;
                    if !(lo < d && d <= hi) {
                        return false;
                    }
                },
                _ => {},
            }
            i = i + 1;
        }
        true
    }

    pub fn has_interactive_pending(&self) -> (r: bool)
        ensures
            r == (self.interactive_pending_spec() > 0),
    {
        self.interactive_pending > 0
    }

    pub fn pending_count(&self) -> (r: u32)
        ensures
            r == self.pending_spec(),
    {
        self.pending
    }

    pub fn index_pending_count(&self) -> (r: u32)
        ensures
            r == self.index_pending_spec(),
    {
        self.index_pending
    }

    pub fn index_processed_count(&self) -> (r: u32)
        ensures
            r == self.index_processed_spec(),
    {
        self.index_processed
    }

    pub fn index_failed_count(&self) -> (r: u32)
        ensures
            r == self.index_failed_spec(),
    {
        self.index_failed
    }

    pub fn record_index_failure(&mut self)
        ensures
            final(self).index_failed_spec() == old(self).index_failed_spec().wrapping_add(1),
            final(self).jobs() == old(self).jobs(),
            final(self).last_seq() == old(self).last_seq(),
            final(self).pending_spec() == old(self).pending_spec(),
            final(self).index_pending_spec() == old(self).index_pending_spec(),
            final(self).index_processed_spec() == old(self).index_processed_spec(),
            final(self).interactive_pending_spec() == old(self).interactive_pending_spec(),
    {
        self.index_failed = self.index_failed.wrapping_add(1);
    }

    pub fn record_index_processed(&mut self)
        ensures
            final(self).index_processed_spec() == old(self).index_processed_spec().wrapping_add(
                1,
            ),
            final(self).jobs() == old(self).jobs(),
            final(self).last_seq() == old(self).last_seq(),
            final(self).pending_spec() == old(self).pending_spec(),
            final(self).index_pending_spec() == old(self).index_pending_spec(),
            final(self).index_failed_spec() == old(self).index_failed_spec(),
            final(self).interactive_pending_spec() == old(self).interactive_pending_spec(),
    {
        self.index_processed = self.index_processed.wrapping_add(1);
    }

    /// Takes the job that runs next off the queue: the highest priority, and among
    /// those the earliest queued.
    pub fn pop_next(&mut self) -> (r: Option<QueuedJob<C, R, O>>)
        requires
            old(self).wf(),
        ensures
            final(self).wf(),
            final(self).last_seq() == old(self).last_seq(),
            final(self).index_processed_spec() == old(self).index_processed_spec(),
            final(self).index_failed_spec() == old(self).index_failed_spec(),
            old(self).jobs().len() == 0 <==> r is None,
            r is None ==> *final(self) == *old(self),
            r matches Some(e) ==> exists|i: int|
                {
                    &&& is_next(old(self).jobs(), i)
                    &&& e == old(self).jobs()[i]
                    &&& final(self).jobs() == old(self).jobs().remove(i)
                },
            r matches Some(e) ==> {
                &&& final(self).pending_spec() == old(self).pending_spec().wrapping_sub(1)
                &&& final(self).index_pending_spec() == if is_index_kind(e.job) {
                    old(self).index_pending_spec().wrapping_sub(1)
                } else {
                    old(self).index_pending_spec()
                }
                &&& final(self).interactive_pending_spec() == if e.priority
                    == JobPriority::Interactive {
                    old(self).interactive_pending_spec().wrapping_sub(1)
                } else {
                    old(self).interactive_pending_spec()
                }
            },
    {
        if self.items.len() == 0 {
            return None;
        }
        let mut best: usize = 0;
        let mut i: usize = 1;
        while i < self.items.len()
            invariant
                self.wf(),
                1 <= i <= self.items@.len(),
                best < i,
                forall|j: int|
                    0 <= j < i && j != best ==> runs_before(
                        self.items@[best as int],
                        #[trigger] self.items@[j],
                    ),
            decreases self.items@.len() - i,
        {
            let rb = self.items[best].priority.rank();
            let ri = self.items[i].priority.rank();
            if ri > rb || (ri == rb && self.items[i].seq < self.items[best].seq) {
                proof {
                    assert(self.items@[i as int].seq != self.items@[best as int].seq);
                }
                best = i;
            } else {
                proof {
                    assert(self.items@[i as int].seq != self.items@[best as int].seq);
                }
            }
            i = i + 1;
        }
        let ghost before = self.items@;
        let item = self.items.remove(best);
        proof {
            assert(is_next(before, best as int));
            assert forall|a: int| 0 <= a < self.items@.len() implies (
            #[trigger] self.items@[a]).seq <= self.seq by {
                if a < best {
                    assert(self.items@[a] == before[a]);
                } else {
                    assert(self.items@[a] == before[a + 1]);
                }
            }
            assert forall|a: int, b: int|
                0 <= a < self.items@.len() && 0 <= b < self.items@.len() && a != b
                    implies #[trigger] self.items@[a].seq != #[trigger] self.items@[b].seq by {
                let a2 = if a < best {
                    a
                } else {
                    a + 1
                };
                let b2 = if b < best {
                    b
                } else {
                    b + 1
                };
                assert(self.items@[a] == before[a2]);
                assert(self.items@[b] == before[b2]);
            }
        }
        self.pending = self.pending.wrapping_sub(1);
        if is_index_job(&item.job) {
            self.index_pending = self.index_pending.wrapping_sub(1);
        }
        if item.priority == JobPriority::Interactive {
            self.interactive_pending = self.interactive_pending.wrapping_sub(1);
        }
        Some(item)
    }

    /// Whether a job of `priority` waits while the reader waits on a page: OCR,
    /// cache eviction and cover generation never start then.
    pub fn should_defer(&self, priority: JobPriority) -> (r: bool)
        ensures
            r == (self.interactive_pending_spec() > 0 && (priority == JobPriority::OcrTranslation
                || priority == JobPriority::CacheEviction || priority
                == JobPriority::CoverGeneration)),
    {
        self.has_interactive_pending() && (priority == JobPriority::OcrTranslation || priority
            == JobPriority::CacheEviction || priority == JobPriority::CoverGeneration)
    }

    /// Puts a job taken by `pop_next` back, keeping its priority and arrival number.
    pub fn requeue(&mut self, item: QueuedJob<C, R, O>)
        requires
            old(self).wf(),
            item.seq <= old(self).last_seq(),
            forall|i: int|
                0 <= i < old(self).jobs().len() ==> (#[trigger] old(self).jobs()[i]).seq
                    != item.seq,
        ensures
            final(self).wf(),
            final(self).last_seq() == old(self).last_seq(),
            final(self).jobs() == old(self).jobs().push(item),
            final(self).pending_spec() == old(self).pending_spec().wrapping_add(1),
            final(self).interactive_pending_spec() == if item.priority
                == JobPriority::Interactive {
                old(self).interactive_pending_spec().wrapping_add(1)
            } else {
                old(self).interactive_pending_spec()
            },
            final(self).index_pending_spec() == old(self).index_pending_spec(),
            final(self).index_processed_spec() == old(self).index_processed_spec(),
            final(self).index_failed_spec() == old(self).index_failed_spec(),
    {
        if item.priority == JobPriority::Interactive {
            self.interactive_pending = self.interactive_pending.wrapping_add(1);
        }
        self.items.push(item);
        self.pending = self.pending.wrapping_add(1);
    }

    /// Drops the reader prefetches of `chapter_id` that lie more than `window` pages from
    /// `keep_page` (all of them without a page to keep) and hands them back so their
    /// callers can be told; every other job stays queued in order.
    pub fn cancel_prefetch(&mut self, chapter_id: i64, keep_page: Option<i32>, window: i32) -> (dropped: Vec<QueuedJob<C, R, O>>)
        requires
            old(self).wf(),
            distances_fit(old(self).jobs(), keep_page),
            old(self).jobs().len() <= u32::MAX,
        ensures
            final(self).wf(),
            final(self).last_seq() == old(self).last_seq(),
            final(self).jobs() == old(self).jobs().filter(
                |e: QueuedJob<C, R, O>| !is_stale_prefetch(e.job, chapter_id, keep_page, window),
            ),
            dropped@ == old(self).jobs().filter(
                |e: QueuedJob<C, R, O>| is_stale_prefetch(e.job, chapter_id, keep_page, window),
            ),
            final(self).pending_spec() == if dropped@.len() > 0 {
                old(self).pending_spec().wrapping_sub(dropped@.len() as u32)
            } else {
                old(self).pending_spec()
            },
            final(self).index_pending_spec() == old(self).index_pending_spec(),
            final(self).index_processed_spec() == old(self).index_processed_spec(),
            final(self).index_failed_spec() == old(self).index_failed_spec(),
            final(self).interactive_pending_spec() == old(self).interactive_pending_spec(),
    {
        let ghost orig = self.items@;
        let ghost keep_pred = |e: QueuedJob<C, R, O>|
            !is_stale_prefetch(e.job, chapter_id, keep_page, window);
        let ghost drop_pred = |e: QueuedJob<C, R, O>|
            is_stale_prefetch(e.job, chapter_id, keep_page, window);
        let mut rest: Vec<QueuedJob<C, R, O>> = Vec::new();
        std::mem::swap(&mut rest, &mut self.items);
        let mut kept: Vec<QueuedJob<C, R, O>> = Vec::new();
        let mut dropped: Vec<QueuedJob<C, R, O>> = Vec::new();
        let ghost mut i: int = 0;
        assert(orig.take(0) =~= Seq::<QueuedJob<C, R, O>>::empty());
        assert(rest@ =~= orig.skip(0));
        while rest.len() > 0
            invariant
                0 <= i <= orig.len(),
                keep_pred == (|e: QueuedJob<C, R, O>|
                    !is_stale_prefetch(e.job, chapter_id, keep_page, window)),
                drop_pred == (|e: QueuedJob<C, R, O>|
                    is_stale_prefetch(e.job, chapter_id, keep_page, window)),
                rest@ == orig.skip(i),
                kept@ == orig.take(i).filter(keep_pred),
                dropped@ == orig.take(i).filter(drop_pred),
                kept@.len() + dropped@.len() == i,
                distances_fit(orig, keep_page),
                forall|a: int|
                    0 <= a < kept@.len() ==> exists|k: int|
                        0 <= k < i && #[trigger] kept@[a] == orig[k],
                forall|a: int, b: int|
                    0 <= a < kept@.len() && 0 <= b < kept@.len() && a != b
                        ==> #[trigger] kept@[a].seq != #[trigger] kept@[b].seq,
                forall|a: int, b: int|
                    0 <= a < orig.len() && 0 <= b < orig.len() && a != b
                        ==> #[trigger] orig[a].seq != #[trigger] orig[b].seq,
                forall|a: int| 0 <= a < orig.len() ==> (#[trigger] orig[a]).seq <= self.seq,
                self.items@.len() == 0,
            decreases rest@.len(),
        {
            let item = rest.remove(0);
            proof {
                assert(item == orig[i]);
                assert(orig.take(i + 1) =~= orig.take(i).push(orig[i]));
                orig.take(i).lemma_filter_push(orig[i], keep_pred);
                orig.take(i).lemma_filter_push(orig[i], drop_pred);
            }
            let stale = match &item.job {
                JobKind::RenderPage { chapter_id: cid, page_index, priority, .. } => {
                    if *cid == chapter_id && *priority == JobPriority::ReaderPrefetch {
                        match keep_page {
                            Some(p) => {
                                proof {
                                    assert(match (orig[i]).job {
                                        JobKind::RenderPage { page_index, .. } => match keep_page {
                                            Some(p) => i32::MIN < page_index - p <= i32::MAX,
                                            None => true,
                                        },
                                        _ => true,
                                    });
                                }
                                let d = *page_index - p;
                                let ad = if d < 0 {
                                    -d
                                } else {
                                    d
                                };
                                ad > window
                            },
                            None => true,
                        }
                    } else {
                        false
                    }
                },
                _ => false,
            };
            assert(stale == is_stale_prefetch(item.job, chapter_id, keep_page, window));
            if stale {
                dropped.push(item);
            } else {
                proof {
                    assert forall|a: int| 0 <= a < kept@.len() implies kept@[a].seq != item.seq by {
                        let k = choose|k: int| 0 <= k < i && kept@[a] == orig[k];
                    }
                }
                let ghost old_kept = kept@;
                kept.push(item);
                proof {
                    assert forall|a: int| 0 <= a < kept@.len() implies exists|k: int|
                        0 <= k < i + 1 && #[trigger] kept@[a] == orig[k] by {
                        if a < old_kept.len() {
                            assert(kept@[a] == old_kept[a]);
                            let k = choose|k: int| 0 <= k < i && old_kept[a] == orig[k];
                        } else {
                            assert(kept@[a] == orig[i]);
                        }
                    }
                }
            }
            proof {
                assert(keep_pred(orig[i]) == !stale);
                assert(drop_pred(orig[i]) == stale);
                assert(orig.take(i + 1).filter(keep_pred) == if keep_pred(orig[i]) {
                    orig.take(i).filter(keep_pred).push(orig[i])
                } else {
                    orig.take(i).filter(keep_pred)
                });
                assert(orig.take(i + 1).filter(drop_pred) == if drop_pred(orig[i]) {
                    orig.take(i).filter(drop_pred).push(orig[i])
                } else {
                    orig.take(i).filter(drop_pred)
                });
                i = i + 1;
                assert(rest@ =~= orig.skip(i));
            }
        }
        proof {
            assert(orig.take(i) =~= orig);
            assert forall|a: int| 0 <= a < kept@.len() implies (#[trigger] kept@[a]).seq
                <= self.seq by {
                assert(exists|k: int| 0 <= k < i && #[trigger] kept@[a] == orig[k]);
                let k = choose|k: int| 0 <= k < i && kept@[a] == orig[k];
                assert(orig[k].seq <= self.seq);
            }
        }
        self.items = kept;
        if dropped.len() > 0 {
            self.pending = self.pending.wrapping_sub(dropped.len() as u32);
        }
        dropped
    }
}

/// Of two queued jobs with different arrival numbers, exactly one is taken first.
pub proof fn lemma_runs_before_total<C, R, O>(a: QueuedJob<C, R, O>, b: QueuedJob<C, R, O>)
    requires
        a.seq != b.seq,
    ensures
        runs_before(a, b) != runs_before(b, a),
{
}

/// Jobs of the same priority are taken in the order they were queued.
pub proof fn lemma_same_priority_fifo<C, R, O>(a: QueuedJob<C, R, O>, b: QueuedJob<C, R, O>)
    requires
        a.priority == b.priority,
        a.seq < b.seq,
    ensures
        runs_before(a, b),
        !runs_before(b, a),
{
}

/// A job is never taken while one of higher priority is queued.
pub proof fn lemma_higher_priority_first<C, R, O>(q: Seq<QueuedJob<C, R, O>>, i: int)
    requires
        is_next(q, i),
    ensures
        forall|j: int| 0 <= j < q.len() ==> rank((#[trigger] q[j]).priority) <= rank(q[i].priority),
{
    assert forall|j: int| 0 <= j < q.len() implies rank((#[trigger] q[j]).priority) <= rank(
        q[i].priority,
    ) by {
        if j != i {
            assert(runs_before(q[i], q[j]));
        }
    }
}

/// In a queue whose arrival numbers are distinct, at most one job is next.
pub proof fn lemma_next_unique<C, R, O>(q: Seq<QueuedJob<C, R, O>>, i: int, j: int)
    requires
        forall|a: int, b: int|
            0 <= a < q.len() && 0 <= b < q.len() && a != b ==> #[trigger] q[a].seq
                != #[trigger] q[b].seq,
        is_next(q, i),
        is_next(q, j),
    ensures
        i == j,
{
    if i != j {
        assert(runs_before(q[i], q[j]));
        assert(runs_before(q[j], q[i]));
        lemma_runs_before_total(q[i], q[j]);
    }
}

// ---------------------------------------------------------------------------
// The desktop reader's page requests
// ---------------------------------------------------------------------------

/// How a page the desktop reader asks for is answered.
#[derive(Debug, Clone, Copy, PartialEq, Eq, Structural)]
pub enum PageServe {
    /// From the page cache.
    Cached,
    /// Queued as a prefetch job; the request itself is answered with "prefetch".
    QueuePrefetch,
    /// Rendered now and stored in the cache.
    RenderNow,
}

/// The steps of one page request: how it is served, how far from the page queued
/// prefetches are kept (the others are cancelled first), and the window of pages
/// the cache keeps when eviction is queued afterwards.
#[derive(Debug, Clone, Copy, PartialEq, Eq, Structural)]
pub struct PageRequestPlan {
    pub serve: PageServe,
    pub cancel_window: Option<i32>,
    pub evict_window: Option<i32>,
}

/// A prefetch request is served from the cache or queued, and touches nothing else.
/// A page the reader waits on first cancels prefetches more than two pages away,
/// is served from the cache or rendered now, and then queues eviction of pages
/// more than five away.
pub open spec fn page_request_plan_of(prefetch: Option<bool>, cached: bool) -> PageRequestPlan {
    if prefetch == Some(true) {
        PageRequestPlan {
            serve: if cached {
                PageServe::Cached
            } else {
                PageServe::QueuePrefetch
            },
            cancel_window: None,
            evict_window: None,
        }
    } else {
        PageRequestPlan {
            serve: if cached {
                PageServe::Cached
            } else {
                PageServe::RenderNow
            },
            cancel_window: Some(2),
            evict_window: Some(5),
        }
    }
}

pub fn page_request_plan(prefetch: Option<bool>, cached: bool) -> (r: PageRequestPlan)
    ensures
        r == page_request_plan_of(prefetch, cached),
{
    let is_prefetch = match prefetch {
        Some(b) => b,
        None => false,
    };
    if is_prefetch {
        PageRequestPlan {
            serve: if cached {
                PageServe::Cached
            } else {
                PageServe::QueuePrefetch
            },
            cancel_window: None,
            evict_window: None,
        }
    } else {
        PageRequestPlan {
            serve: if cached {
                PageServe::Cached
            } else {
                PageServe::RenderNow
            },
            cancel_window: Some(2),
            evict_window: Some(5),
        }
    }
}

} // verus!
