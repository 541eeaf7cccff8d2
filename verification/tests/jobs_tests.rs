use shelf::jobs::{is_index_job, job_priority, JobKind, JobPriority, JobQueue};
use shelf::jobs::{page_request_plan, PageRequestPlan, PageServe};

type Kind = JobKind<u8, u8, u8>;

fn render(chapter_id: i64, page_index: i32, priority: JobPriority) -> Kind {
    JobKind::RenderPage {
        chapter_id,
        file_path: "c.pdf".into(),
        page_index,
        target_width: 1200,
        priority,
        cancel_token: 0,
        reply: None,
    }
}

#[test]
fn jobs_run_by_priority_then_arrival() {
    let mut q: JobQueue<u8, u8, u8> = JobQueue::new();
    q.enqueue(JobKind::DimensionAnalysis { series_id: 1 });
    q.enqueue(JobKind::Indexing { chapter_id: 1, file_path: "a".into() });
    q.enqueue(render(1, 0, JobPriority::Interactive));
    q.enqueue(JobKind::Indexing { chapter_id: 2, file_path: "b".into() });
    assert_eq!(q.pending_count(), 4);
    assert_eq!(q.index_pending_count(), 3);
    assert!(q.has_interactive_pending());

    let first = q.pop_next().unwrap();
    assert_eq!(first.priority, JobPriority::Interactive);
    assert!(!q.has_interactive_pending());
    let second = q.pop_next().unwrap();
    assert!(matches!(second.job, JobKind::Indexing { chapter_id: 1, .. }));
    let third = q.pop_next().unwrap();
    assert!(matches!(third.job, JobKind::Indexing { chapter_id: 2, .. }));
    assert!(second.seq < third.seq);
    let fourth = q.pop_next().unwrap();
    assert_eq!(fourth.priority, JobPriority::CoverGeneration);
    assert!(matches!(fourth.job, JobKind::DimensionAnalysis { .. }));
    assert!(q.pop_next().is_none());
    assert_eq!(q.pending_count(), 0);
}

#[test]
fn background_work_waits_for_the_reader() {
    let mut q: JobQueue<u8, u8, u8> = JobQueue::new();
    q.enqueue(render(1, 0, JobPriority::Interactive));
    assert!(q.should_defer(JobPriority::OcrTranslation));
    assert!(q.should_defer(JobPriority::CacheEviction));
    assert!(q.should_defer(JobPriority::CoverGeneration));
    assert!(!q.should_defer(JobPriority::Indexing));
    let taken = q.pop_next().unwrap();
    assert!(!q.should_defer(JobPriority::OcrTranslation));
    let seq = taken.seq;
    q.requeue(taken);
    assert_eq!(q.pop_next().unwrap().seq, seq);
}

#[test]
fn stale_prefetches_are_cancelled() {
    let mut q: JobQueue<u8, u8, u8> = JobQueue::new();
    q.enqueue(render(7, 1, JobPriority::ReaderPrefetch));
    q.enqueue(render(7, 20, JobPriority::ReaderPrefetch));
    q.enqueue(render(8, 50, JobPriority::ReaderPrefetch));
    q.enqueue(render(7, 30, JobPriority::Interactive));
    let dropped = q.cancel_prefetch(7, Some(2), 4);
    assert_eq!(dropped.len(), 1);
    assert!(matches!(dropped[0].job, JobKind::RenderPage { page_index: 20, .. }));
    assert_eq!(q.pending_count(), 3);
    let all = q.cancel_prefetch(7, None, 4);
    assert_eq!(all.len(), 1);
    assert_eq!(q.pending_count(), 2);
}

#[test]
fn job_kinds_have_fixed_priorities() {
    assert_eq!(job_priority(&JobKind::<u8, u8, u8>::ScanRoot { root_id: 1, path: "/".into() }), JobPriority::Indexing);
    assert_eq!(
        job_priority(&JobKind::<u8, u8, u8>::CacheEviction { chapter_id: 1, current_page: 0, window: 4 }),
        JobPriority::CacheEviction
    );
    assert_eq!(job_priority(&render(1, 1, JobPriority::ReaderPrefetch)), JobPriority::ReaderPrefetch);
    assert!(is_index_job(&JobKind::<u8, u8, u8>::FileHash { chapter_id: 1, file_path: "x".into() }));
    assert!(!is_index_job(&render(1, 1, JobPriority::Interactive)));
    assert!(JobPriority::Interactive.rank() > JobPriority::ReaderPrefetch.rank());
    assert!(JobPriority::Indexing > JobPriority::CoverGeneration);
}

#[test]
fn index_counters() {
    let mut q: JobQueue<u8, u8, u8> = JobQueue::new();
    q.record_index_processed();
    q.record_index_failure();
    q.record_index_failure();
    assert_eq!(q.index_processed_count(), 1);
    assert_eq!(q.index_failed_count(), 2);
}

#[test]
fn page_requests_prefetch_or_render() {
    assert_eq!(
        page_request_plan(Some(true), false),
        PageRequestPlan { serve: PageServe::QueuePrefetch, cancel_window: None, evict_window: None }
    );
    assert_eq!(
        page_request_plan(Some(true), true),
        PageRequestPlan { serve: PageServe::Cached, cancel_window: None, evict_window: None }
    );
    assert_eq!(
        page_request_plan(None, false),
        PageRequestPlan { serve: PageServe::RenderNow, cancel_window: Some(2), evict_window: Some(5) }
    );
    assert_eq!(
        page_request_plan(Some(false), true),
        PageRequestPlan { serve: PageServe::Cached, cancel_window: Some(2), evict_window: Some(5) }
    );
}
