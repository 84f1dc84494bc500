use manga_pdf::coordinator::{
    CoordinatorStep, DownloadCoordinator, DEFAULT_CHAPTER_WORKERS, DEFAULT_PAGE_WORKERS,
};
use manga_pdf::pipeline::{ChapterError, ChapterOutcome};

#[test]
fn coordinator_needs_both_bounds() {
    assert!(DownloadCoordinator::new(3, 0, 10).is_none());
    assert!(DownloadCoordinator::new(3, 2, 0).is_none());
    assert!(DownloadCoordinator::new(0, 1, 1).is_some());
}

#[test]
fn defaults_cap_the_connections() {
    assert_eq!(DEFAULT_PAGE_WORKERS, 10);
    let coordinator =
        DownloadCoordinator::new(100, DEFAULT_CHAPTER_WORKERS, DEFAULT_PAGE_WORKERS).unwrap();
    assert_eq!(coordinator.page_capacity(), 10);
    assert_eq!(coordinator.connection_limit(), DEFAULT_CHAPTER_WORKERS * 10);
    let wide = DownloadCoordinator::new(1, usize::MAX, 2).unwrap();
    assert_eq!(wide.connection_limit(), usize::MAX);
}

#[test]
fn chapters_start_in_order_within_the_bound() {
    let mut coordinator = DownloadCoordinator::new(5, 2, 10).unwrap();
    assert_eq!(coordinator.next_step(), CoordinatorStep::Start(0));
    assert_eq!(coordinator.next_step(), CoordinatorStep::Start(1));
    assert_eq!(coordinator.next_step(), CoordinatorStep::Wait);
    assert!(coordinator.chapter_finished(1, ChapterOutcome::Success { pages: 3, dropped: 0 }));
    assert_eq!(coordinator.next_step(), CoordinatorStep::Start(2));
    assert_eq!(coordinator.next_step(), CoordinatorStep::Wait);
    assert_eq!(coordinator.outcome_of(1), Some(ChapterOutcome::Success { pages: 3, dropped: 0 }));
    assert_eq!(coordinator.outcome_of(0), None);
    assert_eq!(coordinator.outcome_of(9), None);
}

#[test]
fn a_failed_chapter_stops_no_other() {
    let mut coordinator = DownloadCoordinator::new(3, 3, 10).unwrap();
    for expected in 0..3 {
        assert_eq!(coordinator.next_step(), CoordinatorStep::Start(expected));
    }
    let failure = ChapterOutcome::Failure(ChapterError::EmptyChapter);
    assert!(coordinator.chapter_finished(1, failure));
    assert!(!coordinator.chapter_finished(1, failure));
    assert!(!coordinator.chapter_finished(7, failure));
    assert_eq!(coordinator.next_step(), CoordinatorStep::Wait);
    assert!(coordinator.chapter_finished(0, ChapterOutcome::Success { pages: 1, dropped: 2 }));
    assert!(coordinator.chapter_finished(2, ChapterOutcome::Success { pages: 9, dropped: 0 }));
    assert_eq!(coordinator.next_step(), CoordinatorStep::Finished);
    assert_eq!(coordinator.outcome_of(0), Some(ChapterOutcome::Success { pages: 1, dropped: 2 }));
    assert_eq!(coordinator.outcome_of(1), Some(failure));
    assert_eq!(coordinator.outcome_of(2), Some(ChapterOutcome::Success { pages: 9, dropped: 0 }));
}

#[test]
fn download_without_chapters_has_finished() {
    let mut coordinator = DownloadCoordinator::new(0, 4, 10).unwrap();
    assert_eq!(coordinator.next_step(), CoordinatorStep::Finished);
}
