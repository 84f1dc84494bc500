use manga_pdf::fetch::{judge_reply, order_pages, PageFetchFailure, StagedPage};

fn staged(ordinal: usize, name: &str) -> StagedPage {
    StagedPage { ordinal, local_path: format!("ns/{:04}_{}", ordinal, name), byte_size: 10 + ordinal }
}

fn ordinals(pages: &[StagedPage]) -> Vec<usize> {
    pages.iter().map(|page| page.ordinal).collect()
}

#[test]
fn reply_is_kept_only_with_success_and_a_body() {
    assert_eq!(judge_reply(Some(200), 1), Ok(()));
    assert_eq!(judge_reply(Some(299), 123456), Ok(()));
    assert_eq!(judge_reply(None, 0), Err(PageFetchFailure::Unreachable));
    assert_eq!(judge_reply(None, 50), Err(PageFetchFailure::Unreachable));
    assert_eq!(judge_reply(Some(404), 50), Err(PageFetchFailure::Status(404)));
    assert_eq!(judge_reply(Some(199), 50), Err(PageFetchFailure::Status(199)));
    assert_eq!(judge_reply(Some(300), 50), Err(PageFetchFailure::Status(300)));
    assert_eq!(judge_reply(Some(500), 0), Err(PageFetchFailure::Status(500)));
    assert_eq!(judge_reply(Some(200), 0), Err(PageFetchFailure::EmptyBody));
}

#[test]
fn completion_order_p2_p1_p3_is_put_back_into_manifest_order() {
    let arrived = vec![staged(1, "p2.jpg"), staged(0, "p1.png"), staged(2, "p3.png")];
    let ordered = order_pages(arrived);
    let paths: Vec<&str> = ordered.iter().map(|page| page.local_path.as_str()).collect();
    assert_eq!(paths, vec!["ns/0000_p1.png", "ns/0001_p2.jpg", "ns/0002_p3.png"]);
    assert_eq!(ordinals(&ordered), vec![0, 1, 2]);
    assert_eq!(ordered[1].byte_size, 11);
}

#[test]
fn every_completion_order_gives_the_same_sequence() {
    let orders: [[usize; 4]; 6] =
        [[0, 1, 2, 3], [3, 2, 1, 0], [2, 0, 3, 1], [1, 3, 0, 2], [0, 3, 1, 2], [3, 0, 2, 1]];
    for order in orders {
        let arrived: Vec<StagedPage> = order.iter().map(|o| staged(*o, "x.png")).collect();
        let ordered = order_pages(arrived);
        assert_eq!(ordinals(&ordered), vec![0, 1, 2, 3]);
    }
}

#[test]
fn a_dropped_page_leaves_a_gap_without_placeholder() {
    let arrived = vec![staged(4, "e"), staged(0, "a"), staged(3, "d"), staged(1, "b")];
    let ordered = order_pages(arrived);
    assert_eq!(ordinals(&ordered), vec![0, 1, 3, 4]);
}

#[test]
fn ordering_nothing_gives_nothing() {
    assert!(order_pages(Vec::new()).is_empty());
}

#[test]
fn ordering_keeps_ordinals_beyond_the_padding_width() {
    let arrived = vec![staged(10000, "b"), staged(9999, "a")];
    assert_eq!(ordinals(&order_pages(arrived)), vec![9999, 10000]);
}
