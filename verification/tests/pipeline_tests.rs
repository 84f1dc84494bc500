use manga_pdf::fetch::{judge_reply, DropReason, DroppedPage, PageFetchFailure};
use manga_pdf::assembler::AssemblyError;
use manga_pdf::manifest::MetadataError;
use manga_pdf::pipeline::{Action, Chapter, ChapterError, ChapterOutcome, ChapterPipeline, Phase};
use std::collections::HashMap;

fn png(width: u32, height: u32) -> Vec<u8> {
    let picture = image::RgbImage::new(width, height);
    let mut out = std::io::Cursor::new(Vec::new());
    picture.write_to(&mut out, image::ImageFormat::Png).unwrap();
    out.into_inner()
}

fn chapter(id: &str, number: &str) -> Chapter {
    Chapter { id: id.to_string(), number: number.to_string(), display_name: "A title".to_string() }
}

fn manifest_body(names: &[&str]) -> Vec<u8> {
    let list: Vec<String> = names.iter().map(|name| format!("\"{}\"", name)).collect();
    format!(
        "{{\"baseUrl\":\"https://host.example\",\"chapter\":{{\"hash\":\"h4sh\",\"data\":[{}]}}}}",
        list.join(",")
    )
    .into_bytes()
}

struct Run {
    manifest_url: String,
    outcome: ChapterOutcome,
    requested: Vec<(usize, String, String)>,
    files: HashMap<String, Vec<u8>>,
    loaded: Vec<String>,
    deleted: Vec<String>,
    written: Option<(String, Vec<u8>)>,
    peak_in_flight: usize,
}

/// Drives a pipeline to its end. `replies` gives the reply to each page
/// request by ordinal; `completion` ranks the ordinals by the order in which
/// their requests end; `store_fails` names the ordinals whose body cannot be
/// written to the staging area.
fn drive(
    pipeline: &mut ChapterPipeline,
    manifest: (Option<u16>, Vec<u8>),
    replies: &[(Option<u16>, Vec<u8>)],
    completion: &[usize],
    store_fails: &[usize],
    write_ok: bool,
) -> Run {
    let mut run = Run {
        manifest_url: String::new(),
        outcome: ChapterOutcome::Failure(ChapterError::NoWorkers),
        requested: Vec::new(),
        files: HashMap::new(),
        loaded: Vec::new(),
        deleted: Vec::new(),
        written: None,
        peak_in_flight: 0,
    };
    let mut in_flight: Vec<(usize, String)> = Vec::new();
    let mut manifest_pending = false;
    let mut write_pending = false;
    for _ in 0..10_000 {
        match pipeline.next_action() {
            Action::RequestManifest { url } => {
                run.manifest_url = url;
                manifest_pending = true;
            }
            Action::RequestPage { ordinal, url, staged_path } => {
                run.requested.push((ordinal, url, staged_path.clone()));
                in_flight.push((ordinal, staged_path));
            }
            Action::Wait => {
                if manifest_pending {
                    manifest_pending = false;
                    pipeline.manifest_reply(manifest.0, &manifest.1);
                } else if write_pending {
                    write_pending = false;
                    pipeline.written(write_ok);
                } else {
                    let rank = |ordinal: usize| completion.iter().position(|o| *o == ordinal).unwrap();
                    let next = (0..in_flight.len()).min_by_key(|i| rank(in_flight[*i].0)).unwrap();
                    let (ordinal, path) = in_flight.remove(next);
                    let (status, body) = &replies[ordinal];
                    let keep = judge_reply(*status, body.len()).is_ok();
                    let stored = keep && !store_fails.contains(&ordinal);
                    if stored {
                        assert!(run.files.insert(path, body.clone()).is_none());
                    }
                    assert!(pipeline.page_reply(ordinal, *status, body.len(), stored));
                }
            }
            Action::LoadStaged { path } => {
                run.loaded.push(path.clone());
                let bytes = run.files.get(&path).cloned();
                let gone = pipeline.page_loaded(bytes).unwrap();
                assert_eq!(gone, path);
                assert!(run.files.remove(&gone).is_some());
                run.deleted.push(gone);
            }
            Action::DeleteStaged { path } => {
                assert!(run.files.remove(&path).is_some());
                run.deleted.push(path);
            }
            Action::WriteOutput { file_name, bytes } => {
                assert!(run.written.is_none());
                run.written = Some((file_name, bytes));
                write_pending = true;
            }
            Action::Done(outcome) => {
                run.outcome = outcome;
                assert_eq!(pipeline.result(), Some(outcome));
                assert_eq!(pipeline.current_phase(), Phase::Finished);
                assert!(in_flight.is_empty());
                return run;
            }
        }
        assert_eq!(pipeline.requests_in_flight(), in_flight.len());
        run.peak_in_flight = run.peak_in_flight.max(in_flight.len());
    }
    panic!("the pipeline did not end");
}

fn page_sizes(pdf: &[u8]) -> Vec<(i64, i64)> {
    let document = lopdf::Document::load_mem(pdf).unwrap();
    document
        .get_pages()
        .values()
        .map(|page| {
            let media_box = document
                .get_dictionary(*page)
                .unwrap()
                .get(b"MediaBox")
                .unwrap()
                .as_array()
                .unwrap();
            (media_box[2].as_i64().unwrap(), media_box[3].as_i64().unwrap())
        })
        .collect()
}

fn ok(body: Vec<u8>) -> (Option<u16>, Vec<u8>) {
    (Some(200), body)
}

#[test]
fn three_pages_completing_out_of_order_come_out_in_manifest_order() {
    let mut pipeline = ChapterPipeline::new(chapter("chapter-1", "7"), 10).ok().unwrap();
    let replies = [ok(png(10, 11)), ok(png(20, 21)), ok(png(30, 31))];
    let run = drive(
        &mut pipeline,
        ok(manifest_body(&["p1.png", "p2.jpg", "p3.png"])),
        &replies,
        &[1, 0, 2],
        &[],
        true,
    );
    assert_eq!(run.outcome, ChapterOutcome::Success { pages: 3, dropped: 0 });
    assert_eq!(run.manifest_url, "https://api.mangadex.org/at-home/server/chapter-1");
    assert_eq!(
        run.requested,
        vec![
            (
                0,
                "https://host.example/data/h4sh/p1.png".to_string(),
                "cchapter-1/0000_p1.png".to_string()
            ),
            (
                1,
                "https://host.example/data/h4sh/p2.jpg".to_string(),
                "cchapter-1/0001_p2.jpg".to_string()
            ),
            (
                2,
                "https://host.example/data/h4sh/p3.png".to_string(),
                "cchapter-1/0002_p3.png".to_string()
            ),
        ]
    );
    assert_eq!(
        run.loaded,
        vec!["cchapter-1/0000_p1.png", "cchapter-1/0001_p2.jpg", "cchapter-1/0002_p3.png"]
    );
    let (name, bytes) = run.written.unwrap();
    assert_eq!(name, "Chapter_7.pdf");
    assert_eq!(page_sizes(&bytes), vec![(10, 11), (20, 21), (30, 31)]);
    assert!(run.files.is_empty());
    assert_eq!(run.deleted.len(), 3);
    assert_eq!(run.peak_in_flight, 3);
}

#[test]
fn every_completion_order_gives_the_same_document() {
    let orders: [[usize; 4]; 5] =
        [[0, 1, 2, 3], [3, 2, 1, 0], [2, 0, 3, 1], [1, 3, 0, 2], [3, 0, 2, 1]];
    for order in orders {
        let mut pipeline = ChapterPipeline::new(chapter("chapter-1", "1"), 10).ok().unwrap();
        let replies = [ok(png(1, 2)), ok(png(3, 4)), ok(png(5, 6)), ok(png(7, 8))];
        let run = drive(
            &mut pipeline,
            ok(manifest_body(&["d.png", "c.png", "b.png", "a.png"])),
            &replies,
            &order,
            &[],
            true,
        );
        assert_eq!(run.outcome, ChapterOutcome::Success { pages: 4, dropped: 0 });
        assert_eq!(page_sizes(&run.written.unwrap().1), vec![(1, 2), (3, 4), (5, 6), (7, 8)]);
    }
}

#[test]
fn a_failed_page_is_dropped_and_counted() {
    let mut pipeline = ChapterPipeline::new(chapter("chapter-1", "2"), 10).ok().unwrap();
    let replies = [
        ok(png(1, 1)),
        ok(png(2, 2)),
        (Some(503), b"busy".to_vec()),
        ok(png(4, 4)),
        ok(png(5, 5)),
    ];
    let run = drive(
        &mut pipeline,
        ok(manifest_body(&["1.png", "2.png", "3.png", "4.png", "5.png"])),
        &replies,
        &[4, 2, 0, 3, 1],
        &[],
        true,
    );
    assert_eq!(run.outcome, ChapterOutcome::Success { pages: 4, dropped: 1 });
    assert_eq!(page_sizes(&run.written.unwrap().1), vec![(1, 1), (2, 2), (4, 4), (5, 5)]);
    assert_eq!(pipeline.dropped_count(), 1);
    assert_eq!(
        pipeline.dropped_page(0),
        Some(DroppedPage {
            ordinal: 2,
            reason: DropReason::Fetch(PageFetchFailure::Status(503))
        })
    );
    assert_eq!(pipeline.dropped_page(1), None);
    assert!(run.files.is_empty());
}

#[test]
fn each_kind_of_page_failure_drops_the_page() {
    let mut pipeline = ChapterPipeline::new(chapter("chapter-1", "3"), 2).ok().unwrap();
    let replies = [
        (None, Vec::new()),
        (Some(200), Vec::new()),
        ok(b"no image at all".to_vec()),
        ok(png(9, 9)),
    ];
    let run = drive(
        &mut pipeline,
        ok(manifest_body(&["a", "b", "c", "d"])),
        &replies,
        &[0, 1, 2, 3],
        &[],
        true,
    );
    assert_eq!(run.outcome, ChapterOutcome::Success { pages: 1, dropped: 3 });
    let dropped: Vec<DroppedPage> = (0..3).map(|i| pipeline.dropped_page(i).unwrap()).collect();
    assert_eq!(
        dropped,
        vec![
            DroppedPage { ordinal: 0, reason: DropReason::Fetch(PageFetchFailure::Unreachable) },
            DroppedPage { ordinal: 1, reason: DropReason::Fetch(PageFetchFailure::EmptyBody) },
            DroppedPage { ordinal: 2, reason: DropReason::Assembly(AssemblyError::ImageDecode) },
        ]
    );
    assert_eq!(run.deleted, vec!["cchapter-1/0002_c", "cchapter-1/0003_d"]);
    assert!(run.files.is_empty());
    assert_eq!(run.peak_in_flight, 2);
}

#[test]
fn a_chapter_without_any_page_writes_no_document() {
    let mut pipeline = ChapterPipeline::new(chapter("chapter-1", "4"), 10).ok().unwrap();
    let replies = [(Some(404), Vec::new()), (None, Vec::new()), ok(b"junk".to_vec())];
    let run = drive(
        &mut pipeline,
        ok(manifest_body(&["a", "b", "c"])),
        &replies,
        &[2, 1, 0],
        &[],
        true,
    );
    assert_eq!(run.outcome, ChapterOutcome::Failure(ChapterError::EmptyChapter));
    assert!(run.written.is_none());
    assert!(run.files.is_empty());
    assert_eq!(pipeline.dropped_count(), 3);
}

#[test]
fn an_empty_manifest_is_an_empty_chapter() {
    let mut pipeline = ChapterPipeline::new(chapter("chapter-1", "5"), 10).ok().unwrap();
    let run = drive(&mut pipeline, ok(manifest_body(&[])), &[], &[], &[], true);
    assert_eq!(run.outcome, ChapterOutcome::Failure(ChapterError::EmptyChapter));
    assert!(run.written.is_none());
    assert!(run.requested.is_empty());
}

#[test]
fn a_manifest_that_cannot_be_resolved_fails_the_chapter() {
    let cases: Vec<((Option<u16>, Vec<u8>), MetadataError)> = vec![
        ((None, Vec::new()), MetadataError::Unreachable),
        ((Some(500), manifest_body(&["a"])), MetadataError::Status(500)),
        ((Some(200), b"<html>".to_vec()), MetadataError::NotJson),
        ((Some(200), b"{}".to_vec()), MetadataError::MissingBaseUrl),
    ];
    for (reply, expected) in cases {
        let mut pipeline = ChapterPipeline::new(chapter("chapter-1", "6"), 10).ok().unwrap();
        let run = drive(&mut pipeline, reply, &[], &[], &[], true);
        assert_eq!(run.outcome, ChapterOutcome::Failure(ChapterError::Metadata(expected)));
        assert!(run.requested.is_empty());
        assert!(run.written.is_none());
    }
}

#[test]
fn a_page_that_cannot_be_staged_fails_the_chapter_and_cleans_up() {
    let mut pipeline = ChapterPipeline::new(chapter("chapter-1", "8"), 2).ok().unwrap();
    let replies = [ok(png(1, 1)), ok(png(2, 2)), ok(png(3, 3)), ok(png(4, 4))];
    let run = drive(
        &mut pipeline,
        ok(manifest_body(&["a", "b", "c", "d"])),
        &replies,
        &[0, 1, 2, 3],
        &[1],
        true,
    );
    assert_eq!(run.outcome, ChapterOutcome::Failure(ChapterError::Staging));
    assert!(run.written.is_none());
    assert!(run.loaded.is_empty());
    assert!(run.files.is_empty());
    assert_eq!(run.requested.len(), 3);
    assert_eq!(run.deleted, vec!["cchapter-1/0000_a", "cchapter-1/0002_c"]);
    assert_eq!(
        pipeline.dropped_page(0),
        Some(DroppedPage { ordinal: 1, reason: DropReason::NotStored })
    );
}

#[test]
fn a_document_that_cannot_be_written_fails_the_chapter() {
    let mut pipeline = ChapterPipeline::new(chapter("chapter-1", "9"), 10).ok().unwrap();
    let run =
        drive(&mut pipeline, ok(manifest_body(&["a"])), &[ok(png(1, 1))], &[0], &[], false);
    assert_eq!(run.outcome, ChapterOutcome::Failure(ChapterError::PdfWrite));
    assert!(run.files.is_empty());
}

#[test]
fn requests_under_way_never_exceed_the_capacity() {
    let names: Vec<String> = (0..25).map(|i| format!("{}.png", i)).collect();
    let names: Vec<&str> = names.iter().map(|name| name.as_str()).collect();
    let replies: Vec<(Option<u16>, Vec<u8>)> = (0..25).map(|i| ok(png(i + 1, 1))).collect();
    let completion: Vec<usize> = (0..25).rev().collect();
    let mut pipeline = ChapterPipeline::new(chapter("chapter-1", "10"), 10).ok().unwrap();
    let run = drive(&mut pipeline, ok(manifest_body(&names)), &replies, &completion, &[], true);
    assert_eq!(run.outcome, ChapterOutcome::Success { pages: 25, dropped: 0 });
    assert_eq!(run.peak_in_flight, 10);
    let sizes: Vec<(i64, i64)> = (0..25).map(|i| (i + 1, 1)).collect();
    assert_eq!(page_sizes(&run.written.unwrap().1), sizes);
}

#[test]
fn pipeline_needs_a_worker() {
    assert_eq!(ChapterPipeline::new(chapter("abc", "1"), 0).err(), Some(ChapterError::NoWorkers));
    assert!(ChapterPipeline::new(chapter("abc", "1"), 1).is_ok());
}

#[test]
fn any_chapter_identifier_gets_a_namespace_of_its_own() {
    let mut first = ChapterPipeline::new(chapter("a/b", "1"), 10).ok().unwrap();
    let mut second = ChapterPipeline::new(chapter("a_b", "1"), 10).ok().unwrap();
    let replies = [ok(png(1, 1))];
    let one = drive(&mut first, ok(manifest_body(&["p.png"])), &replies, &[0], &[], true);
    let two = drive(&mut second, ok(manifest_body(&["p.png"])), &replies, &[0], &[], true);
    assert_eq!(one.manifest_url, "https://api.mangadex.org/at-home/server/a/b");
    assert_eq!(one.outcome, ChapterOutcome::Success { pages: 1, dropped: 0 });
    assert_eq!(two.outcome, ChapterOutcome::Success { pages: 1, dropped: 0 });
    assert_eq!(one.deleted, vec!["ca_0000047b/0000_p.png"]);
    assert_eq!(two.deleted, vec!["ca_0000095b/0000_p.png"]);
}

#[test]
fn failed_requests_never_keep_the_rest_from_being_sent() {
    let names: Vec<String> = (0..7).map(|i| format!("{}.png", i)).collect();
    let names: Vec<&str> = names.iter().map(|name| name.as_str()).collect();
    let mut replies: Vec<(Option<u16>, Vec<u8>)> =
        vec![(None, Vec::new()), (Some(500), Vec::new()), (Some(200), Vec::new())];
    for i in 3..7 {
        replies.push(ok(png(i + 1, 1)));
    }
    let completion: Vec<usize> = (0..7).collect();
    let mut pipeline = ChapterPipeline::new(chapter("chapter-1", "11"), 3).ok().unwrap();
    let run = drive(&mut pipeline, ok(manifest_body(&names)), &replies, &completion, &[], true);
    assert_eq!(run.requested.len(), 7);
    assert_eq!(run.peak_in_flight, 3);
    assert_eq!(run.outcome, ChapterOutcome::Success { pages: 4, dropped: 3 });
}

#[test]
fn progress_counts_the_pages_taken_up() {
    let mut pipeline = ChapterPipeline::new(chapter("chapter-1", "12"), 10).ok().unwrap();
    assert_eq!(pipeline.progress(), (0, 0));
    assert!(matches!(pipeline.next_action(), Action::RequestManifest { .. }));
    pipeline.manifest_reply(Some(200), &manifest_body(&["a", "b", "c"]));
    for ordinal in 0..3 {
        assert!(matches!(pipeline.next_action(), Action::RequestPage { .. }));
        assert!(pipeline.page_reply(ordinal, Some(200), 9, true));
        assert_eq!(pipeline.progress(), (0, ordinal + 1));
    }
    for taken in 0..3 {
        assert!(matches!(pipeline.next_action(), Action::LoadStaged { .. }));
        assert_eq!(pipeline.progress(), (taken, 3));
        assert!(pipeline.page_loaded(Some(png(2, 2))).is_some());
        assert_eq!(pipeline.progress(), (taken + 1, 3));
    }
    assert!(matches!(pipeline.next_action(), Action::WriteOutput { .. }));
    assert_eq!(pipeline.progress(), (3, 3));
}

#[test]
fn events_out_of_turn_change_nothing() {
    let mut pipeline = ChapterPipeline::new(chapter("chapter-1", "1"), 10).ok().unwrap();
    pipeline.manifest_reply(Some(200), &manifest_body(&["a"]));
    assert_eq!(pipeline.current_phase(), Phase::Start);
    assert!(!pipeline.page_reply(0, Some(200), 5, true));
    assert!(pipeline.page_loaded(Some(png(1, 1))).is_none());
    pipeline.written(true);
    assert_eq!(pipeline.current_phase(), Phase::Start);
    assert_eq!(pipeline.result(), None);
    assert!(matches!(pipeline.next_action(), Action::RequestManifest { .. }));
    assert!(matches!(pipeline.next_action(), Action::Wait));
    pipeline.manifest_reply(Some(200), &manifest_body(&["a", "b"]));
    assert_eq!(pipeline.current_phase(), Phase::Fetching);
    assert!(!pipeline.page_reply(0, Some(200), 5, true));
    assert!(matches!(pipeline.next_action(), Action::RequestPage { ordinal: 0, .. }));
    assert!(!pipeline.page_reply(1, Some(200), 5, true));
    assert!(!pipeline.page_reply(2, Some(200), 5, true));
    assert!(pipeline.page_reply(0, Some(404), 5, false));
    assert!(!pipeline.page_reply(0, Some(404), 5, false));
    assert_eq!(pipeline.progress(), (0, 0));
}
