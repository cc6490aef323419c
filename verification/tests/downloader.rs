use tile_download_tool::downloader::{
    attempt_download, classify_status, AttemptEvent, AttemptOutcome, AttemptStep, CancelFlag,
    Completion, Downloader, FetchError, FetchStep, StatusClass, TileDownload, WorkItem,
    WorkerStep, BASE_DELAY_MS, MAX_ATTEMPTS,
};
use tile_download_tool::progress::ProgressMsg;
use tile_download_tool::tile::Tile;
use tile_download_tool::writer::WriteTileMsg;

/// The fetch of one tile against a server that answers with the statuses of
/// the script, one after the other, and with the last of them from then on.
/// Gives the result, the number of requests and the pauses between them.
fn fetch_scripted(
    statuses: &[u16],
    ok_body: &[u8],
) -> (Result<Option<Vec<u8>>, FetchError>, usize, Vec<u64>) {
    let mut fetch = TileDownload::new();
    let mut hits = 0usize;
    let mut pauses = Vec::new();
    loop {
        let status = *statuses.get(hits).unwrap_or_else(|| statuses.last().unwrap());
        hits += 1;
        let outcome = match attempt_download(AttemptEvent::Status(status)) {
            AttemptStep::ReadBody => match attempt_download(AttemptEvent::Body(ok_body.to_vec())) {
                AttemptStep::Done(outcome) => outcome,
                AttemptStep::ReadBody => panic!("a body is read once"),
            },
            AttemptStep::Done(outcome) => outcome,
        };
        match fetch.download_tile(outcome) {
            FetchStep::Done(result) => {
                assert_eq!(fetch.attempts_made(), hits);
                return (result, hits, pauses);
            }
            FetchStep::RetryAfter(ms) => pauses.push(ms),
        }
    }
}

#[test]
fn retries_on_500_then_succeeds() {
    let (data, hit, _) = fetch_scripted(&[500, 200], b"OK");
    let data = data.expect("should not error");
    assert_eq!(data.as_deref(), Some(&b"OK"[..]));
    assert!(hit >= 2, "should attempt at least twice");
    assert_eq!(hit, 2);
}

#[test]
fn gives_up_after_4_attempts_on_5xx() {
    let (result, attempts, pauses) = fetch_scripted(&[500, 500, 500, 500, 500], b"");
    let _err = result.expect_err("should error after retries");
    assert!(attempts >= 4, "should try 4 times, got {}", attempts);
    // Optional: ensure not absurdly high
    assert!(attempts <= 5);
    assert_eq!(attempts, 4);
    assert_eq!(_err, FetchError::Unavailable(500));
    assert_eq!(pauses, vec![200, 400, 800]);
}

#[test]
fn skips_on_404_without_retry() {
    let (data, hit, pauses) = fetch_scripted(&[404], b"");
    let data = data.expect("404 should not error");
    assert!(data.is_none(), "404 should return None");
    assert_eq!(hit, 1, "should not retry on 404");
    assert!(pauses.is_empty());
}

#[test]
fn does_not_retry_on_400() {
    let (result, attempts, _) = fetch_scripted(&[400, 200], b"OK");
    let err = result.expect_err("400 should be fatal");
    assert_eq!(attempts, 1, "should not retry on 400, got {} attempts", attempts);
    assert_eq!(err, FetchError::Refused(400));
}

#[test]
fn succeeds_on_the_third_attempt_after_two_errors() {
    let (result, attempts, pauses) = fetch_scripted(&[500, 500, 200], b"tile");
    assert_eq!(result, Ok(Some(b"tile".to_vec())));
    assert_eq!(attempts, 3);
    assert_eq!(pauses, vec![200, 400]);
}

#[test]
fn succeeds_on_the_last_attempt_allowed() {
    let (result, attempts, pauses) = fetch_scripted(&[503, 429, 408, 200], b"x");
    assert_eq!(result, Ok(Some(b"x".to_vec())));
    assert_eq!(attempts, 4);
    assert_eq!(pauses, vec![200, 400, 800]);
}

#[test]
fn no_content_is_an_absent_tile() {
    let (result, attempts, _) = fetch_scripted(&[204], b"ignored");
    assert_eq!(result, Ok(None));
    assert_eq!(attempts, 1);
    let (result, attempts, _) = fetch_scripted(&[500, 404], b"");
    assert_eq!(result, Ok(None));
    assert_eq!(attempts, 2);
}

#[test]
fn the_last_error_is_the_one_that_ends_the_fetch() {
    let (result, attempts, _) = fetch_scripted(&[500, 502, 429, 503], b"");
    assert_eq!(result, Err(FetchError::Unavailable(503)));
    assert_eq!(attempts, 4);
    let (result, attempts, _) = fetch_scripted(&[500, 403], b"");
    assert_eq!(result, Err(FetchError::Refused(403)));
    assert_eq!(attempts, 2);
}

#[test]
fn statuses_fall_into_four_classes() {
    for code in 0..=1000u16 {
        let expected = if code == 404 || code == 204 {
            StatusClass::Absent
        } else if (200..300).contains(&code) {
            StatusClass::Success
        } else if (500..600).contains(&code) || code == 429 || code == 408 {
            StatusClass::Retryable
        } else {
            StatusClass::Fatal
        };
        assert_eq!(classify_status(code), expected, "{}", code);
    }
    assert_eq!(classify_status(199), StatusClass::Fatal);
    assert_eq!(classify_status(200), StatusClass::Success);
    assert_eq!(classify_status(299), StatusClass::Success);
    assert_eq!(classify_status(300), StatusClass::Fatal);
    assert_eq!(classify_status(301), StatusClass::Fatal);
    assert_eq!(classify_status(499), StatusClass::Fatal);
    assert_eq!(classify_status(500), StatusClass::Retryable);
    assert_eq!(classify_status(599), StatusClass::Retryable);
    assert_eq!(classify_status(600), StatusClass::Fatal);
    assert_eq!(classify_status(u16::MAX), StatusClass::Fatal);
}

#[test]
fn events_of_an_attempt_lead_to_its_outcome() {
    assert_eq!(
        attempt_download(AttemptEvent::SendFailed("connection refused".to_string())),
        AttemptStep::Done(AttemptOutcome::Retryable(FetchError::Transport(
            "connection refused".to_string()
        )))
    );
    assert_eq!(attempt_download(AttemptEvent::Status(200)), AttemptStep::ReadBody);
    assert_eq!(attempt_download(AttemptEvent::Status(206)), AttemptStep::ReadBody);
    assert_eq!(
        attempt_download(AttemptEvent::Status(404)),
        AttemptStep::Done(AttemptOutcome::Absent)
    );
    assert_eq!(
        attempt_download(AttemptEvent::Status(429)),
        AttemptStep::Done(AttemptOutcome::Retryable(FetchError::Unavailable(429)))
    );
    assert_eq!(
        attempt_download(AttemptEvent::Status(401)),
        AttemptStep::Done(AttemptOutcome::Fatal(FetchError::Refused(401)))
    );
    assert_eq!(
        attempt_download(AttemptEvent::Body(vec![1, 2, 3])),
        AttemptStep::Done(AttemptOutcome::Payload(vec![1, 2, 3]))
    );
    assert_eq!(
        attempt_download(AttemptEvent::BodyFailed("reset".to_string())),
        AttemptStep::Done(AttemptOutcome::Retryable(FetchError::Body("reset".to_string())))
    );
}

#[test]
fn a_failed_request_is_tried_again() {
    let mut fetch = TileDownload::new();
    assert_eq!(fetch.attempts_made(), 0);
    let failed = || AttemptOutcome::Retryable(FetchError::Transport("timed out".to_string()));
    assert_eq!(fetch.download_tile(failed()), FetchStep::RetryAfter(200));
    assert_eq!(fetch.download_tile(failed()), FetchStep::RetryAfter(400));
    assert_eq!(fetch.download_tile(failed()), FetchStep::RetryAfter(800));
    assert_eq!(
        fetch.download_tile(failed()),
        FetchStep::Done(Err(FetchError::Transport("timed out".to_string())))
    );
    assert_eq!(fetch.attempts_made(), 4);
    // a fetch that is driven on stays at its end
    assert_eq!(
        fetch.download_tile(failed()),
        FetchStep::Done(Err(FetchError::Transport("timed out".to_string())))
    );
    assert_eq!(fetch.attempts_made(), 4);
}

#[test]
fn retry_constants() {
    assert_eq!(MAX_ATTEMPTS, 4);
    assert_eq!(BASE_DELAY_MS, 200);
}

#[test]
fn errors_have_a_text() {
    assert_eq!(FetchError::Transport("no route".to_string()).message(), "no route");
    assert_eq!(FetchError::Body("cut off".to_string()).message(), "cut off");
    assert_eq!(FetchError::Unavailable(503).message(), "HTTP error: 503");
    assert_eq!(FetchError::Refused(400).message(), "Failed to download tile: 400");
}

#[test]
fn the_cancel_flag_stays_raised() {
    let mut flag = CancelFlag::new();
    assert!(!flag.is_cancelled());
    flag.cancel();
    assert!(flag.is_cancelled());
    flag.cancel();
    assert!(flag.is_cancelled());
}

#[test]
fn work_items_are_numbered_from_the_start_index() {
    let tiles = vec![Tile::new(0, 0, 0), Tile::new(1, 0, 0), Tile::new(1, 0, 1)];
    let mut downloader = Downloader::new("https://e.com/{z}/{x}/{y}", tiles.clone(), 7);
    assert_eq!(downloader.concurrency(), 7);
    let items = downloader.download(10);
    assert_eq!(
        items,
        vec![
            WorkItem { index: 10, tile: tiles[0] },
            WorkItem { index: 11, tile: tiles[1] },
            WorkItem { index: 12, tile: tiles[2] },
        ]
    );
    // the tiles are handed out once
    assert_eq!(downloader.download(0), vec![]);
    let mut downloader = Downloader::new("t", vec![Tile::new(0, 0, 0)], 1);
    assert_eq!(downloader.download(0), vec![WorkItem { index: 0, tile: Tile::new(0, 0, 0) }]);
}

#[test]
fn a_worker_fetches_unless_the_run_is_cancelled() {
    let downloader = Downloader::new("https://e.com/{z}/{x}/{y}.png", vec![], 2);
    let item = WorkItem { index: 3, tile: Tile::new(3, 4, 5) };
    match downloader.start(false, &item) {
        WorkerStep::Fetch(url) => assert_eq!(url.url(), "https://e.com/3/4/5.png"),
        WorkerStep::Stop => panic!("not cancelled"),
    }
    assert!(matches!(downloader.start(true, &item), WorkerStep::Stop));
}

#[test]
fn a_payload_is_reported_and_handed_on() {
    let item = WorkItem { index: 3, tile: Tile::new(3, 4, 5) };
    assert_eq!(
        Downloader::finish(item, Ok(Some(vec![9, 9, 9, 9]))),
        Completion {
            progress: ProgressMsg::Downloaded(Tile::new(3, 4, 5), 4),
            output: Some(WriteTileMsg { index: 3, tile: Tile::new(3, 4, 5), data: Some(vec![9, 9, 9, 9]) }),
            failure: None,
        }
    );
}

#[test]
fn an_absent_tile_is_skipped_and_keeps_its_place() {
    let item = WorkItem { index: 8, tile: Tile::new(3, 4, 5) };
    assert_eq!(
        Downloader::finish(item, Ok(None)),
        Completion {
            progress: ProgressMsg::Skipped,
            output: Some(WriteTileMsg { index: 8, tile: Tile::new(3, 4, 5), data: None }),
            failure: None,
        }
    );
}

#[test]
fn an_error_is_logged_and_ends_the_worker() {
    let item = WorkItem { index: 8, tile: Tile::new(3, 4, 5) };
    assert_eq!(
        Downloader::finish(item, Err(FetchError::Refused(403))),
        Completion {
            progress: ProgressMsg::Log(
                "Error downloading tile 3/4/5: Failed to download tile: 403".to_string()
            ),
            output: None,
            failure: Some(FetchError::Refused(403)),
        }
    );
}

#[test]
fn the_download_ends_with_the_first_failure_or_a_last_line() {
    assert_eq!(
        Downloader::conclude(None),
        Ok(ProgressMsg::Log("All downloads complete.".to_string()))
    );
    assert_eq!(
        Downloader::conclude(Some(FetchError::Unavailable(500))),
        Err(FetchError::Unavailable(500))
    );
}
