use model_fetch::fetch::{
    response_event, should_emit, RunGuard, Directive, DownloadProgress, DownloadStatus, FetchEvent, FetchRun, ModelsReady,
    Phase, EMIT_THRESHOLD,
};
use model_fetch::models::{check_models, missing_models, required_models, temp_filename, ModelEntry};

fn entry(id: &'static str, filename: &'static str, size_bytes: u64) -> ModelEntry {
    ModelEntry {
        id,
        name: "Test Model",
        url: "https://example.com/model.bin",
        filename,
        size_bytes,
    }
}

fn progress(id: &str, downloaded: u64, total: u64, status: DownloadStatus) -> Directive {
    Directive::Progress(DownloadProgress {
        model_id: id.to_string(),
        model_name: "Test Model".to_string(),
        downloaded,
        total,
        status,
    })
}

fn ready(message: &str) -> Directive {
    Directive::Ready(ModelsReady { success: true, message: message.to_string() })
}

fn progress_ids(out: &[Directive]) -> Vec<String> {
    out.iter()
        .filter_map(|d| match d {
            Directive::Progress(p) => Some(p.model_id.clone()),
            _ => None,
        })
        .collect()
}

#[test]
fn required_manifest_has_whisper_tiny() {
    let m = required_models();
    assert_eq!(m.len(), 1);
    assert_eq!(m[0].id, "whisper-tiny");
    assert_eq!(m[0].filename, "ggml-tiny.bin");
    assert_eq!(m[0].size_bytes, 77_704_680);
}

#[test]
fn missing_keeps_absent_in_order() {
    let m = vec![entry("a", "a.bin", 1), entry("b", "b.bin", 2), entry("c", "c.bin", 3)];
    let r = missing_models(&m, &vec![false, true, false]);
    let ids: Vec<&str> = r.iter().map(|e| e.id).collect();
    assert_eq!(ids, vec!["a", "c"]);
}

#[test]
fn missing_empty_when_all_present() {
    let m = vec![entry("a", "a.bin", 1), entry("b", "b.bin", 2)];
    assert!(missing_models(&m, &vec![true, true]).is_empty());
    assert!(missing_models(&Vec::new(), &Vec::new()).is_empty());
}

#[test]
fn check_models_lists_missing_ids() {
    let m = vec![entry("a", "a.bin", 1), entry("b", "b.bin", 2)];
    assert_eq!(check_models(&m, &vec![true, false]), vec!["b".to_string()]);
}

#[test]
fn temp_name_appends_suffix() {
    assert_eq!(temp_filename("ggml-tiny.bin"), "ggml-tiny.bin.tmp");
    assert_eq!(temp_filename(""), ".tmp");
}

#[test]
fn throttle_rule() {
    assert!(!should_emit(EMIT_THRESHOLD, 0, 5_000_000));
    assert!(should_emit(EMIT_THRESHOLD + 1, 0, 5_000_000));
    assert!(should_emit(1000, 0, 1000));
    assert!(!should_emit(1000, 500, 2000));
    assert!(!should_emit(3_000_000, 0, 1000));
}

#[test]
fn single_artifact_full_download() {
    let m = vec![entry("tiny", "tiny.bin", 1000)];
    let (mut run, out) = FetchRun::start(&m, &vec![false]);
    assert_eq!(
        out,
        vec![
            progress("tiny", 0, 1000, DownloadStatus::Downloading),
            Directive::Request { url: "https://example.com/model.bin" },
        ]
    );
    let out = run.step(FetchEvent::Responded { content_length: Some(1000) });
    assert_eq!(out, vec![Directive::CreateTemp { temp: "tiny.bin.tmp".to_string() }]);
    assert_eq!(run.step(FetchEvent::TempCreated), vec![Directive::ReadChunk]);
    let out = run.step(FetchEvent::Chunk { len: 1000 });
    assert_eq!(
        out,
        vec![progress("tiny", 1000, 1000, DownloadStatus::Downloading), Directive::ReadChunk]
    );
    let out = run.step(FetchEvent::StreamEnded);
    assert_eq!(
        out,
        vec![Directive::Commit { temp: "tiny.bin.tmp".to_string(), dest: "tiny.bin" }]
    );
    let out = run.step(FetchEvent::Committed);
    assert_eq!(
        out,
        vec![
            progress("tiny", 1000, 1000, DownloadStatus::Complete),
            ready("All models ready."),
            Directive::Finish(Ok(())),
        ]
    );
    assert_eq!(run.phase(), Phase::Finished);
}

#[test]
fn connection_error_aborts_without_ready() {
    let m = vec![entry("tiny", "tiny.bin", 1000)];
    let (mut run, _) = FetchRun::start(&m, &vec![false]);
    let out = run.step(FetchEvent::Failed { message: "Failed to fetch Test Model: refused".to_string() });
    assert_eq!(out, vec![Directive::Finish(Err("Failed to fetch Test Model: refused".to_string()))]);
    assert_eq!(run.phase(), Phase::Aborted);
    assert!(run.step(FetchEvent::Committed).is_empty());
    assert!(run.step(FetchEvent::StreamEnded).is_empty());
}

#[test]
fn interrupted_transfer_never_commits() {
    let m = vec![entry("tiny", "tiny.bin", 5000)];
    let (mut run, _) = FetchRun::start(&m, &vec![false]);
    run.step(FetchEvent::Responded { content_length: None });
    run.step(FetchEvent::TempCreated);
    run.step(FetchEvent::Chunk { len: 1200 });
    let out = run.step(FetchEvent::Failed { message: "reset".to_string() });
    assert_eq!(out, vec![Directive::Finish(Err("reset".to_string()))]);
    assert!(run.step(FetchEvent::StreamEnded).is_empty());
    assert!(run.step(FetchEvent::Committed).is_empty());
}

#[test]
fn first_present_only_second_fetched() {
    let m = vec![entry("one", "one.bin", 10), entry("two", "two.bin", 20)];
    let (mut run, out) = FetchRun::start(&m, &vec![true, false]);
    let mut all = out;
    all.extend(run.step(FetchEvent::Responded { content_length: Some(20) }));
    all.extend(run.step(FetchEvent::TempCreated));
    all.extend(run.step(FetchEvent::Chunk { len: 20 }));
    all.extend(run.step(FetchEvent::StreamEnded));
    all.extend(run.step(FetchEvent::Committed));
    let ids = progress_ids(&all);
    assert!(!ids.is_empty());
    assert!(ids.iter().all(|id| id == "two"));
    assert!(all.contains(&Directive::Commit { temp: "two.bin.tmp".to_string(), dest: "two.bin" }));
    assert_eq!(all.last(), Some(&Directive::Finish(Ok(()))));
}

#[test]
fn rerun_after_success_only_ready() {
    let m = vec![entry("tiny", "tiny.bin", 1000)];
    let (run, out) = FetchRun::start(&m, &vec![true]);
    assert_eq!(out, vec![ready("All models already downloaded."), Directive::Finish(Ok(()))]);
    assert_eq!(run.phase(), Phase::Finished);
}

#[test]
fn two_artifacts_in_order_complete_before_next() {
    let m = vec![entry("one", "one.bin", 10), entry("two", "two.bin", 20)];
    let (mut run, _) = FetchRun::start(&m, &vec![false, false]);
    run.step(FetchEvent::Responded { content_length: Some(10) });
    run.step(FetchEvent::TempCreated);
    run.step(FetchEvent::Chunk { len: 10 });
    run.step(FetchEvent::StreamEnded);
    let out = run.step(FetchEvent::Committed);
    assert_eq!(
        out,
        vec![
            progress("one", 10, 10, DownloadStatus::Complete),
            progress("two", 0, 20, DownloadStatus::Downloading),
            Directive::Request { url: "https://example.com/model.bin" },
        ]
    );
    assert_eq!(run.phase(), Phase::Requesting);
}

#[test]
fn progress_is_throttled_and_monotone() {
    let m = vec![entry("big", "big.bin", 3_000_000)];
    let (mut run, _) = FetchRun::start(&m, &vec![false]);
    run.step(FetchEvent::Responded { content_length: Some(3_000_000) });
    run.step(FetchEvent::TempCreated);
    let mut seen: Vec<u64> = Vec::new();
    for _ in 0..30 {
        for d in run.step(FetchEvent::Chunk { len: 100_000 }) {
            if let Directive::Progress(p) = d {
                seen.push(p.downloaded);
            }
        }
    }
    assert_eq!(seen, vec![1_100_000, 2_200_000, 3_000_000]);
    let out = run.step(FetchEvent::StreamEnded);
    assert_eq!(out.len(), 1);
    let out = run.step(FetchEvent::Committed);
    assert_eq!(out[0], Directive::Progress(DownloadProgress {
        model_id: "big".to_string(),
        model_name: "Test Model".to_string(),
        downloaded: 3_000_000,
        total: 3_000_000,
        status: DownloadStatus::Complete,
    }));
}

#[test]
fn missing_content_length_uses_manifest_size() {
    let m = vec![entry("tiny", "tiny.bin", 400)];
    let (mut run, _) = FetchRun::start(&m, &vec![false]);
    run.step(FetchEvent::Responded { content_length: None });
    run.step(FetchEvent::TempCreated);
    let out = run.step(FetchEvent::Chunk { len: 400 });
    assert_eq!(out[0], progress("tiny", 400, 400, DownloadStatus::Downloading));
}

#[test]
fn out_of_phase_event_is_ignored() {
    let m = vec![entry("tiny", "tiny.bin", 1000)];
    let (mut run, _) = FetchRun::start(&m, &vec![false]);
    assert!(run.step(FetchEvent::Chunk { len: 5 }).is_empty());
    assert!(run.step(FetchEvent::Committed).is_empty());
    assert_eq!(run.phase(), Phase::Requesting);
}

#[test]
fn chunk_fits_guards_overflow() {
    let m = vec![entry("tiny", "tiny.bin", 1000)];
    let (run, _) = FetchRun::start(&m, &vec![false]);
    assert!(run.chunk_fits(u64::MAX));
    let mut run = run;
    run.step(FetchEvent::Responded { content_length: None });
    run.step(FetchEvent::TempCreated);
    run.step(FetchEvent::Chunk { len: 10 });
    assert!(!run.chunk_fits(u64::MAX));
    assert!(run.chunk_fits(u64::MAX - 10));
}

#[test]
fn body_longer_than_total_keeps_total() {
    let m = vec![entry("tiny", "tiny.bin", 1000)];
    let (mut run, _) = FetchRun::start(&m, &vec![false]);
    run.step(FetchEvent::Responded { content_length: None });
    run.step(FetchEvent::TempCreated);
    assert_eq!(run.step(FetchEvent::Chunk { len: 1200 }), vec![Directive::ReadChunk]);
    run.step(FetchEvent::StreamEnded);
    let out = run.step(FetchEvent::Committed);
    assert_eq!(out[0], progress("tiny", 1000, 1000, DownloadStatus::Complete));
}

#[test]
fn overrun_after_progress_never_goes_back() {
    let m = vec![entry("tiny", "tiny.bin", 1000)];
    let (mut run, _) = FetchRun::start(&m, &vec![false]);
    run.step(FetchEvent::Responded { content_length: Some(1000) });
    run.step(FetchEvent::TempCreated);
    assert_eq!(run.step(FetchEvent::Chunk { len: 900 }), vec![Directive::ReadChunk]);
    assert_eq!(run.step(FetchEvent::Chunk { len: 2_000_000 }), vec![Directive::ReadChunk]);
    run.step(FetchEvent::StreamEnded);
    let out = run.step(FetchEvent::Committed);
    assert_eq!(out[0], progress("tiny", 1000, 1000, DownloadStatus::Complete));
}

#[test]
fn success_status_passes_content_length() {
    assert_eq!(
        response_event("Tiny", 200, Some(1000)),
        FetchEvent::Responded { content_length: Some(1000) }
    );
    assert_eq!(response_event("Tiny", 299, None), FetchEvent::Responded { content_length: None });
}

#[test]
fn error_status_fails_with_status_in_message() {
    assert_eq!(
        response_event("Tiny", 404, Some(12)),
        FetchEvent::Failed { message: "Failed to fetch Tiny: HTTP status 404".to_string() }
    );
    assert_eq!(
        response_event("Tiny", 0, None),
        FetchEvent::Failed { message: "Failed to fetch Tiny: HTTP status 0".to_string() }
    );
    assert_eq!(
        response_event("Tiny", 65535, None),
        FetchEvent::Failed { message: "Failed to fetch Tiny: HTTP status 65535".to_string() }
    );
}

#[test]
fn error_status_aborts_run() {
    let m = vec![entry("tiny", "tiny.bin", 1000)];
    let (mut run, _) = FetchRun::start(&m, &vec![false]);
    let out = run.step(response_event("Test Model", 503, Some(10)));
    assert_eq!(
        out,
        vec![Directive::Finish(Err("Failed to fetch Test Model: HTTP status 503".to_string()))]
    );
    assert_eq!(run.phase(), Phase::Aborted);
}

#[test]
fn guard_admits_one_run_at_a_time() {
    let mut g = RunGuard::new();
    assert!(g.try_begin());
    assert!(!g.try_begin());
    g.finish();
    assert!(g.try_begin());
}
