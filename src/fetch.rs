use vstd::prelude::*;
use vstd::string::StringExecFns;

use crate::models::{lemma_none_missing_iff_all_present, missing_models, missing_spec, temp_filename, temp_name, ModelEntry};

verus! {

/// A progress event is published only once more than this many bytes have
/// arrived since the previous one (or when the artifact is fully downloaded),
/// and never for a count beyond the artifact's total.
pub const EMIT_THRESHOLD: u64 = 1_000_000;

/// Whether a progress event is due after a chunk write. A count past the
/// total (a body longer than announced) is held back, so that no event
/// reports more than the `complete` event that ends the artifact.
pub open spec fn should_emit_spec(downloaded: u64, last_emit: u64, total: u64) -> bool {
    downloaded <= total && (downloaded - last_emit > EMIT_THRESHOLD as int || downloaded == total)
}

/// Throttling rule for progress events: emit once more than
/// `EMIT_THRESHOLD` bytes were written since the last emission, or when
/// `downloaded` has reached `total`; never when `downloaded` exceeds `total`.
pub fn should_emit(downloaded: u64, last_emit: u64, total: u64) -> (r: bool)
    requires
        last_emit <= downloaded,
    ensures
        r == should_emit_spec(downloaded, last_emit, total),
{
    downloaded <= total && (downloaded - last_emit > EMIT_THRESHOLD || downloaded == total)
}

/// Status carried by a progress notification.
#[derive(Clone, Copy, Debug, PartialEq, Eq, Structural)]
pub enum DownloadStatus {
    Downloading,
    Complete,
}

/// Notification on the "download-progress" channel. The percentage shown to
/// the user is `downloaded / total * 100`, unavailable when `total == 0`.
#[derive(Clone, Debug, PartialEq, Eq)]
pub struct DownloadProgress {
    pub model_id: String,
    pub model_name: String,
    pub downloaded: u64,
    pub total: u64,
    pub status: DownloadStatus,
}

/// Notification on the "models-ready" channel.
#[derive(Clone, Debug, PartialEq, Eq)]
pub struct ModelsReady {
    pub success: bool,
    pub message: String,
}

/// What the host is asked to do next. Paths are file names inside the
/// storage directory.
#[derive(Debug, PartialEq, Eq)]
pub enum Directive {
    /// Publish a progress notification.
    Progress(DownloadProgress),
    /// Publish a readiness notification.
    Ready(ModelsReady),
    /// Open a streaming GET request to `url`.
    Request { url: &'static str },
    /// Create (or truncate) the temporary file `temp`.
    CreateTemp { temp: String },
    /// Read the next chunk of the response and append it to the temporary file.
    ReadChunk,
    /// Flush and close the temporary file, then rename `temp` to `dest`.
    Commit { temp: String, dest: &'static str },
    /// The run is over with this outcome.
    Finish(Result<(), String>),
}

/// What the host reports after performing a directive.
#[derive(Clone, Debug, PartialEq, Eq)]
pub enum FetchEvent {
    /// The request succeeded; the server declared this content length, if any.
    Responded { content_length: Option<u64> },
    /// The temporary file was created.
    TempCreated,
    /// A chunk of `len` bytes was read and written to the temporary file.
    Chunk { len: u64 },
    /// The response has no more chunks.
    StreamEnded,
    /// The temporary file was flushed and renamed to its final name.
    Committed,
    /// A network or file error; the run stops with this message.
    Failed { message: String },
}

/// Where a run stands: waiting for the response, the temporary file, the next
/// chunk or the commit of the artifact in flight, or over.
#[derive(Clone, Copy, Debug, PartialEq, Eq, Structural)]
pub enum Phase {
    Requesting,
    Creating,
    Streaming,
    Committing,
    Finished,
    Aborted,
}

/// One fetch run over the artifacts that were missing when it started.
/// `queue[current]` is the artifact in flight while the run is active.
#[derive(Debug)]
pub struct FetchRun {
    pub queue: Vec<ModelEntry>,
    pub current: usize,
    pub phase: Phase,
    pub total: u64,
    pub downloaded: u64,
    pub last_emit: u64,
}

pub open spec fn is_active(p: Phase) -> bool {
    p != Phase::Finished && p != Phase::Aborted
}

pub open spec fn already_message() -> Seq<char> {
    "All models already downloaded."@
}

pub open spec fn ready_message() -> Seq<char> {
    "All models ready."@
}

pub open spec fn is_progress(d: Directive, m: ModelEntry, downloaded: u64, total: u64, status: DownloadStatus) -> bool {
    match d {
        Directive::Progress(p) => p.model_id@ == m.id@ && p.model_name@ == m.name@
            && p.downloaded == downloaded && p.total == total && p.status == status,
        _ => false,
    }
}

pub open spec fn is_ready(d: Directive, message: Seq<char>) -> bool {
    match d {
        Directive::Ready(r) => r.success && r.message@ == message,
        _ => false,
    }
}

pub open spec fn is_request(d: Directive, m: ModelEntry) -> bool {
    match d {
        Directive::Request { url } => url@ == m.url@,
        _ => false,
    }
}

pub open spec fn is_create_temp(d: Directive, m: ModelEntry) -> bool {
    match d {
        Directive::CreateTemp { temp } => temp@ == temp_name(m.filename@),
        _ => false,
    }
}

pub open spec fn is_commit(d: Directive, m: ModelEntry) -> bool {
    match d {
        Directive::Commit { temp, dest } => temp@ == temp_name(m.filename@) && dest@ == m.filename@,
        _ => false,
    }
}

pub open spec fn is_finish_ok(d: Directive) -> bool {
    d == Directive::Finish(Ok(()))
}

pub open spec fn is_finish_err(d: Directive, message: Seq<char>) -> bool {
    match d {
        Directive::Finish(Err(e)) => e@ == message,
        _ => false,
    }
}

/// The directives that start the download of `m`: a first progress event at
/// zero bytes against the declared size, then the request.
pub open spec fn begins(out: Seq<Directive>, m: ModelEntry) -> bool {
    out.len() == 2 && is_progress(out[0], m, 0, m.size_bytes, DownloadStatus::Downloading)
        && is_request(out[1], m)
}

impl FetchRun {
    /// Well-formedness. While an artifact is in flight, `last_emit` is the
    /// count of the last progress event sent for it: zero (the first event)
    /// until a chunk is reported.
    pub open spec fn wf(&self) -> bool {
        &&& self.last_emit <= self.downloaded
        &&& self.last_emit <= self.total
        &&& (self.phase == Phase::Requesting || self.phase == Phase::Creating) ==> self.downloaded == 0
            && self.last_emit == 0
        &&& is_active(self.phase) ==> self.current < self.queue.len()
        &&& self.phase == Phase::Finished ==> self.current == self.queue.len()
        &&& self.current <= self.queue.len()
    }

    /// The artifact in flight.
    pub open spec fn entry(&self) -> ModelEntry {
        self.queue@[self.current as int]
    }

    /// `t` has the same queue as `self` and the given counters.
    pub open spec fn moved(&self, t: FetchRun, phase: Phase, current: int, total: u64, downloaded: u64, last_emit: u64) -> bool {
        &&& t.queue@ == self.queue@
        &&& t.phase == phase
        &&& t.current == current
        &&& t.total == total
        &&& t.downloaded == downloaded
        &&& t.last_emit == last_emit
    }

    /// What `start` returns for a manifest and its presence flags.
    pub open spec fn start_post(manifest: Seq<ModelEntry>, present: Seq<bool>, run: FetchRun, out: Seq<Directive>) -> bool {
        let q = missing_spec(manifest, present);
        &&& run.queue@ == q
        &&& run.current == 0
        &&& run.downloaded == 0
        &&& run.last_emit == 0
        &&& q.len() == 0 ==> run.phase == Phase::Finished && out.len() == 2
            && is_ready(out[0], already_message()) && is_finish_ok(out[1])
        &&& q.len() > 0 ==> run.phase == Phase::Requesting && run.total == q[0].size_bytes
            && begins(out, q[0])
    }

    /// How one event moves the run from `self` to `t`, with directives `out`.
    pub open spec fn step_post(&self, e: FetchEvent, t: FetchRun, out: Seq<Directive>) -> bool {
        let m = self.entry();
        let cur = self.current as int;
        match (self.phase, e) {
            (Phase::Requesting, FetchEvent::Responded { content_length }) => {
                let total = match content_length {
                    Some(n) => n,
                    None => m.size_bytes,
                };
                self.moved(t, Phase::Creating, cur, total, 0, 0) && out.len() == 1
                    && is_create_temp(out[0], m)
            },
            (Phase::Creating, FetchEvent::TempCreated) => {
                self.moved(t, Phase::Streaming, cur, self.total, self.downloaded, self.last_emit)
                    && out == seq![Directive::ReadChunk]
            },
            (Phase::Streaming, FetchEvent::Chunk { len }) => {
                let d = (self.downloaded + len) as u64;
                self.downloaded + len <= u64::MAX && if should_emit_spec(d, self.last_emit, self.total) {
                    self.moved(t, Phase::Streaming, cur, self.total, d, d) && out.len() == 2
                        && is_progress(out[0], m, d, self.total, DownloadStatus::Downloading)
                        && out[1] == Directive::ReadChunk
                } else {
                    self.moved(t, Phase::Streaming, cur, self.total, d, self.last_emit)
                        && out == seq![Directive::ReadChunk]
                }
            },
            (Phase::Streaming, FetchEvent::StreamEnded) => {
                self.moved(t, Phase::Committing, cur, self.total, self.downloaded, self.last_emit)
                    && out.len() == 1 && is_commit(out[0], m)
            },
            (Phase::Committing, FetchEvent::Committed) => {
                &&& out.len() == 3
                &&& is_progress(out[0], m, self.total, self.total, DownloadStatus::Complete)
                &&& if cur + 1 == self.queue.len() {
                    self.moved(t, Phase::Finished, cur + 1, self.total, self.total, self.total)
                        && is_ready(out[1], ready_message()) && is_finish_ok(out[2])
                } else {
                    let n = self.queue@[cur + 1];
                    self.moved(t, Phase::Requesting, cur + 1, n.size_bytes, 0, 0)
                        && begins(out.subrange(1, 3), n)
                }
            },
            (_, FetchEvent::Failed { message }) => {
                if is_active(self.phase) {
                    self.moved(t, Phase::Aborted, cur, self.total, self.downloaded, self.last_emit)
                        && out.len() == 1 && is_finish_err(out[0], message@)
                } else {
                    self.moved(t, self.phase, cur, self.total, self.downloaded, self.last_emit)
                        && out.len() == 0
                }
            },
            _ => {
                self.moved(t, self.phase, cur, self.total, self.downloaded, self.last_emit)
                    && out.len() == 0
            },
        }
    }

    /// Whether a chunk of `len` bytes can be counted without overflowing.
    pub fn chunk_fits(&self, len: u64) -> (r: bool)
        ensures
            r == (self.downloaded + len <= u64::MAX),
    {
        len <= u64::MAX - self.downloaded
    }

    /// The current phase.
    pub fn phase(&self) -> (r: Phase)
        ensures
            r == self.phase,
    {
        self.phase
    }
}


/// A progress notification for `m`.
fn progress(m: &ModelEntry, downloaded: u64, total: u64, status: DownloadStatus) -> (d: Directive)
    ensures
        is_progress(d, *m, downloaded, total, status),
{
    Directive::Progress(DownloadProgress {
        model_id: m.id.to_owned(),
        model_name: m.name.to_owned(),
        downloaded,
        total,
        status,
    })
}

/// A successful readiness notification carrying `message`.
fn ready(message: &str) -> (d: Directive)
    ensures
        is_ready(d, message@),
{
    Directive::Ready(ModelsReady { success: true, message: String::from_str(message) })
}

/// Appends the directives that start the download of `m`.
fn push_begin(out: &mut Vec<Directive>, m: &ModelEntry)
    ensures
        final(out)@.len() == old(out)@.len() + 2,
        final(out)@.subrange(0, old(out)@.len() as int) == old(out)@,
        begins(final(out)@.subrange(old(out)@.len() as int, final(out)@.len() as int), *m),
{
    out.push(progress(m, 0, m.size_bytes, DownloadStatus::Downloading));
    out.push(Directive::Request { url: m.url });
    assert(final(out)@.subrange(0, old(out)@.len() as int) =~= old(out)@);
}

impl FetchRun {
    /// Starts a run over `manifest`, where `present[i]` tells whether the
    /// file of `manifest[i]` is already in storage. With nothing missing the
    /// run is finished at once and only the readiness notification is due.
    pub fn start(manifest: &Vec<ModelEntry>, present: &Vec<bool>) -> (r: (FetchRun, Vec<Directive>))
        requires
            present.len() == manifest.len(),
        ensures
            r.0.wf(),
            FetchRun::start_post(manifest@, present@, r.0, r.1@),
    {
        let queue = missing_models(manifest, present);
        let mut out: Vec<Directive> = Vec::new();
        if queue.len() == 0 {
            out.push(ready("All models already downloaded."));
            out.push(Directive::Finish(Ok(())));
            (FetchRun { queue, current: 0, phase: Phase::Finished, total: 0, downloaded: 0, last_emit: 0 }, out)
        } else {
            let first = queue[0];
            push_begin(&mut out, &first);
            assert(out@.subrange(0, 2) =~= out@);
            (FetchRun { queue, current: 0, phase: Phase::Requesting, total: first.size_bytes, downloaded: 0, last_emit: 0 }, out)
        }
    }

    /// Advances the run by one event reported by the host and returns the
    /// directives the host is to perform, in order. An event that does not
    /// fit the current phase is ignored.
    pub fn step(&mut self, event: FetchEvent) -> (out: Vec<Directive>)
        requires
            old(self).wf(),
            match event {
                FetchEvent::Chunk { len } => old(self).phase == Phase::Streaming ==> old(self).downloaded + len <= u64::MAX,
                _ => true,
            },
        ensures
            final(self).wf(),
            old(self).step_post(event, *final(self), out@),
    {
        let mut out: Vec<Directive> = Vec::new();
        match event {
            FetchEvent::Responded { content_length } => {
                if self.phase == Phase::Requesting {
                    let m = self.queue[self.current];
                    self.total = match content_length {
                        Some(n) => n,
                        None => m.size_bytes,
                    };
                    self.downloaded = 0;
                    self.last_emit = 0;
                    self.phase = Phase::Creating;
                    out.push(Directive::CreateTemp { temp: temp_filename(m.filename) });
                }
            },
            FetchEvent::TempCreated => {
                if self.phase == Phase::Creating {
                    self.phase = Phase::Streaming;
                    out.push(Directive::ReadChunk);
                    assert(out@ =~= seq![Directive::ReadChunk]);
                }
            },
            FetchEvent::Chunk { len } => {
                if self.phase == Phase::Streaming {
                    let m = self.queue[self.current];
                    self.downloaded = self.downloaded + len;
                    if should_emit(self.downloaded, self.last_emit, self.total) {
                        self.last_emit = self.downloaded;
                        out.push(progress(&m, self.downloaded, self.total, DownloadStatus::Downloading));
                    }
                    out.push(Directive::ReadChunk);
                    assert(out@.len() == 1 ==> out@ =~= seq![Directive::ReadChunk]);
                }
            },
            FetchEvent::StreamEnded => {
                if self.phase == Phase::Streaming {
                    let m = self.queue[self.current];
                    self.phase = Phase::Committing;
                    out.push(Directive::Commit { temp: temp_filename(m.filename), dest: m.filename });
                }
            },
            FetchEvent::Committed => {
                if self.phase == Phase::Committing {
                    let m = self.queue[self.current];
                    let total = self.total;
                    out.push(progress(&m, total, total, DownloadStatus::Complete));
                    let ghost done = out@;
                    self.current = self.current + 1;
                    if self.current == self.queue.len() {
                        self.phase = Phase::Finished;
                        self.downloaded = total;
                        self.last_emit = total;
                        out.push(ready("All models ready."));
                        out.push(Directive::Finish(Ok(())));
                    } else {
                        let n = self.queue[self.current];
                        self.phase = Phase::Requesting;
                        self.total = n.size_bytes;
                        self.downloaded = 0;
                        self.last_emit = 0;
                        push_begin(&mut out, &n);
                        assert(out@[0] == out@.subrange(0, 1)[0]);
                    }
                    assert(out@[0] == done[0]);
                }
            },
            FetchEvent::Failed { message } => {
                if self.phase != Phase::Finished && self.phase != Phase::Aborted {
                    self.phase = Phase::Aborted;
                    out.push(Directive::Finish(Err(message)));
                }
            },
        }
        out
    }
}


/// Starting a run when every file of the manifest is already in storage, as
/// after a run that finished successfully, produces exactly one successful
/// readiness notification and the finish, with no progress notification and
/// no network or file work.
pub proof fn lemma_rerun_only_ready(manifest: Seq<ModelEntry>, present: Seq<bool>, run: FetchRun, out: Seq<Directive>)
    requires
        present.len() == manifest.len(),
        forall|i: int| 0 <= i < present.len() ==> #[trigger] present[i],
        FetchRun::start_post(manifest, present, run, out),
    ensures
        run.phase == Phase::Finished,
        out.len() == 2,
        is_ready(out[0], already_message()),
        is_finish_ok(out[1]),
        forall|i: int| 0 <= i < out.len() ==> !(#[trigger] out[i] is Progress),
{
    lemma_none_missing_iff_all_present(manifest, present);
}

/// A successful finish comes only with the commit of the last queued
/// artifact: a run that finishes with `Ok` has renamed every artifact it
/// set out to fetch into place.
pub proof fn lemma_finish_ok_after_last_commit(s: FetchRun, e: FetchEvent, t: FetchRun, out: Seq<Directive>)
    requires
        s.wf(),
        s.step_post(e, t, out),
    ensures
        (exists|i: int| 0 <= i < out.len() && is_finish_ok(#[trigger] out[i])) ==>
            s.phase == Phase::Committing && e is Committed && t.current == s.queue.len()
                && t.phase == Phase::Finished,
{
}

/// The final file name is written only by a commit, and a commit is asked for
/// only once the whole response was streamed into the temporary file. A
/// failure never leads to a commit, and an aborted run does nothing more, so
/// an interrupted transfer leaves at most the temporary file behind.
pub proof fn lemma_commit_only_after_full_stream(s: FetchRun, e: FetchEvent, t: FetchRun, out: Seq<Directive>)
    requires
        s.wf(),
        s.step_post(e, t, out),
    ensures
        forall|i: int| 0 <= i < out.len() && (#[trigger] out[i] is Commit) ==>
            s.phase == Phase::Streaming && e is StreamEnded && t.phase == Phase::Committing
                && is_commit(out[i], s.entry()),
        e is Failed ==> forall|i: int| 0 <= i < out.len() ==> !(#[trigger] out[i] is Commit)
            && !(out[i] is Ready),
        e is Failed && is_active(s.phase) ==> t.phase == Phase::Aborted,
        s.phase == Phase::Aborted ==> t.phase == Phase::Aborted && out.len() == 0,
{
}

/// Progress for one artifact never goes back. While the same artifact is in
/// flight, every progress event is at or beyond the last emitted count, which
/// becomes the new last emitted count; when the artifact is committed its
/// final event is `complete` with `downloaded == total`, where the total is
/// the one fixed when the response arrived. Every event reports at most that
/// total, also when the body runs longer.
pub proof fn lemma_progress_monotone(s: FetchRun, e: FetchEvent, t: FetchRun, out: Seq<Directive>)
    requires
        s.wf(),
        s.step_post(e, t, out),
    ensures
        t.current == s.current ==> s.last_emit <= t.last_emit,
        t.current == s.current ==> forall|i: int| 0 <= i < out.len() ==> match #[trigger] out[i] {
            Directive::Progress(p) => s.last_emit <= p.downloaded && p.downloaded == t.last_emit
                && p.downloaded <= p.total && p.status == DownloadStatus::Downloading,
            _ => true,
        },
        t.current != s.current ==> t.current == s.current + 1 && e is Committed && match out[0] {
            Directive::Progress(p) => p.status == DownloadStatus::Complete && p.downloaded == p.total
                && p.total == s.total && s.last_emit <= p.downloaded && p.model_id@ == s.entry().id@,
            _ => false,
        },
{
}

/// Every artifact a step talks about is queued, that is, was missing when
/// the run started: progress and requests name the artifact in flight or
/// the next one, and commits the one in flight. Artifacts already present
/// are never requested or reported.
pub proof fn lemma_step_names_queued(s: FetchRun, e: FetchEvent, t: FetchRun, out: Seq<Directive>)
    requires
        s.wf(),
        s.step_post(e, t, out),
    ensures
        forall|i: int| 0 <= i < out.len() ==> match #[trigger] out[i] {
            Directive::Progress(p) => p.model_id@ == s.entry().id@
                || (s.current + 1 < s.queue.len() && p.model_id@ == s.queue@[s.current + 1].id@),
            Directive::Request { url } => s.current + 1 < s.queue.len() && url@ == s.queue@[s.current + 1].url@,
            Directive::Commit { temp, dest } => dest@ == s.entry().filename@,
            Directive::CreateTemp { temp } => temp@ == temp_name(s.entry().filename@),
            _ => true,
        },
{
}

/// Between the mandatory first event (at zero bytes) and the events at the
/// end of an artifact (`downloaded == total`, and the `complete` event),
/// progress for the artifact in flight is emitted only after more than
/// `EMIT_THRESHOLD` bytes since the previous emission.
pub proof fn lemma_progress_throttled(s: FetchRun, e: FetchEvent, t: FetchRun, out: Seq<Directive>)
    requires
        s.wf(),
        s.step_post(e, t, out),
    ensures
        t.current == s.current ==> forall|i: int| 0 <= i < out.len() ==> match #[trigger] out[i] {
            Directive::Progress(p) => p.downloaded - s.last_emit > EMIT_THRESHOLD || p.downloaded == s.total,
            _ => true,
        },
{
}


/// A run that went through `events` in turn: `runs[k]` is the state before
/// `events[k]`, `runs[k + 1]` the state after it, and `outs[k]` the
/// directives it produced.
pub open spec fn is_trace(runs: Seq<FetchRun>, events: Seq<FetchEvent>, outs: Seq<Seq<Directive>>) -> bool {
    &&& runs.len() == events.len() + 1
    &&& outs.len() == events.len()
    &&& runs[0].wf()
    &&& forall|k: int| 0 <= k < events.len() ==> runs[k].step_post(#[trigger] events[k], runs[k + 1], outs[k])
}

/// A step keeps the run well formed, and moves on by at most one artifact.
pub proof fn lemma_step_keeps_wf(s: FetchRun, e: FetchEvent, t: FetchRun, out: Seq<Directive>)
    requires
        s.wf(),
        s.step_post(e, t, out),
    ensures
        t.wf(),
        t.current == s.current || t.current == s.current + 1,
{
}

/// Every state of a trace is well formed, and the artifact in flight never
/// moves back.
proof fn lemma_trace_wf(runs: Seq<FetchRun>, events: Seq<FetchEvent>, outs: Seq<Seq<Directive>>, j: int)
    requires
        is_trace(runs, events, outs),
        0 <= j < runs.len(),
    ensures
        runs[j].wf(),
        runs[0].current <= runs[j].current,
    decreases j,
{
    if j > 0 {
        lemma_trace_wf(runs, events, outs, j - 1);
        assert(runs[j - 1].step_post(events[j - 1], runs[j], outs[j - 1]));
        lemma_step_keeps_wf(runs[j - 1], events[j - 1], runs[j], outs[j - 1]);
    }
}

/// Between two states of a trace with the same artifact in flight, every
/// state in between has it in flight too, and `last_emit` did not go down.
proof fn lemma_trace_same_artifact(runs: Seq<FetchRun>, events: Seq<FetchEvent>, outs: Seq<Seq<Directive>>, i: int, j: int)
    requires
        is_trace(runs, events, outs),
        0 <= i <= j < runs.len(),
        runs[i].current == runs[j].current,
    ensures
        forall|k: int| i <= k <= j ==> #[trigger] runs[k].current == runs[i].current,
        runs[i].last_emit <= runs[j].last_emit,
    decreases j - i,
{
    if i < j {
        lemma_trace_wf(runs, events, outs, i);
        assert(runs[i].step_post(events[i], runs[i + 1], outs[i]));
        lemma_step_keeps_wf(runs[i], events[i], runs[i + 1], outs[i]);
        lemma_trace_current_grows(runs, events, outs, i + 1, j);
        lemma_trace_same_artifact(runs, events, outs, i + 1, j);
        lemma_progress_monotone(runs[i], events[i], runs[i + 1], outs[i]);
    }
}

/// The artifact in flight never moves back along a trace.
proof fn lemma_trace_current_grows(runs: Seq<FetchRun>, events: Seq<FetchEvent>, outs: Seq<Seq<Directive>>, i: int, j: int)
    requires
        is_trace(runs, events, outs),
        0 <= i <= j < runs.len(),
    ensures
        runs[i].current <= runs[j].current,
    decreases j - i,
{
    if i < j {
        lemma_trace_wf(runs, events, outs, i);
        assert(runs[i].step_post(events[i], runs[i + 1], outs[i]));
        lemma_step_keeps_wf(runs[i], events[i], runs[i + 1], outs[i]);
        lemma_trace_current_grows(runs, events, outs, i + 1, j);
    }
}

/// Over a whole run, progress for one artifact never goes back: take a
/// progress event `p` (position `a` of step `i`) and a later one `q`
/// (position `b` of step `j`) for the artifact in flight at step `i`, `q`
/// being either sent while that artifact is still in flight or the
/// `complete` event that ends it. Then `p.downloaded <= q.downloaded`.
pub proof fn lemma_run_progress_monotone(
    runs: Seq<FetchRun>,
    events: Seq<FetchEvent>,
    outs: Seq<Seq<Directive>>,
    i: int,
    a: int,
    j: int,
    b: int,
)
    requires
        is_trace(runs, events, outs),
        0 <= i <= j < events.len(),
        0 <= a < outs[i].len(),
        0 <= b < outs[j].len(),
        i < j || a < b,
        runs[i + 1].current == runs[i].current,
        runs[j].current == runs[i].current,
        runs[j + 1].current == runs[i].current || b == 0,
        outs[i][a] is Progress,
        outs[j][b] is Progress,
    ensures
        outs[i][a]->Progress_0.downloaded <= outs[j][b]->Progress_0.downloaded,
{
    lemma_trace_wf(runs, events, outs, i);
    lemma_trace_wf(runs, events, outs, j);
    assert(runs[i].step_post(events[i], runs[i + 1], outs[i]));
    assert(runs[j].step_post(events[j], runs[j + 1], outs[j]));
    lemma_progress_monotone(runs[i], events[i], runs[i + 1], outs[i]);
    lemma_progress_monotone(runs[j], events[j], runs[j + 1], outs[j]);
    if i < j {
        lemma_trace_same_artifact(runs, events, outs, i + 1, j);
    }
}


/// Along steps that send no progress event, with one artifact in flight past
/// its first chunk phase, `last_emit` stays put.
proof fn lemma_quiet_steps(runs: Seq<FetchRun>, events: Seq<FetchEvent>, outs: Seq<Seq<Directive>>, i: int, j: int)
    requires
        is_trace(runs, events, outs),
        0 <= i <= j < runs.len(),
        runs[i].current == runs[j].current,
        runs[i].phase != Phase::Requesting && runs[i].phase != Phase::Creating,
        forall|k: int, c: int| i <= k < j && 0 <= c < outs[k].len() ==> !(#[trigger] outs[k][c] is Progress),
    ensures
        runs[j].last_emit == runs[i].last_emit,
        runs[j].phase != Phase::Requesting && runs[j].phase != Phase::Creating,
    decreases j - i,
{
    if i < j {
        lemma_trace_wf(runs, events, outs, i);
        assert(runs[i].step_post(events[i], runs[i + 1], outs[i]));
        lemma_trace_same_artifact(runs, events, outs, i, j);
        assert(runs[i + 1].current == runs[i].current);
        if runs[i].phase == Phase::Streaming && events[i] is Chunk {
            if outs[i].len() == 2 {
                assert(!(outs[i][0] is Progress));
            }
        }
        lemma_quiet_steps(runs, events, outs, i + 1, j);
    }
}

/// Over a whole run, progress events are throttled: if `p` (step `i`) and
/// `q` (step `j`) are consecutive `downloading` events for the artifact in
/// flight, with no progress event in the steps between, then `q` comes more
/// than `EMIT_THRESHOLD` bytes after `p`, or `q` is at the artifact's total.
pub proof fn lemma_run_progress_throttled(
    runs: Seq<FetchRun>,
    events: Seq<FetchEvent>,
    outs: Seq<Seq<Directive>>,
    i: int,
    a: int,
    j: int,
    b: int,
)
    requires
        is_trace(runs, events, outs),
        0 <= i < j < events.len(),
        0 <= a < outs[i].len(),
        0 <= b < outs[j].len(),
        runs[i + 1].current == runs[i].current,
        runs[j + 1].current == runs[i].current,
        outs[i][a] is Progress,
        outs[j][b] is Progress,
        forall|k: int, c: int| i < k < j && 0 <= c < outs[k].len() ==> !(#[trigger] outs[k][c] is Progress),
    ensures
        outs[j][b]->Progress_0.downloaded - outs[i][a]->Progress_0.downloaded > EMIT_THRESHOLD
            || outs[j][b]->Progress_0.downloaded == outs[j][b]->Progress_0.total,
{
    lemma_trace_wf(runs, events, outs, i);
    lemma_trace_wf(runs, events, outs, j);
    assert(runs[i].step_post(events[i], runs[i + 1], outs[i]));
    assert(runs[j].step_post(events[j], runs[j + 1], outs[j]));
    lemma_trace_current_grows(runs, events, outs, i + 1, j);
    lemma_trace_current_grows(runs, events, outs, j, j + 1);
    lemma_progress_monotone(runs[i], events[i], runs[i + 1], outs[i]);
    lemma_progress_throttled(runs[j], events[j], runs[j + 1], outs[j]);
    lemma_progress_monotone(runs[j], events[j], runs[j + 1], outs[j]);
    lemma_quiet_steps(runs, events, outs, i + 1, j);
}

/// Decimal digits of `n`, most significant first.
pub open spec fn decimal(n: nat) -> Seq<char>
    decreases n,
{
    if n < 10 {
        seq![digit_char(n)]
    } else {
        decimal(n / 10).push(digit_char(n % 10))
    }
}

pub open spec fn digit_char(d: nat) -> char {
    if d == 0 { '0' } else if d == 1 { '1' } else if d == 2 { '2' } else if d == 3 { '3' }
    else if d == 4 { '4' } else if d == 5 { '5' } else if d == 6 { '6' } else if d == 7 { '7' }
    else if d == 8 { '8' } else { '9' }
}

fn digit_str(d: u16) -> (r: &'static str)
    requires
        d < 10,
    ensures
        r@ == seq![digit_char(d as nat)],
{
    proof {
        reveal_strlit("0");
        reveal_strlit("1");
        reveal_strlit("2");
        reveal_strlit("3");
        reveal_strlit("4");
        reveal_strlit("5");
        reveal_strlit("6");
        reveal_strlit("7");
        reveal_strlit("8");
        reveal_strlit("9");
    }
    let r = if d == 0 { "0" } else if d == 1 { "1" } else if d == 2 { "2" } else if d == 3 { "3" }
        else if d == 4 { "4" } else if d == 5 { "5" } else if d == 6 { "6" } else if d == 7 { "7" }
        else if d == 8 { "8" } else { "9" };
    assert(r@ =~= seq![digit_char(d as nat)]);
    r
}

/// `s` followed by the decimal digits of `n`.
fn append_decimal(s: String, n: u16) -> (r: String)
    ensures
        r@ == s@ + decimal(n as nat),
    decreases n,
{
    if n < 10 {
        s.concat(digit_str(n))
    } else {
        let r = append_decimal(s, n / 10).concat(digit_str(n % 10));
        assert(r@ =~= s@ + decimal(n as nat));
        r
    }
}

/// Whether an HTTP status code means success.
pub open spec fn is_success_status(status: u16) -> bool {
    200 <= status <= 299
}

/// The message for a response to the request for `name` whose status is not
/// a success.
pub open spec fn status_failure_message(name: Seq<char>, status: u16) -> Seq<char> {
    "Failed to fetch "@ + name + ": HTTP status "@ + decimal(status as nat)
}

/// The event for a response with HTTP `status` to the request for the
/// artifact called `name`: a success status lets the transfer go on with the
/// declared content length; any other status is a network error that stops
/// the run.
pub fn response_event(name: &str, status: u16, content_length: Option<u64>) -> (r: FetchEvent)
    ensures
        is_success_status(status) ==> r == (FetchEvent::Responded { content_length }),
        !is_success_status(status) ==> match r {
            FetchEvent::Failed { message } => message@ == status_failure_message(name@, status),
            _ => false,
        },
{
    if 200 <= status && status <= 299 {
        FetchEvent::Responded { content_length }
    } else {
        let message = String::from_str("Failed to fetch ").concat(name).concat(": HTTP status ");
        let message = append_decimal(message, status);
        FetchEvent::Failed { message }
    }
}

/// Guard that lets at most one fetch run go at a time.
#[derive(Debug)]
pub struct RunGuard {
    pub running: bool,
}

impl RunGuard {
    pub fn new() -> (r: RunGuard)
        ensures
            !r.running,
    {
        RunGuard { running: false }
    }

    /// Claims the guard for a new run; returns false, changing nothing, when
    /// a run is already going.
    pub fn try_begin(&mut self) -> (r: bool)
        ensures
            r == !old(self).running,
            final(self).running,
    {
        if self.running {
            false
        } else {
            self.running = true;
            true
        }
    }

    /// Releases the guard at the end of a run.
    pub fn finish(&mut self)
        ensures
            !final(self).running,
    {
        self.running = false;
    }
}

} // verus!
