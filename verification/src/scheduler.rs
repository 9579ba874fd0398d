//! The analysis scheduler's decisions.
//!
//! The capture loop alternates outside work (waiting, capturing, calling a
//! model, writing the database) with decisions.  The decisions are here: the
//! scheduler's run/pause state, what one tick does with a captured frame,
//! when a batch of frames is analysed, how an analysis extends or starts an
//! activity segment, which model configuration and protocol are used, when
//! a failed call is retried, and how batch-API results are consolidated.
//! The caller performs each action and hands back what came of it.

use vstd::prelude::*;
use crate::config::LlmConfig;
use crate::db::models::{ActivitySegment, SegmentView, ScreenshotFrame as FrameRecord};
use crate::datetime::{DateTime, datetime_text, format_datetime, seconds_between};
use crate::llm::adapter::{AnalysisImage, AnalysisResult, LlmError, UsageInfo};
use crate::llm::kimi_batch::{BatchInputItem, KimiBatchAdapter, is_analysis_item};
use crate::screen::{ScreenshotFrame, duplicate, is_duplicate};
use crate::image::{encode_base64, base64_standard};
use crate::text::{opt_str, opt_str_ref, clone_opt, str_or_empty, has_substring, occurs_at, contains, to_lowercase, lowercase_of, str_eq};

verus! {

/// Most frames analysed together (a model's context window limits it).
pub const MAX_IMAGES_PER_BATCH: usize = 10;

// ---------------------------------------------------------------------------
// Task handles and the scheduler's control state
// ---------------------------------------------------------------------------

/// The cancel flag of a periodic background task.  A value has a single
/// owner and is not copied; the task and whoever may cancel it share one
/// handle behind a lock (`Arc<Mutex<TaskHandle>>`).  Once cancelled it
/// stays cancelled.
#[derive(Debug)]
pub struct TaskHandle {
    pub cancelled: bool,
}

impl TaskHandle {
    /// A handle of a task that has not been cancelled.
    pub fn new() -> (h: Self)
        ensures
            !h.cancelled,
    {
        TaskHandle { cancelled: false }
    }

    /// Asks the task to stop at its next iteration.
    pub fn cancel(&mut self)
        ensures
            final(self).cancelled,
            old(self).cancelled ==> *final(self) == *old(self),
    {
        self.cancelled = true;
    }

    /// Whether the task was asked to stop.
    pub fn is_cancelled(&self) -> (res: bool)
        ensures
            res == self.cancelled,
    {
        self.cancelled
    }
}

/// Whether the analysis loop runs, is paused, and has a task.
#[derive(Clone, Copy, Debug)]
pub struct Scheduler {
    pub is_paused: bool,
    pub is_running: bool,
    pub has_task: bool,
}

/// The analysis interval is a whole multiple of the capture interval.
pub open spec fn intervals_consistent_spec(capture_secs: u64, analysis_secs: u64) -> bool {
    analysis_secs >= capture_secs && analysis_secs % capture_secs == 0
}

/// Whether the analysis interval is a whole multiple of the capture
/// interval (only a warning is given when it is not).
pub fn intervals_consistent(capture_secs: u64, analysis_secs: u64) -> (res: bool)
    requires
        capture_secs > 0,
    ensures
        res == intervals_consistent_spec(capture_secs, analysis_secs),
{
    analysis_secs >= capture_secs && analysis_secs % capture_secs == 0
}

impl Scheduler {
    /// Not running, not paused, no task.
    pub fn new() -> (s: Self)
        ensures
            !s.is_paused && !s.is_running && !s.has_task,
    {
        Scheduler { is_paused: false, is_running: false, has_task: false }
    }

    /// Starts the analysis loop: refused while a task exists, else running
    /// and unpaused with a task.
    pub fn start(&mut self, capture_secs: u64, analysis_secs: u64) -> (res: Result<(), String>)
        requires
            old(self).has_task || capture_secs > 0,
        ensures
            old(self).has_task ==> (res matches Err(e) && e@ == "Scheduler is already running"@)
                && *final(self) == *old(self),
            !old(self).has_task ==> res is Ok && final(self).is_running && !final(self).is_paused
                && final(self).has_task,
    {
        if self.has_task {
            return Err(String::from_str("Scheduler is already running"));
        }
        let _consistent = intervals_consistent(capture_secs, analysis_secs);
        self.is_running = true;
        self.is_paused = false;
        self.has_task = true;
        Ok(())
    }

    pub fn pause(&mut self)
        ensures
            final(self).is_paused,
            final(self).is_running == old(self).is_running,
            final(self).has_task == old(self).has_task,
    {
        self.is_paused = true;
    }

    pub fn resume(&mut self)
        ensures
            !final(self).is_paused,
            final(self).is_running == old(self).is_running,
            final(self).has_task == old(self).has_task,
    {
        self.is_paused = false;
    }

    pub fn is_paused(&self) -> (res: bool)
        ensures
            res == self.is_paused,
    {
        self.is_paused
    }

    pub fn is_running(&self) -> (res: bool)
        ensures
            res == self.is_running,
    {
        self.is_running
    }

    /// Stops the loop and drops its task; the pause flag is kept.
    pub fn stop(&mut self) -> (res: Result<(), String>)
        ensures
            res is Ok,
            !final(self).is_running,
            !final(self).has_task,
            final(self).is_paused == old(self).is_paused,
    {
        self.is_running = false;
        self.has_task = false;
        Ok(())
    }
}

// ---------------------------------------------------------------------------
// One tick of the capture loop
// ---------------------------------------------------------------------------

/// Whether the frontmost application is one of the blocked ones: its name
/// contains a blocked name.  Without a known frontmost application nothing
/// is blocked.
pub open spec fn blocked_spec(frontmost: Option<Seq<char>>, blocked_apps: Seq<Seq<char>>) -> bool {
    match frontmost {
        Some(app) => exists|i: int| 0 <= i < blocked_apps.len() && has_substring(app, #[trigger] blocked_apps[i]),
        None => false,
    }
}

/// Blocking by name: an application named exactly like a blocked name, or
/// whose name holds one, is blocked; an application is blocked only
/// because of some name on the list, so an empty list blocks nothing;
/// adding names never unblocks an application.
pub proof fn lemma_blocked_by_name(app: Seq<char>, blocked_apps: Seq<Seq<char>>, more: Seq<Seq<char>>, prefix: Seq<char>, suffix: Seq<char>)
    ensures
        blocked_apps.contains(app) ==> blocked_spec(Some(app), blocked_apps),
        blocked_apps.contains(app) ==> blocked_spec(Some(prefix + app + suffix), blocked_apps),
        !blocked_spec(Some(app), Seq::empty()),
        !blocked_spec(None, blocked_apps),
        blocked_spec(Some(app), blocked_apps) ==> blocked_spec(Some(app), blocked_apps + more),
        blocked_spec(Some(app), blocked_apps) ==> blocked_spec(Some(app), more + blocked_apps),
        blocked_spec(Some(app), blocked_apps + more) ==> blocked_spec(Some(app), blocked_apps) || blocked_spec(Some(app), more),
{
    if blocked_apps.contains(app) {
        let i = choose|i: int| 0 <= i < blocked_apps.len() && blocked_apps[i] == app;
        assert(app.subrange(0, app.len() as int) =~= app);
        assert(occurs_at(app, blocked_apps[i], 0));
        let w = prefix + app + suffix;
        assert(w.subrange(prefix.len() as int, (prefix.len() + app.len()) as int) =~= app);
        assert(occurs_at(w, blocked_apps[i], prefix.len() as int));
    }
    if blocked_spec(Some(app), blocked_apps) {
        let i = choose|i: int| 0 <= i < blocked_apps.len() && has_substring(app, #[trigger] blocked_apps[i]);
        assert((blocked_apps + more)[i] == blocked_apps[i]);
        assert((more + blocked_apps)[more.len() + i] == blocked_apps[i]);
    }
    if blocked_spec(Some(app), blocked_apps + more) {
        let v = blocked_apps + more;
        let i = choose|i: int| 0 <= i < v.len() && has_substring(app, #[trigger] v[i]);
        if i < blocked_apps.len() {
            assert(v[i] == blocked_apps[i]);
        } else {
            assert(v[i] == more[i - blocked_apps.len()]);
        }
    }
}

/// The views of a list of names.
pub open spec fn names_view(v: Seq<String>) -> Seq<Seq<char>> {
    v.map_values(|s: String| s@)
}

/// Whether capture is skipped because the frontmost application is blocked.
pub fn is_blocked_app(frontmost: Option<&str>, blocked_apps: &Vec<String>) -> (res: bool)
    ensures
        res == blocked_spec(crate::text::opt_str_ref(frontmost), names_view(blocked_apps@)),
{
    match frontmost {
        None => false,
        Some(app) => {
            let mut i: usize = 0;
            while i < blocked_apps.len()
                invariant
                    i <= blocked_apps.len(),
                    frontmost == Some(app),
                    forall|k: int| 0 <= k < i ==> !has_substring(app@, #[trigger] names_view(blocked_apps@)[k]),
                decreases blocked_apps.len() - i,
            {
                if contains(app, blocked_apps[i].as_str()) {
                    proof {
                        assert(names_view(blocked_apps@)[i as int] == blocked_apps@[i as int]@);
                        assert(has_substring(app@, names_view(blocked_apps@)[i as int]));
                        assert(crate::text::opt_str_ref(frontmost) == Some(app@));
                        assert(names_view(blocked_apps@).len() == blocked_apps@.len());
                    }
                    return true;
                }
                i = i + 1;
            }
            false
        },
    }
}

/// A frame waiting to be analysed, with its base64 encoding when made.
#[derive(Clone, Debug)]
pub struct PendingFrame {
    pub frame: ScreenshotFrame,
    pub b64_cache: Option<String>,
}

/// What the capture loop remembers between ticks.  Times are milliseconds
/// of a monotonic clock.
#[derive(Debug)]
pub struct LoopState {
    pub pending_frames: Vec<PendingFrame>,
    pub last_analysis_ms: u64,
    pub last_activity_ms: Option<u64>,
    pub last_category: Option<String>,
    pub current_segment_id: Option<String>,
}

/// `a - b`, or 0 when `b` is later.
pub open spec fn elapsed(now: u64, t: u64) -> int {
    if now >= t { now - t } else { 0 }
}

/// The user was away for at least half an analysis interval (or this is the
/// first frame): a new session starts.
pub open spec fn was_idle(last_activity: Option<u64>, now: u64, analysis_ms: u64) -> bool {
    match last_activity {
        Some(t) => elapsed(now, t) >= analysis_ms / 2,
        None => true,
    }
}

/// The effect of queueing frame `pf` at `now_ms` (see `enqueue_frame`):
/// `before` becomes `after`, and `batch` is the queue taken for analysis.
pub open spec fn enqueued(
    before: LoopState,
    after: LoopState,
    pf: PendingFrame,
    now_ms: u64,
    analysis_ms: u64,
    batch: Option<Vec<PendingFrame>>,
) -> bool {
    let idle = was_idle(before.last_activity_ms, now_ms, analysis_ms);
    let start = if idle { now_ms } else { before.last_analysis_ms };
    let queue = before.pending_frames@.push(pf);
    let analyze = elapsed(now_ms, start) >= analysis_ms || queue.len() >= MAX_IMAGES_PER_BATCH;
    &&& after.last_activity_ms == Some(now_ms)
    &&& after.last_analysis_ms == start
    &&& analyze ==> (batch matches Some(b) && b@ == queue) && after.pending_frames@.len() == 0
    &&& !analyze ==> batch is None && after.pending_frames@ == queue
    &&& after.last_category == before.last_category
    &&& after.current_segment_id == before.current_segment_id
}

/// Queueing a kept frame never drops a frame that was waiting, idle spell
/// or not: the waiting frames followed by the new one are either still
/// waiting or, all of them, the batch taken for analysis.
pub proof fn lemma_enqueue_keeps_waiting_frames(
    before: LoopState,
    after: LoopState,
    pf: PendingFrame,
    now_ms: u64,
    analysis_ms: u64,
    batch: Option<Vec<PendingFrame>>,
)
    requires
        enqueued(before, after, pf, now_ms, analysis_ms, batch),
    ensures
        match batch {
            Some(b) => b@ == before.pending_frames@.push(pf) && after.pending_frames@.len() == 0,
            None => after.pending_frames@ == before.pending_frames@.push(pf),
        },
        after.pending_frames@.len() + (match batch { Some(b) => b@.len(), None => 0 })
            == before.pending_frames@.len() + 1,
{
}

/// An idle spell restarts the analysis timer at the frame's time and does
/// nothing else to the queue; without one the timer keeps running.
pub proof fn lemma_enqueue_timer(
    before: LoopState,
    after: LoopState,
    pf: PendingFrame,
    now_ms: u64,
    analysis_ms: u64,
    batch: Option<Vec<PendingFrame>>,
)
    requires
        enqueued(before, after, pf, now_ms, analysis_ms, batch),
    ensures
        after.last_activity_ms == Some(now_ms),
        (before.last_activity_ms is None || elapsed(now_ms, before.last_activity_ms->0) >= analysis_ms / 2)
            ==> after.last_analysis_ms == now_ms,
        (before.last_activity_ms is Some && elapsed(now_ms, before.last_activity_ms->0) < analysis_ms / 2)
            ==> after.last_analysis_ms == before.last_analysis_ms,
{
}

/// The queue is taken for analysis exactly when a whole analysis interval
/// has passed since the (possibly restarted) timer, or when the frame fills
/// the queue to `MAX_IMAGES_PER_BATCH` frames; otherwise it keeps waiting.
pub proof fn lemma_enqueue_batch_when(
    before: LoopState,
    after: LoopState,
    pf: PendingFrame,
    now_ms: u64,
    analysis_ms: u64,
    batch: Option<Vec<PendingFrame>>,
)
    requires
        enqueued(before, after, pf, now_ms, analysis_ms, batch),
    ensures
        batch is Some <==> (elapsed(now_ms, after.last_analysis_ms) >= analysis_ms
            || before.pending_frames@.len() + 1 >= MAX_IMAGES_PER_BATCH),
{
}

impl LoopState {
    /// The state when the loop starts at time `now_ms`.
    pub fn new(now_ms: u64) -> (s: Self)
        ensures
            s.pending_frames@.len() == 0,
            s.last_analysis_ms == now_ms,
            s.last_activity_ms is None,
            s.last_category is None,
            s.current_segment_id is None,
    {
        LoopState {
            pending_frames: Vec::new(),
            last_analysis_ms: now_ms,
            last_activity_ms: None,
            last_category: None,
            current_segment_id: None,
        }
    }

    /// Queues a kept frame at time `now_ms` and decides whether to analyse.
    /// After an idle spell the analysis timer restarts.  The queue is taken
    /// for analysis, and returned, once a whole analysis interval has passed
    /// since the timer started or the queue holds `MAX_IMAGES_PER_BATCH`
    /// frames.
    pub fn enqueue_frame(&mut self, pf: PendingFrame, now_ms: u64, analysis_ms: u64) -> (batch: Option<
        Vec<PendingFrame>,
    >)
        ensures
            enqueued(*old(self), *final(self), pf, now_ms, analysis_ms, batch),
    {
        self.pending_frames.push(pf);
        let idle = match self.last_activity_ms {
            Some(t) => {
                let e: u64 = if now_ms >= t { now_ms - t } else { 0 };
                e >= analysis_ms / 2
            },
            None => true,
        };
        if idle {
            self.last_analysis_ms = now_ms;
        }
        self.last_activity_ms = Some(now_ms);
        let since: u64 = if now_ms >= self.last_analysis_ms { now_ms - self.last_analysis_ms } else { 0 };
        let analyze = since >= analysis_ms || self.pending_frames.len() >= MAX_IMAGES_PER_BATCH;
        if analyze {
            let mut batch: Vec<PendingFrame> = Vec::new();
            std::mem::swap(&mut batch, &mut self.pending_frames);
            Some(batch)
        } else {
            None
        }
    }

    /// An analysis was made at time `now_ms`: the timer restarts.
    pub fn analysis_done(&mut self, now_ms: u64)
        ensures
            final(self).last_analysis_ms == now_ms,
            final(self).pending_frames@ == old(self).pending_frames@,
            final(self).last_activity_ms == old(self).last_activity_ms,
            final(self).last_category == old(self).last_category,
            final(self).current_segment_id == old(self).current_segment_id,
    {
        self.last_analysis_ms = now_ms;
    }
}

/// What one tick of the capture loop came to.
#[derive(Debug)]
pub enum TickOutcome {
    /// Recording is paused: nothing was captured.
    Paused,
    /// A blocked application is in front: nothing was captured.
    Blocked,
    /// The capture failed.
    CaptureFailed,
    /// The frame repeats the last kept one: it is dropped (the caller
    /// extends the current segment).
    Duplicate,
    /// The frame was queued.
    Queued,
    /// The frame was queued and the queue taken for analysis.
    Analyze(Vec<PendingFrame>),
}

/// The queue a tick took for analysis, if any.
pub open spec fn taken(out: TickOutcome) -> Option<Vec<PendingFrame>> {
    match out {
        TickOutcome::Analyze(b) => Some(b),
        _ => None,
    }
}

/// The base64 text kept with a queued frame: the JPEG's base64, or empty
/// when it is too long to encode.
pub open spec fn cached_b64(f: ScreenshotFrame, t: Seq<char>) -> bool {
    if f.jpeg_bytes@.len() <= usize::MAX / 2 { t == base64_standard(f.jpeg_bytes@) } else { t.len() == 0 }
}

impl LoopState {
    /// One tick of the capture loop at `now_ms`, given whether recording is
    /// paused, whether a blocked application is in front, and the captured
    /// frame if any (taken only when neither).  A paused or blocked tick, a
    /// failed capture and a duplicate of `last_hash` (within `threshold`
    /// bits) leave the state as it was; a kept frame is encoded and queued
    /// as `enqueue_frame` does.  The queue never reaches
    /// `MAX_IMAGES_PER_BATCH` frames between ticks.
    pub fn tick(
        &mut self,
        paused: bool,
        blocked: bool,
        captured: Option<ScreenshotFrame>,
        last_hash: Option<&str>,
        threshold: u32,
        now_ms: u64,
        analysis_ms: u64,
    ) -> (out: TickOutcome)
        ensures
            paused ==> out is Paused && *final(self) == *old(self),
            !paused && blocked ==> out is Blocked && *final(self) == *old(self),
            !paused && !blocked ==> match captured {
                None => out is CaptureFailed && *final(self) == *old(self),
                Some(f) => if duplicate(f.hash@, opt_str_ref(last_hash), threshold) {
                    out is Duplicate && *final(self) == *old(self)
                } else {
                    &&& out is Queued || out is Analyze
                    &&& exists|t: String| #[trigger] cached_b64(f, t@) && enqueued(
                        *old(self),
                        *final(self),
                        PendingFrame { frame: f, b64_cache: Some(t) },
                        now_ms,
                        analysis_ms,
                        taken(out),
                    )
                },
            },
            old(self).pending_frames@.len() < MAX_IMAGES_PER_BATCH ==> final(self).pending_frames@.len() < MAX_IMAGES_PER_BATCH,
    {
        if paused {
            return TickOutcome::Paused;
        }
        if blocked {
            return TickOutcome::Blocked;
        }
        let frame = match captured {
            Some(f) => f,
            None => {
                return TickOutcome::CaptureFailed;
            },
        };
        if is_duplicate(frame.hash.as_str(), last_hash, threshold) {
            return TickOutcome::Duplicate;
        }
        let b64 = if frame.jpeg_bytes.len() <= usize::MAX / 2 {
            encode_base64(frame.jpeg_bytes.as_slice())
        } else {
            String::new()
        };
        let ghost f = frame;
        let ghost t = b64;
        assert(cached_b64(f, t@));
        let pf = PendingFrame { frame, b64_cache: Some(b64) };
        let ghost before = *self;
        let r = self.enqueue_frame(pf, now_ms, analysis_ms);
        let out = match r {
            Some(b) => TickOutcome::Analyze(b),
            None => TickOutcome::Queued,
        };
        assert(taken(out) == r);
        assert(enqueued(before, *self, PendingFrame { frame: f, b64_cache: Some(t) }, now_ms, analysis_ms, taken(out)));
        out
    }
}

/// The segment of the last analysis extended by one duplicate frame: it
/// now ends at the frame's time and lasts one capture interval longer.
pub fn extend_on_duplicate(seg: ActivitySegment, captured_at: &DateTime, capture_secs: u64) -> (r: ActivitySegment)
    requires
        i64::MIN <= seg.duration_secs + (capture_secs as i64) <= i64::MAX,
    ensures
        r@ == (SegmentView {
            end_time: datetime_text(*captured_at),
            duration_secs: (seg.duration_secs + (capture_secs as i64)) as i64,
            ..seg@
        }),
{
    let mut s = seg;
    s.end_time = format_datetime(captured_at);
    s.duration_secs = s.duration_secs + capture_secs as i64;
    s
}

/// The images of a batch for a real-time analysis: each frame's base64
/// text (empty when it was not encoded) as `image/jpeg`.
pub fn batch_images(batch: &Vec<PendingFrame>) -> (images: Vec<AnalysisImage>)
    ensures
        images@.len() == batch@.len(),
        forall|i: int| 0 <= i < batch@.len() ==> {
            &&& (#[trigger] images@[i]).data@ == str_or_empty(opt_str(batch@[i].b64_cache))
            &&& images@[i].media_type@ == "image/jpeg"@
        },
{
    let mut images: Vec<AnalysisImage> = Vec::new();
    let mut i: usize = 0;
    while i < batch.len()
        invariant
            i <= batch.len(),
            images@.len() == i,
            forall|k: int| 0 <= k < i ==> {
                &&& (#[trigger] images@[k]).data@ == str_or_empty(opt_str(batch@[k].b64_cache))
                &&& images@[k].media_type@ == "image/jpeg"@
            },
        decreases batch.len() - i,
    {
        let data = match &batch[i].b64_cache {
            Some(d) => d.clone(),
            None => String::new(),
        };
        images.push(AnalysisImage { data, media_type: String::from_str("image/jpeg") });
        i = i + 1;
    }
    images
}

/// The batch-API requests of a batch: one analysis request per frame, with
/// the frame id as custom id, the prompt, and the frame's base64 JPEG (empty
/// when it was not encoded).
pub fn batch_items(batch: &Vec<PendingFrame>, config: &LlmConfig, prompt: &str) -> (items: Vec<BatchInputItem>)
    ensures
        items@.len() == batch@.len(),
        forall|i: int| 0 <= i < batch@.len() ==> #[trigger] is_analysis_item(
            items@[i],
            batch@[i].frame.id@,
            config.model@,
            str_or_empty(opt_str(batch@[i].b64_cache)),
            prompt@,
            config.max_tokens,
        ),
{
    let mut items: Vec<BatchInputItem> = Vec::new();
    let mut i: usize = 0;
    while i < batch.len()
        invariant
            i <= batch.len(),
            items@.len() == i,
            forall|k: int| 0 <= k < i ==> #[trigger] is_analysis_item(
                items@[k],
                batch@[k].frame.id@,
                config.model@,
                str_or_empty(opt_str(batch@[k].b64_cache)),
                prompt@,
                config.max_tokens,
            ),
        decreases batch.len() - i,
    {
        let b64 = match &batch[i].b64_cache {
            Some(d) => d.clone(),
            None => String::new(),
        };
        let item = KimiBatchAdapter::build_analysis_item(
            batch[i].frame.id.as_str(),
            config.model.as_str(),
            b64.as_str(),
            prompt,
            config.max_tokens,
        );
        items.push(item);
        i = i + 1;
    }
    items
}

// ---------------------------------------------------------------------------
// Model configuration and retries
// ---------------------------------------------------------------------------

/// The batch API is used only for OpenAI-compatible providers.
pub open spec fn batch_capable(provider: Seq<char>) -> bool {
    lowercase_of(provider) == "openai"@ || lowercase_of(provider) == "custom"@
}

/// Whether a provider offers the batch API.
pub fn batch_provider(provider: &str) -> (res: bool)
    ensures
        res == batch_capable(provider@),
{
    let p = to_lowercase(provider);
    str_eq(p.as_str(), "openai") || str_eq(p.as_str(), "custom")
}

/// The run-time configuration made from the stored active one: marked
/// active, `max_tokens` truncated to 32 bits, and the batch flag kept only
/// when `keep_batch`.
pub open spec fn config_from_db(db: crate::db::models::LlmConfig, c: LlmConfig, keep_batch: bool) -> bool {
    &&& c.name@ == db.name@
    &&& c.provider@ == db.provider@
    &&& c.base_url@ == db.base_url@
    &&& c.model@ == db.model@
    &&& opt_str(c.api_key) == opt_str(db.api_key)
    &&& c.max_tokens == db.max_tokens as u32
    &&& c.is_active
    &&& c.use_batch_api == (keep_batch && db.use_batch_api == Some(true))
}

/// The run-time configuration of a stored one (see `config_from_db`).
pub fn llm_config_from_db(db: &crate::db::models::LlmConfig, keep_batch: bool) -> (c: LlmConfig)
    ensures
        config_from_db(*db, c, keep_batch),
{
    let use_batch = keep_batch && match db.use_batch_api {
        Some(b) => b,
        None => false,
    };
    LlmConfig {
        name: db.name.clone(),
        provider: db.provider.clone(),
        base_url: db.base_url.clone(),
        model: db.model.clone(),
        api_key: clone_opt(&db.api_key),
        max_tokens: db.max_tokens as u32,
        is_active: true,
        use_batch_api: use_batch,
    }
}

/// The configuration for the next analysis, read afresh from the active
/// stored one, and whether the batch API is used: only when it is enabled
/// and the provider offers it.
pub fn load_llm_config(active: Option<&crate::db::models::LlmConfig>) -> (res: Option<(LlmConfig, bool)>)
    ensures
        match active {
            None => res is None,
            Some(db) => res matches Some(p) && config_from_db(*db, p.0, true)
                && p.1 == (db.use_batch_api == Some(true) && batch_capable(db.provider@)),
        },
{
    match active {
        None => None,
        Some(db) => {
            let cfg = llm_config_from_db(db, true);
            let batch = cfg.use_batch_api && batch_provider(cfg.provider.as_str());
            Some((cfg, batch))
        },
    }
}

/// Retries allowed after a failed analysis call.
pub const MAX_ANALYSIS_RETRIES: u32 = 2;

/// A failed analysis call is retried when the failure was a timeout or a
/// network error and fewer than two retries were made.
pub fn should_retry(err: &LlmError, retries: u32) -> (res: bool)
    ensures
        res == ((*err is Network || *err is Timeout) && retries < MAX_ANALYSIS_RETRIES),
{
    err.is_transient() && retries < MAX_ANALYSIS_RETRIES
}

// ---------------------------------------------------------------------------
// Persisting an analysis
// ---------------------------------------------------------------------------

/// Texts joined with `","`.
pub open spec fn join_ids(ids: Seq<Seq<char>>) -> Seq<char>
    decreases ids.len(),
{
    if ids.len() == 0 {
        Seq::empty()
    } else if ids.len() == 1 {
        ids[0]
    } else {
        join_ids(ids.drop_last()) + ","@ + ids.last()
    }
}

/// Joining one more id adds it after a comma, or alone when it is the
/// first; the ids before it are joined as they were.
pub proof fn lemma_join_ids_push(ids: Seq<Seq<char>>, x: Seq<char>)
    ensures
        join_ids(ids.push(x)) == if ids.len() == 0 { x } else { join_ids(ids) + ","@ + x },
{
    assert(ids.push(x).drop_last() =~= ids);
    if ids.len() == 0 {
        assert(ids.push(x)[0] == x);
    }
}

/// Joining two non-empty lists of ids gives the two joins with a comma
/// between them.
pub proof fn lemma_join_ids_concat(a: Seq<Seq<char>>, b: Seq<Seq<char>>)
    requires
        a.len() > 0,
    ensures
        join_ids(a + b) == if b.len() == 0 { join_ids(a) } else { join_ids(a) + ","@ + join_ids(b) },
    decreases b.len(),
{
    if b.len() == 0 {
        assert(a + b =~= a);
    } else if b.len() == 1 {
        assert(a + b =~= a.push(b[0]));
        lemma_join_ids_push(a, b[0]);
    } else {
        let d = b.drop_last();
        lemma_join_ids_concat(a, d);
        assert(a + b =~= (a + d).push(b.last()));
        lemma_join_ids_push(a + d, b.last());
        lemma_join_ids_push(d, b.last());
        assert(d.push(b.last()) =~= b);
        assert(join_ids(a + b) =~= join_ids(a) + ","@ + join_ids(b));
    }
}

/// The ids of the frames of a batch.
pub open spec fn frame_ids(batch: Seq<PendingFrame>) -> Seq<Seq<char>> {
    batch.map_values(|p: PendingFrame| p.frame.id@)
}

/// The ids of a batch's frames joined with `","`.
pub fn join_frame_ids(batch: &Vec<PendingFrame>) -> (r: String)
    ensures
        r@ == join_ids(frame_ids(batch@)),
{
    let mut r = String::new();
    let mut i: usize = 0;
    while i < batch.len()
        invariant
            i <= batch.len(),
            r@ == join_ids(frame_ids(batch@).take(i as int)),
        decreases batch.len() - i,
    {
        let ghost before = r@;
        if i > 0 {
            r.append(",");
        }
        r.append(batch[i].frame.id.as_str());
        proof {
            let t = frame_ids(batch@).take(i + 1);
            assert(t.drop_last() =~= frame_ids(batch@).take(i as int));
            assert(t.last() == batch@[i as int].frame.id@);
            if i == 0 {
                assert(r@ =~= t[0]);
            } else {
                assert(r@ =~= before + ","@ + t.last());
            }
        }
        i = i + 1;
    }
    proof {
        assert(frame_ids(batch@).take(batch@.len() as int) =~= frame_ids(batch@));
    }
    r
}

/// The database record of a frame of an analysed batch.
pub fn frame_record(f: &ScreenshotFrame, disk_path: Option<String>, analysis: &AnalysisResult) -> (r: FrameRecord)
    requires
        f.jpeg_bytes@.len() <= i64::MAX,
    ensures
        r.id@ == f.id@,
        r.captured_at@ == datetime_text(f.captured_at),
        r.created_at@ == datetime_text(f.captured_at),
        r.file_path@ == str_or_empty(opt_str(disk_path)),
        r.file_size == f.jpeg_bytes@.len(),
        r.width == f.width as i32,
        r.height == f.height as i32,
        r.phash@ == f.hash@,
        opt_str(r.app_name) == opt_str(analysis.app_name),
        opt_str(r.window_title) == opt_str(analysis.window_title),
{
    let ts = format_datetime(&f.captured_at);
    let path = match disk_path {
        Some(p) => p,
        None => String::new(),
    };
    FrameRecord {
        id: f.id.clone(),
        captured_at: ts.clone(),
        file_path: path,
        file_size: f.jpeg_bytes.len() as i64,
        width: f.width as i32,
        height: f.height as i32,
        phash: f.hash.clone(),
        app_name: clone_opt(&analysis.app_name),
        window_title: clone_opt(&analysis.window_title),
        created_at: ts,
    }
}

/// The span of a batch: the capture time of its first and of its last
/// frame (empty for an empty batch), and its duration, one capture
/// interval per frame.
pub fn batch_span(batch: &Vec<PendingFrame>, capture_secs: u64) -> (r: (String, String, u64))
    requires
        batch@.len() * capture_secs <= u64::MAX,
    ensures
        r.0@ == if batch@.len() > 0 { datetime_text(batch@[0].frame.captured_at) } else { Seq::empty() },
        r.1@ == if batch@.len() > 0 { datetime_text(batch@.last().frame.captured_at) } else { Seq::empty() },
        r.2 == batch@.len() * capture_secs,
{
    let start = if batch.len() > 0 { format_datetime(&batch[0].frame.captured_at) } else { String::new() };
    let end = if batch.len() > 0 {
        format_datetime(&batch[batch.len() - 1].frame.captured_at)
    } else {
        String::new()
    };
    (start, end, batch.len() as u64 * capture_secs)
}

/// What an analysis does to the timeline.
#[derive(Clone, Debug)]
pub enum SegmentAction {
    /// Same category as the previous analysis: extend this segment.
    Extend(String),
    /// Another category: start a new segment.
    Create,
}

impl LoopState {
    /// What an analysis of category `category` does: extend the current
    /// segment when the category is the previous one's (nothing when there
    /// is no current segment), else start a new segment.
    pub fn segment_action(&self, category: &str) -> (a: Option<SegmentAction>)
        ensures
            opt_str(self.last_category) == Some(category@) ==> match self.current_segment_id {
                Some(id) => a matches Some(SegmentAction::Extend(x)) && x@ == id@,
                None => a is None,
            },
            opt_str(self.last_category) != Some(category@) ==> a matches Some(SegmentAction::Create),
    {
        let same = match &self.last_category {
            Some(c) => str_eq(c.as_str(), category),
            None => false,
        };
        if same {
            match &self.current_segment_id {
                Some(id) => Some(SegmentAction::Extend(id.clone())),
                None => None,
            }
        } else {
            Some(SegmentAction::Create)
        }
    }

    /// Remembers the category of an analysis and, when it started one, the
    /// new current segment.
    pub fn record_analysis(&mut self, category: &str, new_segment_id: Option<String>)
        ensures
            opt_str(final(self).last_category) == Some(category@),
            final(self).current_segment_id == match new_segment_id {
                Some(id) => Some(id),
                None => old(self).current_segment_id,
            },
            final(self).pending_frames@ == old(self).pending_frames@,
            final(self).last_analysis_ms == old(self).last_analysis_ms,
            final(self).last_activity_ms == old(self).last_activity_ms,
    {
        self.last_category = Some(String::from_str(category));
        match new_segment_id {
            Some(id) => {
                self.current_segment_id = Some(id);
            },
            None => {},
        }
    }
}

/// The current segment extended by an analysis of the same category: it
/// ends at `end_ts`, lasts `batch_secs` longer, appends the activity to its
/// summary after `"; "` and the batch's frame ids after `","`.
pub open spec fn extended(seg: SegmentView, end_ts: Seq<char>, batch_secs: u64, activity: Seq<char>, new_ids: Seq<char>) -> SegmentView {
    let existing = str_or_empty(seg.source_frame_ids);
    SegmentView {
        end_time: end_ts,
        duration_secs: (seg.duration_secs + (batch_secs as i64)) as i64,
        llm_summary: Some(match seg.llm_summary {
            Some(s) => s + "; "@ + activity,
            None => activity,
        }),
        source_frame_ids: Some(if existing.len() == 0 { new_ids } else { existing + ","@ + new_ids }),
        ..seg
    }
}

/// Extending a segment keeps what identifies it (id, start, category,
/// application, window, label, confidence, cost, tokens, creation time);
/// it now ends at the batch's end, lasts the batch's time longer, its
/// summary ends with the new activity and its frame ids end with the
/// batch's ids, after what it had.
pub proof fn lemma_extended_keeps_identity(seg: SegmentView, end_ts: Seq<char>, batch_secs: u64, activity: Seq<char>, new_ids: Seq<char>)
    ensures
        ({
            let r = extended(seg, end_ts, batch_secs, activity, new_ids);
            &&& r.id == seg.id
            &&& r.start_time == seg.start_time
            &&& r.category == seg.category
            &&& r.app_name == seg.app_name
            &&& r.window_title == seg.window_title
            &&& r.user_label == seg.user_label
            &&& r.confidence_bits == seg.confidence_bits
            &&& r.is_manual == seg.is_manual
            &&& r.created_at == seg.created_at
            &&& r.llm_cost_bits == seg.llm_cost_bits
            &&& r.llm_tokens == seg.llm_tokens
            &&& r.end_time == end_ts
            &&& (batch_secs <= i64::MAX && seg.duration_secs + batch_secs <= i64::MAX ==> r.duration_secs == seg.duration_secs + batch_secs)
            &&& r.llm_summary matches Some(t) && t.len() >= activity.len()
                && t.subrange(t.len() - activity.len(), t.len() as int) == activity
                && (seg.llm_summary matches Some(old) ==> t.subrange(0, old.len() as int) == old)
            &&& r.source_frame_ids matches Some(f) && f.len() >= new_ids.len()
                && f.subrange(f.len() - new_ids.len(), f.len() as int) == new_ids
                && (seg.source_frame_ids matches Some(old) ==> f.subrange(0, old.len() as int) == old)
        }),
{
    let r = extended(seg, end_ts, batch_secs, activity, new_ids);
    let t = r.llm_summary->0;
    match seg.llm_summary {
        Some(old) => {
            assert(t.subrange(t.len() - activity.len(), t.len() as int) =~= activity);
            assert(t.subrange(0, old.len() as int) =~= old);
        },
        None => {
            assert(t.subrange(t.len() - activity.len(), t.len() as int) =~= activity);
        },
    }
    let f = r.source_frame_ids->0;
    let existing = str_or_empty(seg.source_frame_ids);
    if existing.len() == 0 {
        assert(f.subrange(f.len() - new_ids.len(), f.len() as int) =~= new_ids);
        if seg.source_frame_ids is Some {
            assert(f.subrange(0, 0) =~= existing);
        }
    } else {
        assert(f.subrange(f.len() - new_ids.len(), f.len() as int) =~= new_ids);
        assert(f.subrange(0, existing.len() as int) =~= existing);
    }
}

/// Extends the current segment (see `extended`).
pub fn extend_segment(seg: ActivitySegment, end_ts: &str, batch_secs: u64, activity: &str, new_ids: &str) -> (r: ActivitySegment)
    requires
        i64::MIN <= seg.duration_secs + (batch_secs as i64) <= i64::MAX,
    ensures
        r@ == extended(seg@, end_ts@, batch_secs, activity@, new_ids@),
{
    let mut s = seg;
    let ghost s0 = s@;
    s.end_time = String::from_str(end_ts);
    s.duration_secs = s.duration_secs + batch_secs as i64;
    let summary = match &s.llm_summary {
        Some(t) => t.clone().concat("; ").concat(activity),
        None => String::from_str(activity),
    };
    s.llm_summary = Some(summary);
    let existing = match &s.source_frame_ids {
        Some(t) => t.clone(),
        None => String::new(),
    };
    let ids = if existing.as_str().unicode_len() == 0 {
        String::from_str(new_ids)
    } else {
        existing.concat(",").concat(new_ids)
    };
    s.source_frame_ids = Some(ids);
    proof {
        assert(s@ =~= extended(s0, end_ts@, batch_secs, activity@, new_ids@));
    }
    s
}

/// The token count of a segment after adding an analysis's tokens.
pub fn extended_tokens(seg: &ActivitySegment, llm_tokens: i64) -> (t: i64)
    requires
        i64::MIN <= (match seg.llm_tokens { Some(x) => x as int, None => 0 }) + llm_tokens <= i64::MAX,
    ensures
        t == (match seg.llm_tokens { Some(x) => x as int, None => 0 }) + llm_tokens,
{
    let before = match seg.llm_tokens {
        Some(x) => x,
        None => 0,
    };
    before + llm_tokens
}

/// The new segment of an analysis of another category: it spans the batch,
/// takes the analysis's application, window, activity (as summary) and
/// category, and the batch's frame ids; tokens are kept only when positive.
pub fn new_segment(
    id: String,
    start_ts: String,
    end_ts: String,
    batch_secs: u64,
    analysis: &AnalysisResult,
    frame_ids: String,
    confidence_bits: u64,
    cost_bits: Option<u64>,
    llm_tokens: i64,
) -> (r: ActivitySegment)
    ensures
        r.id@ == id@,
        r.start_time@ == start_ts@,
        r.end_time@ == end_ts@,
        r.created_at@ == end_ts@,
        r.duration_secs == batch_secs as i64,
        opt_str(r.app_name) == opt_str(analysis.app_name),
        opt_str(r.window_title) == opt_str(analysis.window_title),
        opt_str(r.llm_summary) == Some(analysis.activity@),
        r.category@ == analysis.category@,
        r.user_label is None,
        r.confidence_bits == confidence_bits,
        opt_str(r.source_frame_ids) == Some(frame_ids@),
        !r.is_manual,
        r.llm_cost_bits == cost_bits,
        r.llm_tokens == if llm_tokens > 0 { Some(llm_tokens) } else { None },
{
    let created = end_ts.clone();
    ActivitySegment {
        id,
        start_time: start_ts,
        end_time: end_ts,
        duration_secs: batch_secs as i64,
        app_name: clone_opt(&analysis.app_name),
        window_title: clone_opt(&analysis.window_title),
        llm_summary: Some(analysis.activity.clone()),
        category: analysis.category.clone(),
        user_label: None,
        confidence_bits,
        source_frame_ids: Some(frame_ids),
        is_manual: false,
        created_at: created,
        llm_cost_bits: cost_bits,
        llm_tokens: if llm_tokens > 0 { Some(llm_tokens) } else { None },
    }
}

// ---------------------------------------------------------------------------
// Batch API: pending batches, polling and results
// ---------------------------------------------------------------------------

/// A batch submitted to the batch API and not yet processed.
#[derive(Debug)]
pub struct PendingBatch {
    pub batch_id: String,
    pub submitted_at: DateTime,
    pub adapter_config: LlmConfig,
    /// The frames submitted, needed to store the results.
    pub frames: Vec<PendingFrame>,
    /// The prompt the model was given.
    pub prompt: String,
    /// The model at submission time.
    pub model: String,
}

/// The record of a submitted batch.
pub fn pending_batch(
    batch_id: String,
    submitted_at: DateTime,
    config: LlmConfig,
    frames: Vec<PendingFrame>,
    prompt: &str,
) -> (b: PendingBatch)
    ensures
        b.batch_id == batch_id,
        b.submitted_at == submitted_at,
        b.model@ == config.model@,
        b.adapter_config == config,
        b.frames == frames,
        b.prompt@ == prompt@,
{
    let model = config.model.clone();
    PendingBatch { batch_id, submitted_at, adapter_config: config, frames, prompt: String::from_str(prompt), model }
}

/// What the poll loop does with a batch's status.
#[derive(Clone, Copy, Debug, PartialEq, Eq, Structural)]
pub enum BatchStatusAction {
    /// `completed`: fetch and store the results.
    Completed,
    /// `failed` or `cancelled`: drop the batch.
    Failed,
    /// `validating` or `in_progress`: poll again later.
    InProgress,
    /// Any other status: poll again later.
    Unknown,
}

/// The action for a batch status text.
pub open spec fn status_action_spec(status: Seq<char>) -> BatchStatusAction {
    if status == "completed"@ {
        BatchStatusAction::Completed
    } else if status == "failed"@ || status == "cancelled"@ {
        BatchStatusAction::Failed
    } else if status == "validating"@ || status == "in_progress"@ {
        BatchStatusAction::InProgress
    } else {
        BatchStatusAction::Unknown
    }
}

/// Only `completed` completes a batch, only `failed` and `cancelled` drop
/// it, `validating` and `in_progress` wait, and every other status waits
/// as unknown.
pub proof fn lemma_status_actions(status: Seq<char>)
    ensures
        (status_action_spec(status) == BatchStatusAction::Completed) <==> status == "completed"@,
        (status_action_spec(status) == BatchStatusAction::Failed) <==> (status == "failed"@ || status == "cancelled"@),
        (status_action_spec(status) == BatchStatusAction::InProgress) <==> (status == "validating"@ || status == "in_progress"@),
{
    reveal_strlit("completed");
    reveal_strlit("failed");
    reveal_strlit("cancelled");
    reveal_strlit("validating");
    reveal_strlit("in_progress");
    assert("completed"@.len() == 9 && "failed"@.len() == 6 && "cancelled"@.len() == 9);
    assert("validating"@.len() == 10 && "in_progress"@.len() == 11);
    assert("completed"@[1] != "cancelled"@[1]);
}

/// What to do with a batch whose status is `status`.
pub fn batch_status_action(status: &str) -> (a: BatchStatusAction)
    ensures
        a == status_action_spec(status@),
{
    if str_eq(status, "completed") {
        BatchStatusAction::Completed
    } else if str_eq(status, "failed") || str_eq(status, "cancelled") {
        BatchStatusAction::Failed
    } else if str_eq(status, "validating") || str_eq(status, "in_progress") {
        BatchStatusAction::InProgress
    } else {
        BatchStatusAction::Unknown
    }
}

/// The ids of pending batches.
pub open spec fn batch_ids(v: Seq<PendingBatch>) -> Seq<Seq<char>> {
    v.map_values(|b: PendingBatch| b.batch_id@)
}

/// Drops every pending batch with id `batch_id` (a failed or cancelled
/// batch); the others stay in order.
pub fn remove_batches(pending: &mut Vec<PendingBatch>, batch_id: &str)
    ensures
        final(pending)@ == old(pending)@.filter(|b: PendingBatch| b.batch_id@ != batch_id@),
{
    let ghost orig = old(pending)@;
    let ghost mut k: int = 0;
    let mut i: usize = 0;
    proof {
        assert(orig.take(0).filter(|b: PendingBatch| b.batch_id@ != batch_id@) =~= Seq::<PendingBatch>::empty());
        assert(pending@.take(0) =~= Seq::<PendingBatch>::empty());
        assert(pending@.skip(0) =~= orig.skip(0));
    }
    while i < pending.len()
        invariant
            0 <= k <= orig.len(),
            i <= pending@.len(),
            pending@.take(i as int) == orig.take(k).filter(|b: PendingBatch| b.batch_id@ != batch_id@),
            pending@.skip(i as int) == orig.skip(k),
        decreases orig.len() - k,
    {
        let ghost before = pending@;
        proof {
            assert(before.skip(i as int).len() > 0);
            assert(orig.skip(k).len() == orig.len() - k);
            assert(k < orig.len());
            assert(before.skip(i as int)[0] == orig.skip(k)[0]);
            assert(before[i as int] == orig[k]);
            assert(orig.take(k + 1).drop_last() =~= orig.take(k));
            assert(orig.take(k + 1).last() == orig[k]);
            reveal(Seq::filter);
        }
        if str_eq(pending[i].batch_id.as_str(), batch_id) {
            let _ = pending.remove(i);
            proof {
                assert(pending@.take(i as int) =~= before.take(i as int));
                assert(pending@ == before.remove(i as int));
                assert forall|m: int| 0 <= m < pending@.skip(i as int).len() implies #[trigger] pending@.skip(i as int)[m] == orig.skip(k + 1)[m] by {
                    assert(before.skip(i as int)[m + 1] == orig.skip(k)[m + 1]);
                }
                assert(pending@.skip(i as int) =~= orig.skip(k + 1));
                k = k + 1;
            }
        } else {
            proof {
                assert(pending@.take(i + 1) =~= before.take(i as int).push(before[i as int]));
                assert forall|m: int| 0 <= m < pending@.skip(i + 1).len() implies #[trigger] pending@.skip(i + 1)[m] == orig.skip(k + 1)[m] by {
                    assert(before.skip(i as int)[m + 1] == orig.skip(k)[m + 1]);
                }
                assert(pending@.skip(i + 1) =~= orig.skip(k + 1));
                k = k + 1;
            }
            i = i + 1;
        }
    }
    proof {
        assert(pending@.skip(i as int).len() == 0);
        assert(orig.skip(k).len() == 0);
        assert(orig.take(k) =~= orig);
        assert(pending@.take(i as int) =~= pending@);
    }
}

/// Index of the first pending batch with id `batch_id`.
pub open spec fn first_batch(v: Seq<PendingBatch>, batch_id: Seq<char>) -> Option<int>
    decreases v.len(),
{
    if v.len() == 0 {
        None
    } else {
        match first_batch(v.drop_last(), batch_id) {
            Some(k) => Some(k),
            None => if v.last().batch_id@ == batch_id { Some(v.len() - 1) } else { None },
        }
    }
}

/// The batch taken for an id is the earliest pending batch with that id;
/// with none, no pending batch has it.
pub proof fn lemma_first_batch_bounds(v: Seq<PendingBatch>, id: Seq<char>)
    ensures
        match first_batch(v, id) {
            Some(k) => 0 <= k < v.len() && v[k].batch_id@ == id && forall|j: int| 0 <= j < k ==> #[trigger] v[j].batch_id@ != id,
            None => forall|j: int| 0 <= j < v.len() ==> #[trigger] v[j].batch_id@ != id,
        },
    decreases v.len(),
{
    if v.len() > 0 {
        let d = v.drop_last();
        lemma_first_batch_bounds(d, id);
        assert forall|j: int| 0 <= j < d.len() implies d[j] == v[j] by {}
        match first_batch(d, id) {
            Some(k) => {
                assert(v[k] == d[k]);
                assert forall|j: int| 0 <= j < k implies #[trigger] v[j].batch_id@ != id by {
                    assert(v[j] == d[j]);
                }
            },
            None => {
                assert forall|j: int| 0 <= j < d.len() implies #[trigger] v[j].batch_id@ != id by {
                    assert(v[j] == d[j]);
                }
            },
        }
    }
}

/// Takes the first pending batch with id `batch_id` out of the list.
pub fn take_pending_batch(pending: &mut Vec<PendingBatch>, batch_id: &str) -> (b: Option<PendingBatch>)
    ensures
        match first_batch(old(pending)@, batch_id@) {
            Some(k) => b == Some(old(pending)@[k]) && final(pending)@ == old(pending)@.remove(k),
            None => b is None && final(pending)@ == old(pending)@,
        },
{
    proof {
        lemma_first_batch_bounds(pending@, batch_id@);
    }
    let mut i: usize = 0;
    while i < pending.len()
        invariant
            i <= pending.len(),
            pending@ == old(pending)@,
            forall|j: int| 0 <= j < i ==> #[trigger] pending@[j].batch_id@ != batch_id@,
        decreases pending.len() - i,
    {
        if str_eq(pending[i].batch_id.as_str(), batch_id) {
            proof {
                lemma_first_batch_index(pending@, batch_id@, i as int);
            }
            let b = pending.remove(i);
            return Some(b);
        }
        i = i + 1;
    }
    None
}

proof fn lemma_first_batch_index(v: Seq<PendingBatch>, id: Seq<char>, i: int)
    requires
        0 <= i < v.len(),
        v[i].batch_id@ == id,
        forall|j: int| 0 <= j < i ==> #[trigger] v[j].batch_id@ != id,
    ensures
        first_batch(v, id) == Some(i),
{
    lemma_first_batch_bounds(v, id);
}

/// What came of one line of a batch's output, as read by the caller:
/// whether the line reported an error, and the analysis parsed from its
/// first choice with the line's usage (nothing when there was no choice or
/// it did not parse).
#[derive(Debug)]
pub struct BatchItemOutcome {
    pub custom_id: String,
    pub failed: bool,
    pub parsed: Option<(AnalysisResult, Option<UsageInfo>)>,
}

/// Index of the first frame with id `id`.
pub open spec fn first_frame(frames: Seq<PendingFrame>, id: Seq<char>) -> Option<int>
    decreases frames.len(),
{
    if frames.len() == 0 {
        None
    } else {
        match first_frame(frames.drop_last(), id) {
            Some(k) => Some(k),
            None => if frames.last().frame.id@ == id { Some(frames.len() - 1) } else { None },
        }
    }
}

/// An output line is used when it reports no error and names a submitted
/// frame.
pub open spec fn used(frames: Seq<PendingFrame>, o: BatchItemOutcome) -> bool {
    !o.failed && first_frame(frames, o.custom_id@) is Some
}

/// The frames of the used lines, in output order.
pub open spec fn used_frames(frames: Seq<PendingFrame>, os: Seq<BatchItemOutcome>) -> Seq<int>
    decreases os.len(),
{
    if os.len() == 0 {
        Seq::empty()
    } else {
        let prev = used_frames(frames, os.drop_last());
        if used(frames, os.last()) { prev.push(first_frame(frames, os.last().custom_id@)->0) } else { prev }
    }
}

/// The first used line with a parsed analysis.
pub open spec fn first_analysis(frames: Seq<PendingFrame>, os: Seq<BatchItemOutcome>) -> Option<int>
    decreases os.len(),
{
    if os.len() == 0 {
        None
    } else {
        match first_analysis(frames, os.drop_last()) {
            Some(k) => Some(k),
            None => if used(frames, os.last()) && os.last().parsed is Some { Some(os.len() - 1) } else { None },
        }
    }
}

/// The analysis that stands for a batch is the earliest one: the line it
/// comes from is used and parsed, and every used line before it failed to
/// parse.  With no such line, no used line parsed at all.
pub proof fn lemma_first_analysis_is_earliest(frames: Seq<PendingFrame>, os: Seq<BatchItemOutcome>)
    ensures
        match first_analysis(frames, os) {
            Some(k) => {
                &&& 0 <= k < os.len()
                &&& used(frames, os[k])
                &&& os[k].parsed is Some
                &&& forall|j: int| 0 <= j < k && #[trigger] used(frames, os[j]) ==> os[j].parsed is None
            },
            None => forall|j: int| 0 <= j < os.len() && #[trigger] used(frames, os[j]) ==> os[j].parsed is None,
        },
    decreases os.len(),
{
    if os.len() > 0 {
        let d = os.drop_last();
        lemma_first_analysis_is_earliest(frames, d);
        match first_analysis(frames, d) {
            Some(k) => {
                assert(os[k] == d[k]);
                assert forall|j: int| 0 <= j < k && #[trigger] used(frames, os[j]) implies os[j].parsed is None by {
                    assert(os[j] == d[j]);
                }
            },
            None => {
                assert forall|j: int| 0 <= j < d.len() && #[trigger] used(frames, os[j]) implies os[j].parsed is None by {
                    assert(os[j] == d[j]);
                }
            },
        }
    }
}

/// The frames kept from a batch are those of its used lines, in output
/// order: output lines after the last used one add nothing, and a used
/// line adds the frame it names.
pub proof fn lemma_used_frames_push(frames: Seq<PendingFrame>, os: Seq<BatchItemOutcome>, o: BatchItemOutcome)
    ensures
        used(frames, o) ==> used_frames(frames, os.push(o)) == used_frames(frames, os).push(first_frame(frames, o.custom_id@)->0),
        !used(frames, o) ==> used_frames(frames, os.push(o)) == used_frames(frames, os),
        first_frame(frames, o.custom_id@) matches Some(i) ==> 0 <= i < frames.len() && frames[i].frame.id@ == o.custom_id@,
{
    assert(os.push(o).drop_last() =~= os);
    lemma_first_frame_bounds(frames, o.custom_id@);
}

/// A frame copied with the same contents.
pub open spec fn same_frame(a: PendingFrame, b: PendingFrame) -> bool {
    &&& a.frame.id@ == b.frame.id@
    &&& a.frame.captured_at == b.frame.captured_at
    &&& a.frame.file_path@ == b.frame.file_path@
    &&& a.frame.width == b.frame.width
    &&& a.frame.height == b.frame.height
    &&& a.frame.hash@ == b.frame.hash@
    &&& a.frame.jpeg_bytes@ == b.frame.jpeg_bytes@
    &&& opt_str(a.b64_cache) == opt_str(b.b64_cache)
}

/// A copy of a pending frame.
pub fn copy_frame(p: &PendingFrame) -> (r: PendingFrame)
    ensures
        same_frame(r, *p),
{
    PendingFrame {
        frame: ScreenshotFrame {
            id: p.frame.id.clone(),
            captured_at: p.frame.captured_at,
            file_path: p.frame.file_path.clone(),
            width: p.frame.width,
            height: p.frame.height,
            hash: p.frame.hash.clone(),
            jpeg_bytes: crate::image::copy_bytes(&p.frame.jpeg_bytes),
        },
        b64_cache: clone_opt(&p.b64_cache),
    }
}

/// A copy of an analysis result.
pub fn copy_analysis(a: &AnalysisResult) -> (r: AnalysisResult)
    ensures
        r.activity@ == a.activity@,
        opt_str(r.app_name) == opt_str(a.app_name),
        opt_str(r.window_title) == opt_str(a.window_title),
        r.category@ == a.category@,
        r.confidence_bits == a.confidence_bits,
{
    AnalysisResult {
        activity: a.activity.clone(),
        app_name: clone_opt(&a.app_name),
        window_title: clone_opt(&a.window_title),
        category: a.category.clone(),
        confidence_bits: a.confidence_bits,
    }
}

/// The results of a completed batch brought together: every used frame,
/// and the first parsed analysis with its usage, which stands for all.
#[derive(Debug)]
pub struct BatchConsolidation {
    pub frames: Vec<PendingFrame>,
    pub analysis: AnalysisResult,
    pub usage: Option<UsageInfo>,
}

/// The frame an output line names is the earliest submitted frame with
/// that id; with none, no submitted frame has it.
pub proof fn lemma_first_frame_bounds(frames: Seq<PendingFrame>, id: Seq<char>)
    ensures
        match first_frame(frames, id) {
            Some(k) => 0 <= k < frames.len() && frames[k].frame.id@ == id
                && forall|j: int| 0 <= j < k ==> #[trigger] frames[j].frame.id@ != id,
            None => forall|j: int| 0 <= j < frames.len() ==> #[trigger] frames[j].frame.id@ != id,
        },
    decreases frames.len(),
{
    if frames.len() > 0 {
        let d = frames.drop_last();
        lemma_first_frame_bounds(d, id);
        match first_frame(d, id) {
            Some(k) => {
                assert(frames[k] == d[k]);
                assert forall|j: int| 0 <= j < k implies #[trigger] frames[j].frame.id@ != id by {
                    assert(frames[j] == d[j]);
                }
            },
            None => {
                assert forall|j: int| 0 <= j < d.len() implies #[trigger] frames[j].frame.id@ != id by {
                    assert(frames[j] == d[j]);
                }
            },
        }
    }
}

proof fn lemma_first_frame_index(frames: Seq<PendingFrame>, id: Seq<char>, i: int)
    requires
        0 <= i < frames.len(),
        frames[i].frame.id@ == id,
        forall|j: int| 0 <= j < i ==> #[trigger] frames[j].frame.id@ != id,
    ensures
        first_frame(frames, id) == Some(i),
{
    lemma_first_frame_bounds(frames, id);
}

/// The index of the first frame with id `id`, if any.
fn find_frame(frames: &Vec<PendingFrame>, id: &str) -> (r: Option<usize>)
    ensures
        r matches Some(j) ==> first_frame(frames@, id@) == Some(j as int),
        r is None ==> first_frame(frames@, id@) is None,
{
    proof {
        lemma_first_frame_bounds(frames@, id@);
    }
    let mut i: usize = 0;
    while i < frames.len()
        invariant
            i <= frames.len(),
            forall|j: int| 0 <= j < i ==> #[trigger] frames@[j].frame.id@ != id@,
        decreases frames.len() - i,
    {
        if str_eq(frames[i].frame.id.as_str(), id) {
            proof {
                lemma_first_frame_index(frames@, id@, i as int);
            }
            return Some(i);
        }
        i = i + 1;
    }
    None
}

/// Brings the results of a completed batch together (see
/// `BatchConsolidation`): nothing when no line is used or none parsed.
pub fn consolidate_batch(frames: &Vec<PendingFrame>, outcomes: &Vec<BatchItemOutcome>) -> (r: Option<
    BatchConsolidation,
>)
    ensures
        match first_analysis(frames@, outcomes@) {
            None => r is None,
            Some(k) => r matches Some(c) && {
                let idx = used_frames(frames@, outcomes@);
                let parsed = outcomes@[k].parsed->0;
                &&& c.frames@.len() == idx.len()
                &&& forall|j: int| 0 <= j < idx.len() ==> same_frame(#[trigger] c.frames@[j], frames@[idx[j]])
                &&& c.analysis.activity@ == parsed.0.activity@
                &&& opt_str(c.analysis.app_name) == opt_str(parsed.0.app_name)
                &&& opt_str(c.analysis.window_title) == opt_str(parsed.0.window_title)
                &&& c.analysis.category@ == parsed.0.category@
                &&& c.analysis.confidence_bits == parsed.0.confidence_bits
                &&& c.usage == parsed.1
            },
        },
{
    let mut kept: Vec<PendingFrame> = Vec::new();
    let mut first: Option<usize> = None;
    let mut i: usize = 0;
    while i < outcomes.len()
        invariant
            i <= outcomes.len(),
            kept@.len() == used_frames(frames@, outcomes@.take(i as int)).len(),
            forall|j: int| 0 <= j < kept@.len() ==> same_frame(#[trigger] kept@[j], frames@[used_frames(frames@, outcomes@.take(i as int))[j]]),
            match first_analysis(frames@, outcomes@.take(i as int)) {
                Some(k) => first == Some(k as usize),
                None => first is None,
            },
        decreases outcomes.len() - i,
    {
        let o = &outcomes[i];
        let ghost t = outcomes@.take(i + 1);
        proof {
            assert(t.drop_last() =~= outcomes@.take(i as int));
            assert(t.last() == outcomes@[i as int]);
        }
        if !o.failed {
            match find_frame(frames, o.custom_id.as_str()) {
                Some(j) => {
                    proof {
                        lemma_first_frame_bounds(frames@, o.custom_id@);
                        assert(first_frame(frames@, o.custom_id@) == Some(j as int));
                        assert(used(frames@, t.last()));
                    }
                    let ghost prev = used_frames(frames@, outcomes@.take(i as int));
                    kept.push(copy_frame(&frames[j]));
                    proof {
                        assert(used_frames(frames@, t) == prev.push(j as int));
                        assert forall|q: int| 0 <= q < kept@.len() implies same_frame(#[trigger] kept@[q], frames@[used_frames(frames@, t)[q]]) by {
                            if q < prev.len() {
                                assert(used_frames(frames@, t)[q] == prev[q]);
                            }
                        }
                    }
                    if first.is_none() && o.parsed.is_some() {
                        first = Some(i);
                    }
                },
                None => {},
            }
        }
        i = i + 1;
    }
    proof {
        assert(outcomes@.take(outcomes@.len() as int) =~= outcomes@);
    }
    match first {
        None => None,
        Some(k) => {
            proof {
                lemma_first_analysis_bounds(frames@, outcomes@);
            }
            match &outcomes[k].parsed {
                Some(p) => Some(BatchConsolidation { frames: kept, analysis: copy_analysis(&p.0), usage: p.1 }),
                None => None,
            }
        },
    }
}

proof fn lemma_first_analysis_bounds(frames: Seq<PendingFrame>, os: Seq<BatchItemOutcome>)
    ensures
        first_analysis(frames, os) matches Some(k) ==> 0 <= k < os.len() && os[k].parsed is Some,
    decreases os.len(),
{
    if os.len() > 0 {
        lemma_first_analysis_bounds(frames, os.drop_last());
    }
}

/// The duration a consolidated batch stands for: the time between its first
/// and last frame, at least 30 seconds; 30 seconds for a single frame.
pub fn consolidated_secs(frames: &Vec<PendingFrame>) -> (secs: u64)
    requires
        forall|i: int| 0 <= i < frames@.len() ==> (#[trigger] frames@[i]).frame.captured_at.wf(),
    ensures
        secs == if frames@.len() >= 2 {
            let d = frames@.last().frame.captured_at.seconds() - frames@[0].frame.captured_at.seconds();
            if d > 30 { d } else { 30 }
        } else {
            30
        },
{
    if frames.len() >= 2 {
        let d = seconds_between(frames[0].frame.captured_at, frames[frames.len() - 1].frame.captured_at);
        if d > 30 { d as u64 } else { 30 }
    } else {
        30
    }
}

/// The message of a caught panic: its payload when that is a string slice
/// or a `String` (in that order), else `"Unknown panic"`.
pub fn extract_panic_msg(as_str: Option<&str>, as_string: Option<String>) -> (m: String)
    ensures
        m@ == match as_str {
            Some(s) => s@,
            None => match as_string {
                Some(t) => t@,
                None => "Unknown panic"@,
            },
        },
{
    match as_str {
        Some(s) => String::from_str(s),
        None => match as_string {
            Some(t) => t,
            None => String::from_str("Unknown panic"),
        },
    }
}

/// The model name of an adapter, for logging and cost records.
pub fn get_adapter_model(adapter: &crate::llm::Adapter) -> (m: String)
    ensures
        m@ == adapter.config().model@,
{
    String::from_str(adapter.model_name())
}

/// The provider name of an adapter, for logging and cost records.
pub fn get_adapter_provider(adapter: &crate::llm::Adapter) -> (p: String)
    ensures
        p@ == match adapter {
            crate::llm::Adapter::OpenAi(a) => a.config.provider@,
            crate::llm::Adapter::Ollama(_) => "ollama"@,
        },
{
    String::from_str(adapter.provider_name())
}

} // verus!
