//! Screenshot and screen-recording state machine.
//!
//! A screenshot request captures the next frame and writes it as PNG. A
//! recording request starts an encoder on the next frame; from then on each
//! frame that the frame rate asks for is captured, and pushed to the encoder
//! one tick later, when reading it back no longer stalls. Stopping flushes
//! what is queued and closes the encoder.
//!
//! The event loop owns the encoder process and the captured frames' pixels.
//! Each render tick it asks [`Recorder::capture_request`], does what it says
//! and reports to [`Recorder::capture_frame`]; after the swap it asks
//! [`Recorder::pending_push`] and reports to [`Recorder::finalize`]. An encoder
//! is open exactly while [`Recorder::encoder_open`] says so.
//!
//! Times are nanoseconds. `F` is a captured frame.

use crate::geometry::Size;
use vstd::prelude::*;

verus! {

/// Why a recording ended.
#[derive(Debug, Clone, Copy, PartialEq, Eq, Structural)]
pub enum FinishReason {
    /// It was stopped on request.
    User,
    /// The framebuffer size changed, which the encoder cannot follow.
    Resize,
    /// The encoder refused a frame or died.
    EncoderError,
    /// A new recording was requested meanwhile.
    Replaced,
}

impl FinishReason {
    /// The reason as reported to Emacs.
    pub open spec fn text(self) -> Seq<char> {
        match self {
            FinishReason::User => "user"@,
            FinishReason::Resize => "resize"@,
            FinishReason::EncoderError => "encoder_error"@,
            FinishReason::Replaced => "replaced"@,
        }
    }

    pub fn as_str(self) -> (r: &'static str)
        ensures
            r@ == self.text(),
    {
        match self {
            FinishReason::User => "user",
            FinishReason::Resize => "resize",
            FinishReason::EncoderError => "encoder_error",
            FinishReason::Replaced => "replaced",
        }
    }
}

/// Summary of a finished recording.
#[derive(Debug, Clone)]
pub struct FinishEvent {
    pub path: String,
    pub frames_written: u64,
    /// Wall-clock time since the first captured frame.
    pub duration: u64,
    pub reason: FinishReason,
}

/// What is known of a running recording.
#[derive(Debug)]
pub struct RecordingMeta {
    pub path: String,
    /// When the first frame was captured, on the wall clock.
    pub started_at: u64,
    /// The same on the effects' clock.
    pub started_at_present: u64,
    /// The shortest time between two frames.
    pub frame_interval: u64,
    pub last_frame_at: Option<u64>,
    pub frames_written: u64,
    pub size: Size,
}

#[derive(Debug)]
pub enum RecorderState<F> {
    Idle,
    /// A screenshot waits for the next frame.
    ScreenshotRequested { path: String },
    /// The frame is captured and waits to be written.
    ScreenshotPending { frame: F, path: String },
    /// A recording waits for the next frame to start its encoder.
    RecordingRequested { path: String, fps: u32 },
    /// Recording. `to_push` was captured at least one tick ago;
    /// `just_captured` in this tick.
    Recording { meta: RecordingMeta, to_push: Option<F>, just_captured: Option<F> },
    /// The encoder is to be closed once `to_push` is flushed.
    Stopping { meta: RecordingMeta, to_push: Option<F>, reason: FinishReason },
}

/// What the event loop does inside a render tick.
#[derive(Debug)]
pub enum CaptureRequest {
    /// Nothing.
    Nothing,
    /// Capture a frame.
    Frame,
    /// Start an encoder; if that works, capture a frame.
    Encoder { path: String, fps: u32, size: Size },
}

/// What the event loop does after the swap.
#[derive(Debug)]
pub enum Push<'a, F> {
    /// Nothing.
    Nothing,
    /// Write this frame as a screenshot.
    Screenshot(&'a F, &'a String),
    /// Push this frame to the encoder.
    Frame(&'a F),
    /// Push this frame, if there is one, and close the encoder.
    Close(Option<&'a F>),
}

#[derive(Debug)]
pub struct Recorder<F> {
    pub state: RecorderState<F>,
}

/// A second divided by `fps` ends in half a nanosecond that is dropped: as a
/// double, the quotient does not exceed the half for these rates.
pub open spec fn half_is_dropped(fps: int) -> bool {
    fps == 1024 || fps == 16_000_000 || fps == 80_000_000
}

/// A second divided by `fps`, in nanoseconds: rounded to the nearest, and upward
/// where two are equally near, unless the half is dropped.
pub open spec fn nanos_per_frame(fps: int) -> int {
    let q = 1_000_000_000int / fps;
    let rest = 1_000_000_000int % fps;
    if 2 * rest > fps || (2 * rest == fps && !half_is_dropped(fps)) {
        q + 1
    } else {
        q
    }
}

/// The time between two frames.
pub fn frame_interval(fps: u32) -> (r: u64)
    requires
        fps > 0,
    ensures
        r == nanos_per_frame(fps as int),
{
    let fps: u64 = fps as u64;
    let q: u64 = 1_000_000_000 / fps;
    let rest: u64 = 1_000_000_000 % fps;
    assert(q <= 1_000_000_000) by (nonlinear_arith)
        requires
            q == 1_000_000_000u64 / fps,
            fps > 0,
    ;
    let half_dropped = fps == 1024 || fps == 16_000_000 || fps == 80_000_000;
    if 2 * rest > fps || (2 * rest == fps && !half_dropped) {
        q + 1
    } else {
        q
    }
}

/// Whether a frame is due, given when the last one was written.
pub open spec fn frame_due(meta: RecordingMeta, now: u64) -> bool {
    match meta.last_frame_at {
        None => true,
        Some(last) => (if now >= last {
            now - last
        } else {
            0
        }) >= meta.frame_interval,
    }
}

impl<F> RecorderState<F> {
    /// The state after a recording was requested.
    pub open spec fn requested(self, path: String, fps: u32) -> RecorderState<F> {
        match self {
            RecorderState::Recording { meta, .. } => RecorderState::Stopping {
                meta,
                to_push: None,
                reason: FinishReason::Replaced,
            },
            RecorderState::Stopping { .. } => self,
            _ => RecorderState::RecordingRequested { path, fps },
        }
    }

    /// The state after a stop was requested.
    pub open spec fn stopped(self) -> RecorderState<F> {
        match self {
            RecorderState::Recording { meta, to_push, .. } => RecorderState::Stopping {
                meta,
                to_push,
                reason: FinishReason::User,
            },
            RecorderState::RecordingRequested { .. } => RecorderState::Idle,
            _ => self,
        }
    }

    /// The state after the capture phase of a tick. `interval` is the frame
    /// interval of the encoder that was started, if one was; `captured` the
    /// frame that was captured, if any.
    pub open spec fn after_capture(
        self,
        size: Size,
        now: u64,
        present: u64,
        interval: Option<u64>,
        captured: Option<F>,
    ) -> RecorderState<F> {
        match self {
            RecorderState::ScreenshotRequested { path } => match captured {
                Some(frame) => RecorderState::ScreenshotPending { frame, path },
                None => RecorderState::Idle,
            },
            RecorderState::RecordingRequested { path, .. } => match interval {
                Some(frame_interval) => RecorderState::Recording {
                    meta: RecordingMeta {
                        path,
                        started_at: now,
                        started_at_present: present,
                        frame_interval,
                        last_frame_at: None,
                        frames_written: 0,
                        size,
                    },
                    to_push: None,
                    just_captured: captured,
                },
                None => RecorderState::Idle,
            },
            RecorderState::Recording { meta, to_push, .. } => if size != meta.size {
                RecorderState::Stopping { meta, to_push, reason: FinishReason::Resize }
            } else {
                RecorderState::Recording {
                    meta,
                    to_push,
                    just_captured: if frame_due(meta, now) {
                        captured
                    } else {
                        None
                    },
                }
            },
            _ => self,
        }
    }

    /// The state after the push phase of a tick, given whether the push
    /// worked.
    pub open spec fn after_push(self, pushed: bool, now: u64) -> RecorderState<F> {
        match self {
            RecorderState::ScreenshotPending { .. } => RecorderState::Idle,
            RecorderState::Recording { meta, to_push, just_captured } => if to_push is None {
                RecorderState::Recording { meta, to_push: just_captured, just_captured: None }
            } else if pushed {
                RecorderState::Recording {
                    meta: RecordingMeta {
                        frames_written: (meta.frames_written + 1) as u64,
                        last_frame_at: Some(now),
                        ..meta
                    },
                    to_push: just_captured,
                    just_captured: None,
                }
            } else {
                RecorderState::Stopping {
                    meta,
                    to_push: None,
                    reason: FinishReason::EncoderError,
                }
            },
            RecorderState::Stopping { .. } => RecorderState::Idle,
            _ => self,
        }
    }

    /// The event of a recording that the push phase completes.
    pub open spec fn finished(self, pushed: bool, now: u64) -> Option<FinishEvent> {
        match self {
            RecorderState::Stopping { meta, to_push, reason } => Some(
                FinishEvent {
                    path: meta.path,
                    frames_written: if to_push is Some && pushed {
                        (meta.frames_written + 1) as u64
                    } else {
                        meta.frames_written
                    },
                    duration: if now >= meta.started_at {
                        (now - meta.started_at) as u64
                    } else {
                        0
                    },
                    reason,
                },
            ),
            _ => None,
        }
    }

    /// The frames written so far by the recording, if there is one.
    pub open spec fn frames(self) -> int {
        match self {
            RecorderState::Recording { meta, .. } => meta.frames_written as int,
            RecorderState::Stopping { meta, .. } => meta.frames_written as int,
            _ => 0,
        }
    }

    /// Whether an encoder belongs to the state.
    pub open spec fn has_encoder(self) -> bool {
        self is Recording || self is Stopping
    }
}

impl<F> Recorder<F> {
    pub fn new() -> (r: Recorder<F>)
        ensures
            r.state == RecorderState::<F>::Idle,
    {
        Recorder { state: RecorderState::Idle }
    }

    /// Takes the state out and leaves `Idle`.
    fn take_state(&mut self) -> (r: RecorderState<F>)
        ensures
            r == old(self).state,
            final(self).state == RecorderState::<F>::Idle,
    {
        let mut state: RecorderState<F> = RecorderState::Idle;
        core::mem::swap(&mut state, &mut self.state);
        state
    }

    /// Queues a screenshot of the next frame. It takes the place of whatever
    /// was queued or running.
    pub fn request_screenshot(&mut self, path: String)
        ensures
            final(self).state == (RecorderState::<F>::ScreenshotRequested { path }),
    {
        self.state = RecorderState::ScreenshotRequested { path };
    }

    /// Queues a recording. One that is running is closed instead; while one is
    /// being closed the request is dropped.
    pub fn request_recording(&mut self, path: String, fps: u32)
        ensures
            final(self).state == old(self).state.requested(path, fps),
    {
        let state = self.take_state();
        self.state = match state {
            RecorderState::Recording { meta, to_push: _, just_captured: _ } =>
                RecorderState::Stopping { meta, to_push: None, reason: FinishReason::Replaced },
            RecorderState::Stopping { meta, to_push, reason } => RecorderState::Stopping {
                meta,
                to_push,
                reason,
            },
            _ => RecorderState::RecordingRequested { path, fps },
        };
    }

    /// Ends a recording. The frame captured in this tick is given up; the one
    /// from the tick before is still flushed.
    pub fn stop_recording(&mut self)
        ensures
            final(self).state == old(self).state.stopped(),
    {
        let state = self.take_state();
        self.state = match state {
            RecorderState::Recording { meta, to_push, just_captured: _ } =>
                RecorderState::Stopping { meta, to_push, reason: FinishReason::User },
            RecorderState::RecordingRequested { .. } => RecorderState::Idle,
            other => other,
        };
    }

    /// What the event loop is to do in the capture phase of this tick.
    pub fn capture_request(&self, size: Size, now: u64) -> (r: CaptureRequest)
        ensures
            match self.state {
                RecorderState::ScreenshotRequested { .. } => r is Frame,
                RecorderState::RecordingRequested { path, fps } => r
                    == (CaptureRequest::Encoder { path, fps, size }),
                RecorderState::Recording { meta, .. } => if size == meta.size && frame_due(
                    meta,
                    now,
                ) {
                    r is Frame
                } else {
                    r is Nothing
                },
                _ => r is Nothing,
            },
    {
        match &self.state {
            RecorderState::ScreenshotRequested { .. } => CaptureRequest::Frame,
            RecorderState::RecordingRequested { path, fps } => CaptureRequest::Encoder {
                path: path.clone(),
                fps: *fps,
                size,
            },
            RecorderState::Recording { meta, .. } => if size == meta.size && is_due(meta, now) {
                CaptureRequest::Frame
            } else {
                CaptureRequest::Nothing
            },
            _ => CaptureRequest::Nothing,
        }
    }

    /// Takes what the capture phase gave: the frame interval of the encoder
    /// that was started, if one was, and the captured frame, if any.
    pub fn capture_frame(
        &mut self,
        size: Size,
        now: u64,
        present: u64,
        interval: Option<u64>,
        captured: Option<F>,
    )
        ensures
            final(self).state == old(self).state.after_capture(
                size,
                now,
                present,
                interval,
                captured,
            ),
    {
        let state = self.take_state();
        self.state = match state {
            RecorderState::ScreenshotRequested { path } => match captured {
                Some(frame) => RecorderState::ScreenshotPending { frame, path },
                None => RecorderState::Idle,
            },
            RecorderState::RecordingRequested { path, .. } => match interval {
                Some(frame_interval) => RecorderState::Recording {
                    meta: RecordingMeta {
                        path,
                        started_at: now,
                        started_at_present: present,
                        frame_interval,
                        last_frame_at: None,
                        frames_written: 0,
                        size,
                    },
                    to_push: None,
                    just_captured: captured,
                },
                None => RecorderState::Idle,
            },
            RecorderState::Recording { meta, to_push, just_captured: _ } => if size != meta.size {
                RecorderState::Stopping { meta, to_push, reason: FinishReason::Resize }
            } else {
                let just_captured = if is_due(&meta, now) {
                    captured
                } else {
                    None
                };
                RecorderState::Recording { meta, to_push, just_captured }
            },
            other => other,
        };
    }

    /// What the event loop is to do in the push phase of this tick.
    pub fn pending_push(&self) -> (r: Push<'_, F>)
        ensures
            match self.state {
                RecorderState::ScreenshotPending { frame, path } => r == Push::Screenshot(
                    &frame,
                    &path,
                ),
                RecorderState::Recording { to_push: Some(frame), .. } => r == Push::Frame(&frame),
                RecorderState::Stopping { to_push: Some(frame), .. } => r == Push::Close(
                    Some(&frame),
                ),
                RecorderState::Stopping { to_push: None, .. } => r == Push::<F>::Close(None),
                _ => r == Push::<F>::Nothing,
            },
    {
        match &self.state {
            RecorderState::ScreenshotPending { frame, path } => Push::Screenshot(frame, path),
            RecorderState::Recording { to_push, .. } => match to_push {
                Some(frame) => Push::Frame(frame),
                None => Push::Nothing,
            },
            RecorderState::Stopping { to_push, .. } => match to_push {
                Some(frame) => Push::Close(Some(frame)),
                None => Push::Close(None),
            },
            _ => Push::Nothing,
        }
    }

    /// Takes what the push phase gave: whether the frame was pushed. Gives the
    /// event of a recording that is finished now.
    pub fn finalize(&mut self, pushed: bool, now: u64) -> (r: Option<FinishEvent>)
        requires
            old(self).state.frames() < u64::MAX,
        ensures
            final(self).state == old(self).state.after_push(pushed, now),
            r == old(self).state.finished(pushed, now),
    {
        let state = self.take_state();
        match state {
            RecorderState::ScreenshotPending { .. } => None,
            RecorderState::Recording { meta, to_push, just_captured } => {
                self.state = if to_push.is_none() {
                    RecorderState::Recording { meta, to_push: just_captured, just_captured: None }
                } else if pushed {
                    let mut meta = meta;
                    meta.frames_written = meta.frames_written + 1;
                    meta.last_frame_at = Some(now);
                    RecorderState::Recording { meta, to_push: just_captured, just_captured: None }
                } else {
                    RecorderState::Stopping {
                        meta,
                        to_push: None,
                        reason: FinishReason::EncoderError,
                    }
                };
                None
            },
            RecorderState::Stopping { meta, to_push, reason } => {
                let frames_written: u64 = if to_push.is_some() && pushed {
                    meta.frames_written + 1
                } else {
                    meta.frames_written
                };
                let duration: u64 = if now >= meta.started_at {
                    now - meta.started_at
                } else {
                    0
                };
                Some(FinishEvent { path: meta.path, frames_written, duration, reason })
            },
            other => {
                self.state = other;
                None
            },
        }
    }

    /// Whether the render loop is to keep producing frames.
    pub fn wants_continuous_frames(&self) -> (r: bool)
        ensures
            r == !(self.state is Idle),
    {
        match &self.state {
            RecorderState::Idle => false,
            _ => true,
        }
    }

    /// Whether an encoder is open. One that the state no longer owns is to be
    /// dropped.
    pub fn encoder_open(&self) -> (r: bool)
        ensures
            r == self.state.has_encoder(),
    {
        match &self.state {
            RecorderState::Recording { .. } => true,
            RecorderState::Stopping { .. } => true,
            _ => false,
        }
    }

    /// When the recording indicator's clock started; `None` hides it. It shows
    /// from the request on and is gone as soon as the recording is stopped.
    pub fn overlay_started_at(&self, now: u64) -> (r: Option<u64>)
        ensures
            r == match self.state {
                RecorderState::RecordingRequested { .. } => Some(now),
                RecorderState::Recording { meta, .. } => Some(meta.started_at_present),
                _ => None,
            },
    {
        match &self.state {
            RecorderState::RecordingRequested { .. } => Some(now),
            RecorderState::Recording { meta, .. } => Some(meta.started_at_present),
            _ => None,
        }
    }
}

/// Whether a frame is due.
fn is_due(meta: &RecordingMeta, now: u64) -> (r: bool)
    ensures
        r == frame_due(*meta, now),
{
    match meta.last_frame_at {
        None => true,
        Some(last) => now.saturating_sub(last) >= meta.frame_interval,
    }
}

impl<F> Default for Recorder<F> {
    fn default() -> (r: Recorder<F>)
        ensures
            r.state == RecorderState::<F>::Idle,
    {
        Recorder::new()
    }
}

/// A running encoder is given up together with the event of its recording: no
/// request for a recording, no stop and no capture closes it, and the push phase
/// that does reports it. Only a request for a screenshot gives an encoder up
/// without an event.
pub proof fn encoders_end_with_their_event<F>(
    s: RecorderState<F>,
    path: String,
    fps: u32,
    size: Size,
    now: u64,
    present: u64,
    interval: Option<u64>,
    captured: Option<F>,
    pushed: bool,
)
    requires
        s.has_encoder(),
    ensures
        s.requested(path, fps).has_encoder(),
        s.stopped().has_encoder(),
        s.after_capture(size, now, present, interval, captured).has_encoder(),
        s.after_push(pushed, now).has_encoder() <==> s.finished(pushed, now) is None,
        !(RecorderState::<F>::ScreenshotRequested { path }).has_encoder(),
{
}

/// Every recording that is being closed is reported by the next push phase,
/// with the reason it was closed for, and leaves the recorder idle.
pub proof fn closing_takes_one_tick<F>(s: RecorderState<F>, pushed: bool, now: u64)
    requires
        s is Stopping,
    ensures
        s.finished(pushed, now) is Some,
        s.finished(pushed, now)->0.reason == s->Stopping_reason,
        s.after_push(pushed, now) is Idle,
{
}

/// A frame that is captured in one tick is the one to push in the next, never
/// in the same: reading it back at once would stall.
pub proof fn frames_are_pushed_one_tick_later<F>(
    s: RecorderState<F>,
    now: u64,
    present: u64,
    frame: F,
    later: u64,
)
    requires
        s matches RecorderState::Recording { meta, to_push, .. } && frame_due(meta, now)
            && to_push is None,
    ensures
        ({
            let meta = s->Recording_meta;
            let captured = s.after_capture(meta.size, now, present, None, Some(frame));
            &&& captured is Recording
            &&& captured->Recording_to_push is None
            &&& captured.after_push(true, later) is Recording
            &&& captured.after_push(true, later)->Recording_to_push == Some(frame)
        }),
{
}

/// Only a push that worked counts as a frame written, and it counts as one.
pub proof fn frames_are_counted<F>(s: RecorderState<F>, pushed: bool, now: u64)
    requires
        s.frames() < u64::MAX,
        s is Recording,
    ensures
        s.after_push(pushed, now).frames() == s.frames() + if s->Recording_to_push is Some
            && pushed {
            1int
        } else {
            0
        },
{
}

/// A recording keeps the size it started with: while it runs, frames of
/// another size close it and are never queued.
pub proof fn recordings_keep_their_size<F>(
    s: RecorderState<F>,
    size: Size,
    now: u64,
    present: u64,
    interval: Option<u64>,
    captured: Option<F>,
)
    requires
        s is Recording,
    ensures
        s.after_capture(size, now, present, interval, captured) is Recording
            <==> size == s->Recording_meta.size,
        s.after_capture(size, now, present, interval, captured) is Recording ==> s.after_capture(
            size,
            now,
            present,
            interval,
            captured,
        )->Recording_meta == s->Recording_meta,
{
}

/// While a recording runs, a frame of its size is captured if and only if none
/// was written yet or the last one was written at least one frame interval ago.
/// A frame of another size is not.
pub proof fn frames_wait_for_their_turn<F>(
    rec: Recorder<F>,
    meta: RecordingMeta,
    size: Size,
    now: u64,
    r: CaptureRequest,
)
    requires
        call_ensures(Recorder::<F>::capture_request, (&rec, size, now), r),
        rec.state is Recording,
        rec.state->Recording_meta == meta,
    ensures
        r is Frame || r is Nothing,
        size != meta.size ==> r is Nothing,
        size == meta.size && meta.last_frame_at is None ==> r is Frame,
        meta.last_frame_at matches Some(last) ==> size == meta.size ==> last <= now ==> (r is Frame
            <==> now - last >= meta.frame_interval),
        meta.last_frame_at matches Some(last) ==> now < last && meta.frame_interval > 0
            ==> r is Nothing,
{
}

/// A frame that is queued while a recording runs comes at least one frame
/// interval after the last one that was written, so that the video plays at the
/// speed at which it was recorded. What waits to be pushed stays, and so does
/// everything that is known of the recording.
pub proof fn queued_frames_keep_their_distance<F>(
    rec: &mut Recorder<F>,
    meta: RecordingMeta,
    size: Size,
    now: u64,
    present: u64,
    interval: Option<u64>,
    captured: Option<F>,
)
    requires
        call_ensures(
            Recorder::<F>::capture_frame,
            (rec, size, now, present, interval, captured),
            (),
        ),
        old(rec).state is Recording,
        old(rec).state->Recording_meta == meta,
    ensures
        size == meta.size ==> {
            &&& final(rec).state is Recording
            &&& final(rec).state->Recording_meta == meta
            &&& final(rec).state->Recording_to_push == old(rec).state->Recording_to_push
            &&& final(rec).state->Recording_just_captured is Some
                ==> final(rec).state->Recording_just_captured == captured
            &&& meta.last_frame_at is None ==> final(rec).state->Recording_just_captured == captured
            &&& meta.last_frame_at matches Some(last) ==> last <= now ==> {
                &&& now - last < meta.frame_interval
                    ==> final(rec).state->Recording_just_captured is None
                &&& now - last >= meta.frame_interval
                    ==> final(rec).state->Recording_just_captured == captured
            }
            &&& meta.last_frame_at matches Some(last) ==> now < last && meta.frame_interval > 0
                ==> final(rec).state->Recording_just_captured is None
        },
        size != meta.size ==> {
            &&& final(rec).state is Stopping
            &&& final(rec).state->Stopping_meta == meta
            &&& final(rec).state->Stopping_to_push == old(rec).state->Recording_to_push
            &&& final(rec).state->Stopping_reason == FinishReason::Resize
        },
{
}

/// A recording begins with the tick in which its encoder starts: it counts no
/// frame yet, its clocks start there, and it has the size of that tick. Where no
/// encoder starts, there is none.
pub proof fn recordings_begin_with_their_encoder<F>(
    rec: &mut Recorder<F>,
    size: Size,
    now: u64,
    present: u64,
    interval: Option<u64>,
    captured: Option<F>,
)
    requires
        call_ensures(
            Recorder::<F>::capture_frame,
            (rec, size, now, present, interval, captured),
            (),
        ),
        old(rec).state is RecordingRequested,
    ensures
        interval is None ==> final(rec).state is Idle,
        interval matches Some(t) ==> {
            let meta = final(rec).state->Recording_meta;
            &&& final(rec).state is Recording
            &&& final(rec).state->Recording_to_push is None
            &&& final(rec).state->Recording_just_captured == captured
            &&& meta.path == old(rec).state->RecordingRequested_path
            &&& meta.started_at == now && meta.started_at_present == present
            &&& meta.frame_interval == t && meta.size == size
            &&& meta.last_frame_at is None && meta.frames_written == 0
        },
{
}

/// A screenshot that was asked for is the next captured frame, written to the
/// path that was given; where nothing is captured it is given up. Without a
/// request nothing is captured.
pub proof fn screenshots_take_the_next_frame<F>(
    rec: &mut Recorder<F>,
    size: Size,
    now: u64,
    present: u64,
    interval: Option<u64>,
    captured: Option<F>,
)
    requires
        call_ensures(
            Recorder::<F>::capture_frame,
            (rec, size, now, present, interval, captured),
            (),
        ),
    ensures
        old(rec).state is ScreenshotRequested ==> match captured {
            Some(frame) => final(rec).state is ScreenshotPending
                && final(rec).state->ScreenshotPending_frame == frame
                && final(rec).state->ScreenshotPending_path
                == old(rec).state->ScreenshotRequested_path,
            None => final(rec).state is Idle,
        },
        old(rec).state is Idle || old(rec).state is ScreenshotPending || old(rec).state is Stopping
            ==> final(rec).state == old(rec).state,
{
}

/// What is asked for a request that waits: a frame for a screenshot, an encoder
/// with the path, the rate and the size for a recording; nothing where nothing
/// waits.
pub proof fn requests_ask_for_what_they_need<F>(
    rec: Recorder<F>,
    size: Size,
    now: u64,
    r: CaptureRequest,
)
    requires
        call_ensures(Recorder::<F>::capture_request, (&rec, size, now), r),
    ensures
        rec.state is ScreenshotRequested ==> r is Frame,
        rec.state is RecordingRequested ==> {
            &&& r is Encoder
            &&& r->path == rec.state->RecordingRequested_path
            &&& r->fps == rec.state->RecordingRequested_fps
            &&& r->size == size
        },
        rec.state is Idle || rec.state is ScreenshotPending || rec.state is Stopping ==> r
            is Nothing,
{
}

/// A request for a recording starts one, unless one runs: that one is closed as
/// replaced, and what it had captured is given up. One that is being closed
/// stays.
pub proof fn a_second_recording_replaces_the_first<F>(
    rec: &mut Recorder<F>,
    path: String,
    fps: u32,
)
    requires
        call_ensures(Recorder::<F>::request_recording, (rec, path, fps), ()),
    ensures
        old(rec).state is Recording ==> {
            &&& final(rec).state is Stopping
            &&& final(rec).state->Stopping_meta == old(rec).state->Recording_meta
            &&& final(rec).state->Stopping_to_push is None
            &&& final(rec).state->Stopping_reason == FinishReason::Replaced
        },
        old(rec).state is Stopping ==> final(rec).state == old(rec).state,
        !(old(rec).state is Recording) && !(old(rec).state is Stopping) ==> {
            &&& final(rec).state is RecordingRequested
            &&& final(rec).state->RecordingRequested_path == path
            &&& final(rec).state->RecordingRequested_fps == fps
        },
{
}

/// A stop closes the recording that runs, at the user's wish, with the frame that
/// waits to be pushed; it takes back a request for one, and leaves everything
/// else alone.
pub proof fn a_stop_closes_the_recording<F>(rec: &mut Recorder<F>)
    requires
        call_ensures(Recorder::<F>::stop_recording, (rec,), ()),
    ensures
        old(rec).state is Recording ==> {
            &&& final(rec).state is Stopping
            &&& final(rec).state->Stopping_meta == old(rec).state->Recording_meta
            &&& final(rec).state->Stopping_to_push == old(rec).state->Recording_to_push
            &&& final(rec).state->Stopping_reason == FinishReason::User
        },
        old(rec).state is RecordingRequested ==> final(rec).state is Idle,
        !(old(rec).state is Recording) && !(old(rec).state is RecordingRequested) ==> final(
            rec).state == old(rec).state,
{
}

/// A request for a screenshot always stands, with its path.
pub proof fn screenshots_are_always_taken_on<F>(rec: &mut Recorder<F>, path: String)
    requires
        call_ensures(Recorder::<F>::request_screenshot, (rec, path), ()),
    ensures
        final(rec).state is ScreenshotRequested,
        final(rec).state->ScreenshotRequested_path == path,
{
}

/// After a tick, the frame captured in it waits to be pushed. A push that worked
/// is counted and its time kept; one that failed closes the recording; where
/// nothing waited, nothing is counted.
pub proof fn pushes_are_kept_count_of<F>(
    rec: &mut Recorder<F>,
    pushed: bool,
    now: u64,
    r: Option<FinishEvent>,
)
    requires
        call_ensures(Recorder::<F>::finalize, (rec, pushed, now), r),
        old(rec).state is Recording,
        old(rec).state->Recording_meta.frames_written < u64::MAX,
    ensures
        r is None,
        ({
            let meta = old(rec).state->Recording_meta;
            let waited = old(rec).state->Recording_to_push is Some;
            &&& waited && !pushed ==> {
                &&& final(rec).state is Stopping
                &&& final(rec).state->Stopping_meta == meta
                &&& final(rec).state->Stopping_to_push is None
                &&& final(rec).state->Stopping_reason == FinishReason::EncoderError
            }
            &&& !waited || pushed ==> {
                let after = final(rec).state->Recording_meta;
                &&& final(rec).state is Recording
                &&& final(rec).state->Recording_to_push == old(rec).state->Recording_just_captured
                &&& final(rec).state->Recording_just_captured is None
                &&& !waited ==> after == meta
                &&& waited ==> after.frames_written == meta.frames_written + 1
                &&& waited ==> after.last_frame_at == Some(now)
                &&& after.path == meta.path && after.size == meta.size
                &&& after.started_at == meta.started_at
                &&& after.started_at_present == meta.started_at_present
                &&& after.frame_interval == meta.frame_interval
            }
        }),
{
}

/// The report of a recording that is closed names its file, the frames that were
/// written, the last one among them where its push worked, the time since its
/// start and the reason.
pub proof fn reports_say_what_was_recorded<F>(
    rec: &mut Recorder<F>,
    pushed: bool,
    now: u64,
    r: Option<FinishEvent>,
)
    requires
        call_ensures(Recorder::<F>::finalize, (rec, pushed, now), r),
        old(rec).state is Stopping,
        old(rec).state->Stopping_meta.frames_written < u64::MAX,
    ensures
        final(rec).state is Idle,
        r matches Some(event) && {
            let meta = old(rec).state->Stopping_meta;
            &&& event.path == meta.path
            &&& event.reason == old(rec).state->Stopping_reason
            &&& meta.started_at <= now ==> event.duration == now - meta.started_at
            &&& now < meta.started_at ==> event.duration == 0
            &&& old(rec).state->Stopping_to_push is Some && pushed ==> event.frames_written
                == meta.frames_written + 1
            &&& old(rec).state->Stopping_to_push is None || !pushed ==> event.frames_written
                == meta.frames_written
        },
{
}

/// A push phase without a recording reports nothing; it ends a screenshot and
/// leaves a request waiting.
pub proof fn other_states_report_nothing<F>(
    rec: &mut Recorder<F>,
    pushed: bool,
    now: u64,
    r: Option<FinishEvent>,
)
    requires
        call_ensures(Recorder::<F>::finalize, (rec, pushed, now), r),
        !(old(rec).state is Recording),
        !(old(rec).state is Stopping),
    ensures
        r is None,
        old(rec).state is ScreenshotPending ==> final(rec).state is Idle,
        !(old(rec).state is ScreenshotPending) ==> final(rec).state == old(rec).state,
{
}

/// The frame that waits goes to where it belongs: a screenshot to its file, a
/// frame of a recording to the encoder, the last one with its end.
pub proof fn waiting_frames_are_pushed<F>(rec: Recorder<F>, r: Push<'_, F>)
    requires
        call_ensures(Recorder::<F>::pending_push, (&rec,), r),
    ensures
        rec.state matches RecorderState::ScreenshotPending { frame, path } ==> r
            == Push::Screenshot(&frame, &path),
        rec.state matches RecorderState::Recording { to_push, .. } ==> match to_push {
            Some(frame) => r == Push::Frame(&frame),
            None => r == Push::<F>::Nothing,
        },
        rec.state matches RecorderState::Stopping { to_push, .. } ==> match to_push {
            Some(frame) => r == Push::Close(Some(&frame)),
            None => r == Push::<F>::Close(None),
        },
        rec.state is Idle || rec.state is ScreenshotRequested || rec.state is RecordingRequested
            ==> r == Push::<F>::Nothing,
{
}

/// The indicator shows exactly while a recording is requested or runs; its clock
/// starts with the recording and not before. Frames keep coming until all is
/// done, and an encoder is held from its start to its end.
pub proof fn indicator_follows_the_recording<F>(
    rec: Recorder<F>,
    now: u64,
    shown: Option<u64>,
    continuous: bool,
    open: bool,
)
    requires
        call_ensures(Recorder::<F>::overlay_started_at, (&rec, now), shown),
        call_ensures(Recorder::<F>::wants_continuous_frames, (&rec,), continuous),
        call_ensures(Recorder::<F>::encoder_open, (&rec,), open),
    ensures
        shown is Some <==> rec.state is RecordingRequested || rec.state is Recording,
        rec.state is RecordingRequested ==> shown == Some(now),
        rec.state is Recording ==> shown == Some(rec.state->Recording_meta.started_at_present),
        rec.state is Idle <==> !continuous,
        open <==> rec.state is Recording || rec.state is Stopping,
{
}

/// The frame interval is the nearest whole number of nanoseconds to a second
/// divided by the rate: it is less than one away, and never further than a half.
pub proof fn intervals_divide_a_second(fps: u32, r: u64)
    requires
        call_ensures(frame_interval, (fps,), r),
        fps > 0,
    ensures
        2 * (r * fps) <= 2_000_000_000 + fps,
        2 * (r * fps) >= 2_000_000_000 - fps,
{
    let q = 1_000_000_000int / fps as int;
    let rest = 1_000_000_000int % fps as int;
    assert(q * fps + rest == 1_000_000_000 && 0 <= rest < fps) by (nonlinear_arith)
        requires
            q == 1_000_000_000int / fps as int,
            rest == 1_000_000_000int % fps as int,
            fps > 0,
    ;
    assert((q + 1) * fps == q * fps + fps) by (nonlinear_arith);
}

/// Each reason has its own word.
pub proof fn reasons_are_told_apart(reason: FinishReason, r: &'static str)
    requires
        call_ensures(FinishReason::as_str, (reason,), r),
    ensures
        reason == FinishReason::User ==> r@ == "user"@,
        reason == FinishReason::Resize ==> r@ == "resize"@,
        reason == FinishReason::EncoderError ==> r@ == "encoder_error"@,
        reason == FinishReason::Replaced ==> r@ == "replaced"@,
{
}

/// The frame interval is rounded to the nearest nanosecond. Where two are equally
/// near it is the later one, but at three rates the earlier. `low` is the last
/// nanosecond that is not after the exact time.
pub proof fn intervals_are_rounded(fps: u32, r: u64, low: int)
    requires
        call_ensures(frame_interval, (fps,), r),
        fps > 0,
        low * fps <= 1_000_000_000 < (low + 1) * fps,
    ensures
        ({
            let short = 1_000_000_000 - low * fps;
            let over = (low + 1) * fps - 1_000_000_000;
            &&& short < over ==> r == low
            &&& short > over ==> r == low + 1
            &&& short == over && (fps == 1024 || fps == 16_000_000 || fps == 80_000_000) ==> r
                == low
            &&& short == over && fps != 1024 && fps != 16_000_000 && fps != 80_000_000 ==> r == low
                + 1
        }),
{
    let q = 1_000_000_000int / fps as int;
    let rest = 1_000_000_000int % fps as int;
    assert(q * fps + rest == 1_000_000_000 && 0 <= rest < fps) by (nonlinear_arith)
        requires
            q == 1_000_000_000int / fps as int,
            rest == 1_000_000_000int % fps as int,
            fps > 0,
    ;
    assert(low == q) by (nonlinear_arith)
        requires
            low * fps <= 1_000_000_000 < (low + 1) * fps,
            q * fps + rest == 1_000_000_000,
            0 <= rest < fps,
            fps > 0,
    ;
    assert((q + 1) * fps == q * fps + fps) by (nonlinear_arith);
}

} // verus!
