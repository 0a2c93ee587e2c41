//! Policy for recording a short microphone clip and looping it back for
//! comparison. The engine owns two fixed-size sample slots and drives an
//! [`AudioDriver`]; it contains no audio, device or routing implementation.
//!
//! Samples are carried as the IEEE-754 bit patterns of 32-bit floats, so the
//! sanitising of captured input is plain integer logic.
use vstd::prelude::*;
use zeroize::Zeroize;
use crate::text::{push_str, seq_starts_with};

verus! {

pub const SAMPLE_RATE: usize = 48_000;

pub const MAX_FRAMES: usize = 480_000;

pub const MIN_COMMIT_FRAMES: usize = 960;

/// Bytes of one stored sample (a 32-bit float).
pub const SAMPLE_BYTES: usize = 4;

pub const SLOT_BYTES: usize = MAX_FRAMES * SAMPLE_BYTES;

pub const TOTAL_SAMPLE_BYTES: usize = SLOT_BYTES * 2;

/// Identifies one stream opened by a driver and the callback epoch it serves.
#[derive(Clone, Copy, Debug, PartialEq, Eq, Structural)]
pub struct StreamToken {
    id: u64,
    callback_epoch: u64,
}

impl StreamToken {
    /// The callback epoch the stream was opened for.
    pub closed spec fn epoch(self) -> u64 {
        self.callback_epoch
    }

    /// The driver's identifier of the stream.
    pub closed spec fn stream_id(self) -> u64 {
        self.id
    }

    pub fn callback_epoch(self) -> (r: u64)
        ensures
            r == self.epoch(),
    {
        self.callback_epoch
    }
}

/// A failure reported by an audio driver.
#[derive(Clone, Debug, PartialEq, Eq)]
pub struct AudioError(pub String);

impl AudioError {
    /// The text of the error.
    pub fn message(&self) -> (r: String)
        ensures
            r@ == self.0@,
    {
        self.0.clone()
    }
}

/// One call a driver received: what was handed to it and whether it
/// succeeded.
pub enum DriverEvent {
    BeginCapture { callback_epoch: u64, ok: bool },
    PauseCapture { token: StreamToken, ok: bool },
    ResumeCapture { token: StreamToken, ok: bool },
    BeginPlayback { callback_epoch: u64, ok: bool },
    StopStream { token: StreamToken, ok: bool },
    DeactivateAll,
    Shutdown,
}

/// Audio lifecycle seam. Implementations carry no policy.
///
/// `begin_capture` and `begin_playback_loop` leave no stream active when they
/// return `Err`; any later lifecycle error is handled by `deactivate_all`.
/// Every call is appended to the driver's history with its arguments and
/// whether it returned `Ok`.
pub trait AudioDriver {
    /// The stream the driver holds open, if any.
    spec fn active_stream(&self) -> Option<StreamToken>;

    /// Every call the driver has received, oldest first.
    spec fn history(&self) -> Seq<DriverEvent>;

    fn begin_capture(&mut self, callback_epoch: u64) -> (r: Result<StreamToken, AudioError>)
        ensures
            final(self).history() == old(self).history().push(
                DriverEvent::BeginCapture { callback_epoch, ok: r is Ok },
            ),
            r matches Ok(t) ==> t.epoch() == callback_epoch && final(self).active_stream() == Some(
                t,
            ),
            r is Err ==> final(self).active_stream() is None,
    ;

    fn pause_capture(&mut self, token: StreamToken) -> (r: Result<(), AudioError>)
        ensures
            final(self).history() == old(self).history().push(
                DriverEvent::PauseCapture { token, ok: r is Ok },
            ),
            r is Ok ==> final(self).active_stream() == old(self).active_stream(),
    ;

    fn resume_capture(&mut self, token: StreamToken) -> (r: Result<(), AudioError>)
        ensures
            final(self).history() == old(self).history().push(
                DriverEvent::ResumeCapture { token, ok: r is Ok },
            ),
            r is Ok ==> final(self).active_stream() == old(self).active_stream(),
    ;

    fn begin_playback_loop(&mut self, callback_epoch: u64) -> (r: Result<StreamToken, AudioError>)
        ensures
            final(self).history() == old(self).history().push(
                DriverEvent::BeginPlayback { callback_epoch, ok: r is Ok },
            ),
            r matches Ok(t) ==> t.epoch() == callback_epoch && final(self).active_stream() == Some(
                t,
            ),
            r is Err ==> final(self).active_stream() is None,
    ;

    fn stop_stream(&mut self, token: StreamToken) -> (r: Result<(), AudioError>)
        ensures
            final(self).history() == old(self).history().push(
                DriverEvent::StopStream { token, ok: r is Ok },
            ),
            r is Ok ==> final(self).active_stream() is None,
    ;

    /// Infallibly tears down every stream after lifecycle state becomes ambiguous.
    fn deactivate_all(&mut self)
        ensures
            final(self).history() == old(self).history().push(DriverEvent::DeactivateAll),
            final(self).active_stream() is None,
    ;

    fn shutdown(&mut self)
        ensures
            final(self).history() == old(self).history().push(DriverEvent::Shutdown),
            final(self).active_stream() is None,
    ;
}

#[derive(Clone, Copy, Debug, PartialEq, Eq, Structural)]
pub enum DriverCall {
    BeginCapture,
    PauseCapture,
    ResumeCapture,
    BeginPlayback,
    StopStream,
    DeactivateAll,
    Shutdown,
}

/// The name of a driver call as it appears in messages.
pub open spec fn driver_call_name(call: DriverCall) -> Seq<char> {
    match call {
        DriverCall::BeginCapture => "BeginCapture"@,
        DriverCall::PauseCapture => "PauseCapture"@,
        DriverCall::ResumeCapture => "ResumeCapture"@,
        DriverCall::BeginPlayback => "BeginPlayback"@,
        DriverCall::StopStream => "StopStream"@,
        DriverCall::DeactivateAll => "DeactivateAll"@,
        DriverCall::Shutdown => "Shutdown"@,
    }
}

fn driver_call_str(call: DriverCall) -> (r: &'static str)
    ensures
        r@ == driver_call_name(call),
{
    match call {
        DriverCall::BeginCapture => "BeginCapture",
        DriverCall::PauseCapture => "PauseCapture",
        DriverCall::ResumeCapture => "ResumeCapture",
        DriverCall::BeginPlayback => "BeginPlayback",
        DriverCall::StopStream => "StopStream",
        DriverCall::DeactivateAll => "DeactivateAll",
        DriverCall::Shutdown => "Shutdown",
    }
}

/// The message of a simulated failure of a driver call.
pub open spec fn simulated_failure_text(call: DriverCall) -> Seq<char> {
    "simulated "@ + driver_call_name(call) + " failure"@
}

/// The identifier after `n` in the driver's token counter, which wraps.
pub open spec fn next_token_id(n: u64) -> u64 {
    if n == u64::MAX {
        0
    } else {
        (n + 1) as u64
    }
}

/// What a stream start of the fake driver does: it logs the call; the armed
/// failure of that call fails it once with the simulated message; a stream
/// already open refuses it; every refusal leaves no stream open; otherwise a
/// new stream with the next identifier opens, unpaused.
pub open spec fn start_outcome(
    d0: FakeAudioDriver,
    d1: FakeAudioDriver,
    call: DriverCall,
    callback_epoch: u64,
    r: Result<StreamToken, AudioError>,
) -> bool {
    &&& d1.call_log() == d0.call_log().push(call)
    &&& start_effect(d0, d1, call, callback_epoch, r)
}

/// What a stream start of the fake driver does to its stream, its armed
/// failure and its token counter.
pub open spec fn start_effect(
    d0: FakeAudioDriver,
    d1: FakeAudioDriver,
    call: DriverCall,
    callback_epoch: u64,
    r: Result<StreamToken, AudioError>,
) -> bool {
    &&& r is Err ==> d1.active_stream() is None && !d1.is_paused() && d1.last_token_id()
        == d0.last_token_id()
    &&& d0.armed_failure() == Some(call) ==> (r matches Err(e) && e.0@ == simulated_failure_text(call)
        && d1.armed_failure() is None)
    &&& d0.armed_failure() != Some(call) ==> d1.armed_failure() == d0.armed_failure()
    &&& d0.armed_failure() != Some(call) && d0.active_stream() is Some ==> (r matches Err(e) && e.0@
        == "fake driver refuses overlapping streams"@)
    &&& d0.armed_failure() != Some(call) && d0.active_stream() is None ==> (r matches Ok(t)
        && t.epoch() == callback_epoch && t.stream_id() == next_token_id(d0.last_token_id())
        && d1.active_stream() == Some(t) && !d1.is_paused() && d1.last_token_id() == next_token_id(
        d0.last_token_id(),
    ))
}

/// What a call on an open stream (pause, resume, stop) of the fake driver
/// does: it logs the call; the armed failure of that call fails it once with
/// the simulated message; otherwise it succeeds exactly when the stream is in
/// the state the call needs (`ready`) and is refused with `refusal` when it
/// is not. A failed call keeps the stream and its paused flag.
pub open spec fn stream_call_outcome(
    d0: FakeAudioDriver,
    d1: FakeAudioDriver,
    call: DriverCall,
    ready: bool,
    refusal: Seq<char>,
    r: Result<(), AudioError>,
) -> bool {
    &&& d1.call_log() == d0.call_log().push(call)
    &&& stream_call_effect(d0, d1, call, ready, refusal, r)
}

/// What a call on an open stream of the fake driver does to its stream, its
/// armed failure and its token counter.
pub open spec fn stream_call_effect(
    d0: FakeAudioDriver,
    d1: FakeAudioDriver,
    call: DriverCall,
    ready: bool,
    refusal: Seq<char>,
    r: Result<(), AudioError>,
) -> bool {
    &&& d1.last_token_id() == d0.last_token_id()
    &&& d0.armed_failure() == Some(call) ==> (r matches Err(e) && e.0@ == simulated_failure_text(call)
        && d1.armed_failure() is None)
    &&& d0.armed_failure() != Some(call) ==> d1.armed_failure() == d0.armed_failure()
    &&& d0.armed_failure() != Some(call) && !ready ==> (r matches Err(e) && e.0@ == refusal)
    &&& d0.armed_failure() != Some(call) && ready ==> r is Ok
    &&& r is Err ==> d1.active_stream() == d0.active_stream() && d1.is_paused() == d0.is_paused()
}

/// The kind of call a history entry records.
pub open spec fn event_call(event: DriverEvent) -> DriverCall {
    match event {
        DriverEvent::BeginCapture { .. } => DriverCall::BeginCapture,
        DriverEvent::PauseCapture { .. } => DriverCall::PauseCapture,
        DriverEvent::ResumeCapture { .. } => DriverCall::ResumeCapture,
        DriverEvent::BeginPlayback { .. } => DriverCall::BeginPlayback,
        DriverEvent::StopStream { .. } => DriverCall::StopStream,
        DriverEvent::DeactivateAll => DriverCall::DeactivateAll,
        DriverEvent::Shutdown => DriverCall::Shutdown,
    }
}

/// The kinds of the calls in `history`, in the same order.
pub open spec fn calls_of(history: Seq<DriverEvent>) -> Seq<DriverCall> {
    history.map_values(|event: DriverEvent| event_call(event))
}

/// The fake driver's log: the kind of every call, and every call with its
/// arguments and outcome, kept in step.
struct CallLog {
    calls: Vec<DriverCall>,
    events: Ghost<Seq<DriverEvent>>,
}

impl CallLog {
    #[verifier::type_invariant]
    spec fn calls_follow_events(self) -> bool {
        self.calls@ == calls_of(self.events@)
    }

    fn new() -> (r: Self)
        ensures
            r.calls@ == Seq::<DriverCall>::empty(),
            r.events@ == Seq::<DriverEvent>::empty(),
    {
        proof {
            assert(calls_of(Seq::<DriverEvent>::empty()) =~= Seq::<DriverCall>::empty());
        }
        CallLog { calls: Vec::new(), events: Ghost(Seq::empty()) }
    }

    /// Appends one call.
    fn record(&mut self, event: Ghost<DriverEvent>, call: DriverCall)
        requires
            event_call(event@) == call,
        ensures
            final(self).calls@ == old(self).calls@.push(call),
            final(self).events@ == old(self).events@.push(event@),
    {
        let mut taken = CallLog::new();
        std::mem::swap(&mut taken, self);
        proof {
            use_type_invariant(&taken);
        }
        let CallLog { mut calls, events } = taken;
        calls.push(call);
        let ghost pushed = events@.push(event@);
        proof {
            assert(calls@ =~= calls_of(pushed));
        }
        *self = CallLog { calls, events: Ghost(pushed) };
    }
}

/// A deterministic lifecycle-only driver. It cannot open a device or move audio.
pub struct FakeAudioDriver {
    next_token: u64,
    active: Option<StreamToken>,
    paused: bool,
    fail_next: Option<DriverCall>,
    log: CallLog,
}

impl FakeAudioDriver {
    /// The call that will fail next, if one is armed.
    pub closed spec fn armed_failure(&self) -> Option<DriverCall> {
        self.fail_next
    }

    /// Every call made so far, in order.
    pub closed spec fn call_log(&self) -> Seq<DriverCall> {
        self.log.calls@
    }

    /// Whether the active capture is paused.
    pub closed spec fn is_paused(&self) -> bool {
        self.paused
    }

    /// The identifier of the last stream handed out.
    pub closed spec fn last_token_id(&self) -> u64 {
        self.next_token
    }

    /// A driver with no stream, no armed failure and no calls.
    pub fn new() -> (r: Self)
        ensures
            r.active_stream() is None,
            !r.is_paused(),
            r.armed_failure() is None,
            r.call_log() == Seq::<DriverCall>::empty(),
            r.history() == Seq::<DriverEvent>::empty(),
            r.last_token_id() == 0,
    {
        FakeAudioDriver { next_token: 0, active: None, paused: false, fail_next: None, log: CallLog::new() }
    }

    /// Makes the next call of the given kind fail.
    pub fn fail_next(&mut self, call: DriverCall)
        ensures
            final(self).armed_failure() == Some(call),
            final(self).active_stream() == old(self).active_stream(),
            final(self).is_paused() == old(self).is_paused(),
            final(self).call_log() == old(self).call_log(),
            final(self).history() == old(self).history(),
            final(self).last_token_id() == old(self).last_token_id(),
    {
        self.fail_next = Some(call);
    }

    /// The calls made so far, in order: one entry for each call the driver
    /// received, whether it succeeded or failed, of the kind of that call.
    pub fn calls(&self) -> (r: &[DriverCall])
        ensures
            r@ == self.call_log(),
            r@ == calls_of(self.history()),
    {
        proof {
            use_type_invariant(&self.log);
        }
        self.log.calls.as_slice()
    }

    /// The number of open streams: one or none.
    pub fn active_stream_count(&self) -> (r: usize)
        ensures
            r == (if self.active_stream() is Some { 1usize } else { 0usize }),
    {
        if self.active.is_some() {
            1
        } else {
            0
        }
    }

    /// Fails `call` when it is the armed one, disarming it.
    fn take_armed(&mut self, call: DriverCall) -> (r: Result<(), AudioError>)
        ensures
            final(self).log == old(self).log,
            final(self).active_stream() == old(self).active_stream(),
            final(self).is_paused() == old(self).is_paused(),
            final(self).last_token_id() == old(self).last_token_id(),
            old(self).armed_failure() == Some(call) ==> (r matches Err(e) && e.0@
                == simulated_failure_text(call) && final(self).armed_failure() is None),
            old(self).armed_failure() != Some(call) ==> r is Ok && final(self).armed_failure()
                == old(self).armed_failure(),
    {
        let armed = match self.fail_next {
            Some(c) => c == call,
            None => false,
        };
        if armed {
            self.fail_next = None;
            let mut text = String::from_str("simulated ");
            push_str(&mut text, driver_call_str(call));
            push_str(&mut text, " failure");
            return Err(AudioError(text));
        }
        Ok(())
    }

    /// Opens a stream for a call. A refused start (the armed failure, or a
    /// stream already open) tears down any open stream.
    fn start(&mut self, call: DriverCall, callback_epoch: u64) -> (r: Result<
        StreamToken,
        AudioError,
    >)
        ensures
            start_effect(*old(self), *final(self), call, callback_epoch, r),
            final(self).log == old(self).log,
    {
        match self.take_armed(call) {
            Ok(()) => {},
            Err(e) => {
                self.active = None;
                self.paused = false;
                return Err(e);
            },
        }
        if self.active.is_some() {
            self.active = None;
            self.paused = false;
            return Err(AudioError(String::from_str("fake driver refuses overlapping streams")));
        }
        self.next_token = if self.next_token == u64::MAX {
            0
        } else {
            self.next_token + 1
        };
        let token = StreamToken { id: self.next_token, callback_epoch };
        self.active = Some(token);
        self.paused = false;
        Ok(token)
    }

    /// Pauses or resumes the capture stream `token`.
    fn set_paused(&mut self, token: StreamToken, pause: bool) -> (r: Result<(), AudioError>)
        ensures
            final(self).log == old(self).log,
            final(self).active_stream() == old(self).active_stream(),
            pause ==> stream_call_effect(
                *old(self),
                *final(self),
                DriverCall::PauseCapture,
                old(self).active_stream() == Some(token) && !old(self).is_paused(),
                "capture stream is not active"@,
                r,
            ),
            !pause ==> stream_call_effect(
                *old(self),
                *final(self),
                DriverCall::ResumeCapture,
                old(self).active_stream() == Some(token) && old(self).is_paused(),
                "capture stream is not paused"@,
                r,
            ),
            r is Ok ==> final(self).is_paused() == pause,
    {
        let call = if pause {
            DriverCall::PauseCapture
        } else {
            DriverCall::ResumeCapture
        };
        self.take_armed(call)?;
        let matches_active = match self.active {
            Some(t) => t == token,
            None => false,
        };
        if !matches_active || self.paused == pause {
            let text = if pause {
                "capture stream is not active"
            } else {
                "capture stream is not paused"
            };
            return Err(AudioError(String::from_str(text)));
        }
        self.paused = pause;
        Ok(())
    }

    /// Closes the stream `token`.
    fn stop(&mut self, token: StreamToken) -> (r: Result<(), AudioError>)
        ensures
            final(self).log == old(self).log,
            stream_call_effect(
                *old(self),
                *final(self),
                DriverCall::StopStream,
                old(self).active_stream() == Some(token),
                "stream token is stale"@,
                r,
            ),
            r is Ok ==> final(self).active_stream() is None && !final(self).is_paused(),
    {
        self.take_armed(DriverCall::StopStream)?;
        let matches_active = match self.active {
            Some(t) => t == token,
            None => false,
        };
        if !matches_active {
            return Err(AudioError(String::from_str("stream token is stale")));
        }
        self.active = None;
        self.paused = false;
        Ok(())
    }
}

impl Default for FakeAudioDriver {
    fn default() -> (r: Self)
        ensures
            r.active_stream() is None,
            !r.is_paused(),
            r.armed_failure() is None,
            r.call_log() == Seq::<DriverCall>::empty(),
            r.history() == Seq::<DriverEvent>::empty(),
            r.last_token_id() == 0,
    {
        FakeAudioDriver::new()
    }
}

impl AudioDriver for FakeAudioDriver {
    closed spec fn active_stream(&self) -> Option<StreamToken> {
        self.active
    }

    closed spec fn history(&self) -> Seq<DriverEvent> {
        self.log.events@
    }

    fn begin_capture(&mut self, callback_epoch: u64) -> (r: Result<StreamToken, AudioError>)
        ensures
            start_outcome(*old(self), *final(self), DriverCall::BeginCapture, callback_epoch, r),
    {
        let r = self.start(DriverCall::BeginCapture, callback_epoch);
        self.log.record(Ghost(DriverEvent::BeginCapture { callback_epoch, ok: r is Ok }), DriverCall::BeginCapture);
        r
    }

    fn pause_capture(&mut self, token: StreamToken) -> (r: Result<(), AudioError>)
        ensures
            stream_call_outcome(
                *old(self),
                *final(self),
                DriverCall::PauseCapture,
                old(self).active_stream() == Some(token) && !old(self).is_paused(),
                "capture stream is not active"@,
                r,
            ),
            final(self).active_stream() == old(self).active_stream(),
            r is Ok ==> final(self).is_paused(),
    {
        let r = self.set_paused(token, true);
        self.log.record(Ghost(DriverEvent::PauseCapture { token, ok: r is Ok }), DriverCall::PauseCapture);
        r
    }

    fn resume_capture(&mut self, token: StreamToken) -> (r: Result<(), AudioError>)
        ensures
            stream_call_outcome(
                *old(self),
                *final(self),
                DriverCall::ResumeCapture,
                old(self).active_stream() == Some(token) && old(self).is_paused(),
                "capture stream is not paused"@,
                r,
            ),
            final(self).active_stream() == old(self).active_stream(),
            r is Ok ==> !final(self).is_paused(),
    {
        let r = self.set_paused(token, false);
        self.log.record(Ghost(DriverEvent::ResumeCapture { token, ok: r is Ok }), DriverCall::ResumeCapture);
        r
    }

    fn begin_playback_loop(&mut self, callback_epoch: u64) -> (r: Result<StreamToken, AudioError>)
        ensures
            start_outcome(*old(self), *final(self), DriverCall::BeginPlayback, callback_epoch, r),
    {
        let r = self.start(DriverCall::BeginPlayback, callback_epoch);
        self.log.record(Ghost(DriverEvent::BeginPlayback { callback_epoch, ok: r is Ok }), DriverCall::BeginPlayback);
        r
    }

    fn stop_stream(&mut self, token: StreamToken) -> (r: Result<(), AudioError>)
        ensures
            stream_call_outcome(
                *old(self),
                *final(self),
                DriverCall::StopStream,
                old(self).active_stream() == Some(token),
                "stream token is stale"@,
                r,
            ),
            r is Ok ==> !final(self).is_paused(),
    {
        let r = self.stop(token);
        self.log.record(Ghost(DriverEvent::StopStream { token, ok: r is Ok }), DriverCall::StopStream);
        r
    }

    fn deactivate_all(&mut self)
        ensures
            final(self).call_log() == old(self).call_log().push(DriverCall::DeactivateAll),
            final(self).armed_failure() == old(self).armed_failure(),
            final(self).last_token_id() == old(self).last_token_id(),
            !final(self).is_paused(),
    {
        self.active = None;
        self.paused = false;
        self.log.record(Ghost(DriverEvent::DeactivateAll), DriverCall::DeactivateAll);
    }

    fn shutdown(&mut self)
        ensures
            final(self).call_log() == old(self).call_log().push(DriverCall::Shutdown),
            final(self).armed_failure() == old(self).armed_failure(),
            final(self).last_token_id() == old(self).last_token_id(),
            !final(self).is_paused(),
    {
        self.active = None;
        self.paused = false;
        self.log.record(Ghost(DriverEvent::Shutdown), DriverCall::Shutdown);
    }
}

/// The externally visible state of the engine.
#[derive(Clone, Debug, PartialEq, Eq)]
pub enum PublicState {
    Unavailable { reason: String },
    Empty,
    Ready { frames: usize },
    Recording { draft_frames: usize },
    RecordingPaused { draft_frames: usize },
    Playing { frames: usize, elapsed_frames: usize },
    Shutdown,
}

#[derive(Clone, Copy, Debug, PartialEq, Eq, Structural)]
pub enum Action {
    ToggleRecord,
    TogglePlay,
    Cancel,
    WorkspaceExited,
}

#[derive(Clone, Debug, PartialEq, Eq)]
pub enum ActionResult {
    Transitioned,
    IgnoredDuplicate,
    Rejected(String),
}

/// Counters of input the engine refused; they never hold sample values.
#[derive(Clone, Copy, Debug, PartialEq, Eq, Structural)]
pub struct Diagnostics {
    pub non_finite_samples: u64,
    pub stale_callbacks: u64,
}

impl Default for Diagnostics {
    fn default() -> (r: Self)
        ensures
            r.non_finite_samples == 0,
            r.stale_callbacks == 0,
    {
        Diagnostics { non_finite_samples: 0, stale_callbacks: 0 }
    }
}

/// The lifecycle phase of the engine.
#[derive(Clone, Copy, Debug, PartialEq, Eq, Structural)]
pub enum EngineState {
    Unavailable,
    Empty,
    Ready,
    Recording,
    RecordingPaused,
    Playing,
    Shutdown,
}

/// `a + b` in wrapping `u64` arithmetic.
pub open spec fn wrap_add(a: u64, b: u64) -> u64 {
    if a + b > u64::MAX {
        (a + b - 0x1_0000_0000_0000_0000) as u64
    } else {
        (a + b) as u64
    }
}

/// The next callback epoch; it saturates.
pub open spec fn next_epoch(e: u64) -> u64 {
    if e == u64::MAX {
        e
    } else {
        (e + 1) as u64
    }
}

/// A slot's worth of silence.
pub open spec fn zeros(n: nat) -> Seq<u32> {
    Seq::new(n, |i: int| 0u32)
}

/// The bit pattern is a finite float (its exponent is not all ones).
pub open spec fn is_finite_bits(b: u32) -> bool {
    b & 0x7f80_0000u32 != 0x7f80_0000u32
}

/// The stored form of a captured sample: non-finite values become 0.0 and
/// finite values are clamped to [-1.0, 1.0]. On finite bit patterns the
/// magnitude order is the unsigned order of the bits without the sign.
pub open spec fn sanitize_sample(b: u32) -> u32 {
    if !is_finite_bits(b) {
        0
    } else if b & 0x7fff_ffffu32 > 0x3f80_0000u32 {
        (b & 0x8000_0000u32) | 0x3f80_0000u32
    } else {
        b
    }
}

/// The number of non-finite samples in a sequence.
pub open spec fn count_non_finite(s: Seq<u32>) -> nat
    decreases s.len(),
{
    if s.len() == 0 {
        0
    } else {
        count_non_finite(s.drop_last()) + if is_finite_bits(s.last()) {
            0nat
        } else {
            1nat
        }
    }
}

/// The abstract state of a comparison engine.
#[verifier::ext_equal]
pub struct EngineView {
    pub state: EngineState,
    pub reason: Seq<char>,
    pub generation: u64,
    pub epoch: u64,
    pub active: Option<StreamToken>,
    pub committed: Option<usize>,
    pub draft: usize,
    pub frames: Seq<usize>,
    pub samples: Seq<Seq<u32>>,
    pub cursor: usize,
    pub last_sequence: Option<u64>,
    pub revision: u64,
    pub diagnostics: Diagnostics,
}

impl EngineView {
    /// Two slots of `MAX_FRAMES` samples; the committed clip is long enough
    /// and is never the draft.
    pub open spec fn storage_ok(self) -> bool {
        &&& self.frames.len() == 2
        &&& self.samples.len() == 2
        &&& self.samples[0].len() == MAX_FRAMES
        &&& self.samples[1].len() == MAX_FRAMES
        &&& self.frames[0] <= MAX_FRAMES
        &&& self.frames[1] <= MAX_FRAMES
        &&& self.draft < 2
        &&& self.committed matches Some(c) ==> c < 2 && c != self.draft && self.frames[c as int]
            >= MIN_COMMIT_FRAMES
    }

    /// A stream is open exactly while recording, paused or playing, and it
    /// serves the current callback epoch.
    pub open spec fn phase_ok(self) -> bool {
        &&& (self.active is Some <==> (self.state == EngineState::Recording || self.state
            == EngineState::RecordingPaused || self.state == EngineState::Playing))
        &&& self.active matches Some(t) ==> t.epoch() == self.epoch
        &&& (self.state == EngineState::Ready || self.state == EngineState::Playing)
            ==> self.committed is Some
        &&& self.state == EngineState::Empty ==> self.committed is None
        &&& self.state == EngineState::Playing ==> (self.committed matches Some(c)
            && self.cursor < self.frames[c as int])
        &&& self.state == EngineState::Shutdown ==> self.committed is None && self.frames[0] == 0
            && self.frames[1] == 0 && self.samples[0] == zeros(MAX_FRAMES as nat)
            && self.samples[1] == zeros(MAX_FRAMES as nat)
    }

    pub open spec fn valid(self) -> bool {
        self.storage_ok() && self.phase_ok()
    }

    /// Slot `i` emptied and zeroed.
    pub open spec fn with_slot_scrubbed(self, i: int) -> EngineView {
        EngineView {
            frames: self.frames.update(i, 0usize),
            samples: self.samples.update(i, zeros(MAX_FRAMES as nat)),
            ..self
        }
    }

    /// After `emergency_teardown`: no stream, a new epoch, a scrubbed draft
    /// if one was being recorded, and a rewound playback cursor.
    pub open spec fn torn_down(self) -> EngineView {
        let v = if self.state == EngineState::Recording || self.state
            == EngineState::RecordingPaused {
            self.with_slot_scrubbed(self.draft as int)
        } else {
            self
        };
        EngineView { active: None, epoch: next_epoch(self.epoch), cursor: 0, ..v }
    }

    /// After failing closed with a reason.
    pub open spec fn failed_closed(self, reason: Seq<char>) -> EngineView {
        EngineView {
            reason,
            state: EngineState::Unavailable,
            revision: wrap_add(self.revision, 1),
            ..self.torn_down()
        }
    }

    /// After a successful `stop_active`.
    pub open spec fn stopped(self) -> EngineView {
        if self.active is Some {
            EngineView { active: None, epoch: next_epoch(self.epoch), ..self }
        } else {
            self
        }
    }

    /// After committing the draft: it becomes the committed clip and the
    /// displaced slot is scrubbed and becomes the draft.
    pub open spec fn committed_draft(self) -> EngineView {
        match self.committed {
            Some(old) => EngineView {
                committed: Some(self.draft),
                draft: old,
                ..self.with_slot_scrubbed(old as int)
            },
            None => EngineView {
                committed: Some(self.draft),
                draft: (1 - self.draft) as usize,
                ..self.with_slot_scrubbed(1 - self.draft)
            },
        }
    }

    /// The revision advanced by one.
    pub open spec fn bumped(self) -> EngineView {
        EngineView { revision: wrap_add(self.revision, 1), ..self }
    }

    /// The same view in another phase.
    pub open spec fn in_state(self, state: EngineState) -> EngineView {
        EngineView { state, ..self }
    }

    /// The slot a new recording goes to: the one that is not committed.
    pub open spec fn recording_slot(self) -> usize {
        match self.committed {
            Some(c) => (1 - c) as usize,
            None => 0,
        }
    }

    /// The frames of the committed clip, or zero.
    pub open spec fn committed_frames(self) -> usize {
        match self.committed {
            Some(c) => self.frames[c as int],
            None => 0,
        }
    }

    /// A stale callback counted.
    pub open spec fn stale_counted(self) -> EngineView {
        EngineView {
            diagnostics: Diagnostics {
                stale_callbacks: wrap_add(self.diagnostics.stale_callbacks, 1),
                ..self.diagnostics
            },
            ..self
        }
    }
}

/// The public state that a view presents.
pub open spec fn public_state_of(v: EngineView, p: PublicState) -> bool {
    match v.state {
        EngineState::Unavailable => p matches PublicState::Unavailable { reason } && reason@
            == v.reason,
        EngineState::Empty => p == PublicState::Empty,
        EngineState::Ready => p == PublicState::Ready { frames: v.committed_frames() },
        EngineState::Recording => p == PublicState::Recording {
            draft_frames: v.frames[v.draft as int],
        },
        EngineState::RecordingPaused => p == PublicState::RecordingPaused {
            draft_frames: v.frames[v.draft as int],
        },
        EngineState::Playing => p == PublicState::Playing {
            frames: v.committed_frames(),
            elapsed_frames: v.cursor,
        },
        EngineState::Shutdown => p == PublicState::Shutdown,
    }
}

/// `Zeroize::zeroize` (zeroize crate) on the samples as a slice of `u32`:
/// every element is overwritten with zero by volatile writes; the length is
/// kept.
#[verifier::external_body]
fn zeroize_samples(samples: &mut Vec<u32>)
    ensures
        final(samples)@ == zeros(old(samples)@.len()),
{
    samples.as_mut_slice().zeroize();
}

struct Slot {
    samples: Vec<u32>,
    frames: usize,
}

impl Slot {
    fn new() -> (r: Slot)
        ensures
            r.samples@ == zeros(MAX_FRAMES as nat),
            r.frames == 0,
    {
        let samples: Vec<u32> = vec![0u32; MAX_FRAMES];
        assert(samples@ =~= zeros(MAX_FRAMES as nat));
        Slot { samples, frames: 0 }
    }

    fn scrub(&mut self)
        ensures
            final(self).samples@ == zeros(old(self).samples@.len()),
            final(self).frames == 0,
    {
        zeroize_samples(&mut self.samples);
        self.frames = 0;
    }
}

/// Single-owner policy engine. Callers serialise access to it.
pub struct ComparisonEngine<D: AudioDriver> {
    driver: D,
    slot0: Slot,
    slot1: Slot,
    committed: Option<usize>,
    draft: usize,
    state: EngineState,
    unavailable_reason: String,
    observed_generation: u64,
    callback_epoch: u64,
    active_token: Option<StreamToken>,
    playback_cursor: usize,
    last_sequence: Option<u64>,
    revision: u64,
    diagnostics: Diagnostics,
}

impl<D: AudioDriver> View for ComparisonEngine<D> {
    type V = EngineView;

    closed spec fn view(&self) -> EngineView {
        EngineView {
            state: self.state,
            reason: self.unavailable_reason@,
            generation: self.observed_generation,
            epoch: self.callback_epoch,
            active: self.active_token,
            committed: self.committed,
            draft: self.draft,
            frames: seq![self.slot0.frames, self.slot1.frames],
            samples: seq![self.slot0.samples@, self.slot1.samples@],
            cursor: self.playback_cursor,
            last_sequence: self.last_sequence,
            revision: self.revision,
            diagnostics: self.diagnostics,
        }
    }
}

impl<D: AudioDriver> ComparisonEngine<D> {
    /// The driver the engine owns.
    pub closed spec fn driver_state(&self) -> D {
        self.driver
    }

    /// The engine is well formed and its driver holds exactly the stream the
    /// engine believes is open.
    pub open spec fn wf(&self) -> bool {
        self@.valid() && self.driver_state().active_stream() == self@.active
    }

    /// An engine that rejects every action with `reason` until the endpoint
    /// becomes available.
    pub fn new_unavailable(driver: D, reason: &str, generation: u64) -> (r: Self)
        requires
            driver.active_stream() is None,
        ensures
            r.wf(),
            r.driver_state() == driver,
            r@ == (EngineView {
                state: EngineState::Unavailable,
                reason: reason@,
                generation,
                epoch: 0,
                active: None,
                committed: None,
                draft: 0,
                frames: seq![0usize, 0usize],
                samples: seq![zeros(MAX_FRAMES as nat), zeros(MAX_FRAMES as nat)],
                cursor: 0,
                last_sequence: None,
                revision: 0,
                diagnostics: Diagnostics { non_finite_samples: 0, stale_callbacks: 0 },
            }),
    {
        let r = ComparisonEngine {
            driver,
            slot0: Slot::new(),
            slot1: Slot::new(),
            committed: None,
            draft: 0,
            state: EngineState::Unavailable,
            unavailable_reason: String::from_str(reason),
            observed_generation: generation,
            callback_epoch: 0,
            active_token: None,
            playback_cursor: 0,
            last_sequence: None,
            revision: 0,
            diagnostics: Diagnostics::default(),
        };
        assert(r@ =~= (EngineView {
            state: EngineState::Unavailable,
            reason: reason@,
            generation,
            epoch: 0,
            active: None,
            committed: None,
            draft: 0,
            frames: seq![0usize, 0usize],
            samples: seq![zeros(MAX_FRAMES as nat), zeros(MAX_FRAMES as nat)],
            cursor: 0,
            last_sequence: None,
            revision: 0,
            diagnostics: Diagnostics { non_finite_samples: 0, stale_callbacks: 0 },
        }));
        r
    }

    /// An empty engine backed by a simulated endpoint.
    pub fn new_simulated(driver: D, generation: u64) -> (r: Self)
        requires
            driver.active_stream() is None,
        ensures
            r.wf(),
            r.driver_state() == driver,
            r@ == (EngineView {
                state: EngineState::Empty,
                reason: "Simulated comparison"@,
                generation,
                epoch: 0,
                active: None,
                committed: None,
                draft: 0,
                frames: seq![0usize, 0usize],
                samples: seq![zeros(MAX_FRAMES as nat), zeros(MAX_FRAMES as nat)],
                cursor: 0,
                last_sequence: None,
                revision: 0,
                diagnostics: Diagnostics { non_finite_samples: 0, stale_callbacks: 0 },
            }),
    {
        let mut engine = Self::new_unavailable(driver, "Simulated comparison", generation);
        engine.state = EngineState::Empty;
        assert(engine@ =~= (EngineView { state: EngineState::Empty, ..initial_view(
            "Simulated comparison"@,
            generation,
        ) }));
        engine
    }
}

/// The view of a new engine.
pub open spec fn initial_view(reason: Seq<char>, generation: u64) -> EngineView {
    EngineView {
        state: EngineState::Unavailable,
        reason,
        generation,
        epoch: 0,
        active: None,
        committed: None,
        draft: 0,
        frames: seq![0usize, 0usize],
        samples: seq![zeros(MAX_FRAMES as nat), zeros(MAX_FRAMES as nat)],
        cursor: 0,
        last_sequence: None,
        revision: 0,
        diagnostics: Diagnostics { non_finite_samples: 0, stale_callbacks: 0 },
    }
}

impl<D: AudioDriver> ComparisonEngine<D> {
    /// Storage is well formed and the driver agrees with the engine's token.
    spec fn core_ok(&self) -> bool {
        &&& self@.storage_ok()
        &&& self.driver.active_stream() == self.active_token
        &&& self.active_token matches Some(t) ==> t.epoch() == self.callback_epoch
    }

    fn scrub_slot(&mut self, i: usize)
        requires
            i < 2,
            old(self)@.samples.len() == 2,
            old(self)@.samples[i as int].len() == MAX_FRAMES,
        ensures
            final(self)@ == old(self)@.with_slot_scrubbed(i as int),
            final(self).driver == old(self).driver,
    {
        if i == 0 {
            self.slot0.scrub();
        } else {
            self.slot1.scrub();
        }
        assert(self@.frames =~= old(self)@.with_slot_scrubbed(i as int).frames);
        assert(self@.samples =~= old(self)@.with_slot_scrubbed(i as int).samples);
    }

    fn next_callback_epoch(&mut self) -> (r: u64)
        ensures
            final(self)@ == (EngineView { epoch: next_epoch(old(self)@.epoch), ..old(self)@ }),
            final(self).driver == old(self).driver,
            r == final(self)@.epoch,
    {
        self.callback_epoch = self.callback_epoch.saturating_add(1);
        assert(self@ =~= (EngineView { epoch: next_epoch(old(self)@.epoch), ..old(self)@ }));
        self.callback_epoch
    }

    fn emergency_teardown(&mut self)
        requires
            old(self)@.storage_ok(),
        ensures
            final(self)@ == old(self)@.torn_down(),
            final(self).driver.active_stream() is None,
            final(self).driver.history() == old(self).driver.history().push(DriverEvent::DeactivateAll),
    {
        self.driver.deactivate_all();
        self.active_token = None;
        self.next_callback_epoch();
        if self.state == EngineState::Recording || self.state == EngineState::RecordingPaused {
            let d = self.draft;
            self.scrub_slot(d);
        }
        self.playback_cursor = 0;
        assert(self@ =~= old(self)@.torn_down());
    }

    fn fail_closed(&mut self, reason: String)
        requires
            old(self)@.storage_ok(),
        ensures
            final(self)@ == old(self)@.failed_closed(reason@),
            final(self).driver.active_stream() is None,
            final(self).driver.history() == old(self).driver.history().push(DriverEvent::DeactivateAll),
    {
        self.emergency_teardown();
        self.unavailable_reason = reason;
        self.state = EngineState::Unavailable;
        self.revision = if self.revision == u64::MAX {
            0
        } else {
            self.revision + 1
        };
        assert(self@ =~= old(self)@.failed_closed(reason@));
    }
}

/// The error text of a failed result, or nothing.
pub open spec fn err_text(r: Result<(), AudioError>) -> Seq<char> {
    match r {
        Err(e) => e.0@,
        Ok(_) => Seq::empty(),
    }
}

/// A driver failure closed the engine with a reason that starts with `prefix`
/// and was reported as `msg`.
pub open spec fn driver_failed_rel(v: EngineView, w: EngineView, msg: Seq<char>, prefix: Seq<char>) -> bool {
    &&& w == v.failed_closed(w.reason)
    &&& seq_starts_with(w.reason, prefix)
    &&& msg == w.reason
}

/// The driver call `event` failed: the engine tore every stream down
/// (`deactivate_all`, the only further call) and closed with a reason that
/// starts with `prefix`.
pub open spec fn call_failed_rel(
    v: EngineView,
    w: EngineView,
    msg: Seq<char>,
    prefix: Seq<char>,
    event: DriverEvent,
    h0: Seq<DriverEvent>,
    h1: Seq<DriverEvent>,
) -> bool {
    &&& h1 == h0.push(event).push(DriverEvent::DeactivateAll)
    &&& driver_failed_rel(v, w, msg, prefix)
}

/// The stop of the stream open in `v`, as the driver records it.
pub open spec fn stop_event(v: EngineView, ok: bool) -> DriverEvent {
    DriverEvent::StopStream { token: v.active->0, ok }
}

/// The stop of the open stream failed and the engine closed.
pub open spec fn stop_failed_rel(
    v: EngineView,
    w: EngineView,
    msg: Seq<char>,
    h0: Seq<DriverEvent>,
    h1: Seq<DriverEvent>,
) -> bool {
    call_failed_rel(v, w, msg, "stream stop failed: "@, stop_event(v, false), h0, h1)
}

/// The outcome of starting a capture from `v`: the recording slot is
/// scrubbed, the epoch advances, the driver is asked once to begin a capture
/// for the new epoch, and the capture runs exactly when it says yes.
pub open spec fn start_capture_rel(
    v: EngineView,
    w: EngineView,
    ok: bool,
    h0: Seq<DriverEvent>,
    h1: Seq<DriverEvent>,
) -> bool {
    let d = v.recording_slot();
    let s = EngineView { epoch: next_epoch(v.epoch), ..v.with_slot_scrubbed(d as int) };
    &&& h1 == h0.push(DriverEvent::BeginCapture { callback_epoch: s.epoch, ok })
    &&& ok ==> (w.active matches Some(t) && t.epoch() == s.epoch) && w == (EngineView {
        draft: d,
        active: w.active,
        state: EngineState::Recording,
        ..s
    }).bumped()
    &&& !ok ==> w == s
}

/// The outcome of starting playback from `v`.
pub open spec fn start_playback_rel(
    v: EngineView,
    w: EngineView,
    ok: bool,
    h0: Seq<DriverEvent>,
    h1: Seq<DriverEvent>,
) -> bool {
    let s = EngineView { epoch: next_epoch(v.epoch), ..v };
    &&& h1 == h0.push(DriverEvent::BeginPlayback { callback_epoch: s.epoch, ok })
    &&& ok ==> (w.active matches Some(t) && t.epoch() == s.epoch) && w == (EngineView {
        active: w.active,
        cursor: 0,
        state: EngineState::Playing,
        ..s
    }).bumped()
    &&& !ok ==> w == s
}

impl<D: AudioDriver> ComparisonEngine<D> {
    fn bump_revision(&mut self)
        ensures
            final(self)@ == old(self)@.bumped(),
            final(self).driver == old(self).driver,
    {
        self.revision = if self.revision == u64::MAX {
            0
        } else {
            self.revision + 1
        };
        assert(self@ =~= old(self)@.bumped());
    }

    fn stop_active(&mut self) -> (r: Result<(), AudioError>)
        requires
            old(self).core_ok(),
        ensures
            final(self).core_ok(),
            old(self)@.active is None ==> r is Ok && final(self)@ == old(self)@ && final(self).driver
                == old(self).driver,
            old(self)@.active is Some && r is Ok ==> final(self).driver.history() == old(
                self,
            ).driver.history().push(stop_event(old(self)@, true)),
            r is Ok ==> final(self)@ == old(self)@.stopped(),
            r is Err ==> old(self)@.active is Some && stop_failed_rel(
                old(self)@,
                final(self)@,
                err_text(r),
                old(self).driver.history(),
                final(self).driver.history(),
            ),
    {
        if let Some(token) = self.active_token {
            match self.driver.stop_stream(token) {
                Err(error) => {
                    let mut reason = String::from_str("stream stop failed: ");
                    push_str(&mut reason, error.0.as_str());
                    proof {
                        assert(reason@.subrange(0, "stream stop failed: "@.len() as int) =~= "stream stop failed: "@);
                    }
                    let copy = reason.clone();
                    self.fail_closed(reason);
                    return Err(AudioError(copy));
                },
                Ok(()) => {},
            }
            self.active_token = None;
            self.next_callback_epoch();
            assert(self@ =~= old(self)@.stopped());
        }
        Ok(())
    }

    fn commit_draft(&mut self)
        requires
            old(self)@.storage_ok(),
            old(self)@.frames[old(self)@.draft as int] >= MIN_COMMIT_FRAMES,
        ensures
            final(self)@ == old(self)@.committed_draft(),
            final(self)@.storage_ok(),
            final(self).driver == old(self).driver,
    {
        let draft = self.draft;
        match self.committed {
            Some(old_slot) => {
                self.committed = Some(draft);
                self.scrub_slot(old_slot);
                self.draft = old_slot;
            },
            None => {
                self.committed = Some(draft);
                let other: usize = 1 - draft;
                self.scrub_slot(other);
                self.draft = other;
            },
        }
        assert(self@ =~= old(self)@.committed_draft());
    }

    fn start_recording(&mut self) -> (r: Result<(), AudioError>)
        requires
            old(self).core_ok(),
            old(self)@.active is None,
        ensures
            final(self).core_ok(),
            start_capture_rel(
                old(self)@,
                final(self)@,
                r is Ok,
                old(self).driver.history(),
                final(self).driver.history(),
            ),
    {
        let draft: usize = match self.committed {
            Some(slot) => 1 - slot,
            None => 0,
        };
        self.scrub_slot(draft);
        let epoch = self.next_callback_epoch();
        let ghost s = self@;
        match self.driver.begin_capture(epoch) {
            Ok(token) => {
                self.draft = draft;
                self.active_token = Some(token);
                self.state = EngineState::Recording;
                self.bump_revision();
                assert(self@ =~= (EngineView {
                    draft,
                    active: self@.active,
                    state: EngineState::Recording,
                    ..s
                }).bumped());
                Ok(())
            },
            Err(error) => Err(error),
        }
    }

    fn start_playback(&mut self) -> (r: Result<(), AudioError>)
        requires
            old(self).core_ok(),
            old(self)@.active is None,
        ensures
            final(self).core_ok(),
            start_playback_rel(
                old(self)@,
                final(self)@,
                r is Ok,
                old(self).driver.history(),
                final(self).driver.history(),
            ),
    {
        let epoch = self.next_callback_epoch();
        let ghost s = self@;
        match self.driver.begin_playback_loop(epoch) {
            Ok(token) => {
                self.active_token = Some(token);
                self.playback_cursor = 0;
                self.state = EngineState::Playing;
                self.bump_revision();
                assert(self@ =~= (EngineView {
                    active: self@.active,
                    cursor: 0,
                    state: EngineState::Playing,
                    ..s
                }).bumped());
                Ok(())
            },
            Err(error) => Err(error),
        }
    }
}

/// `ToggleRecord` from `v`, before sequence bookkeeping: `ok` is success,
/// `msg` the rejection text otherwise, and `h0`, `h1` the driver's history
/// before and after. Which branch holds is fixed by the results the driver
/// recorded.
pub open spec fn toggle_record_rel(
    v: EngineView,
    w: EngineView,
    ok: bool,
    msg: Seq<char>,
    h0: Seq<DriverEvent>,
    h1: Seq<DriverEvent>,
) -> bool {
    match v.state {
        EngineState::Empty | EngineState::Ready => start_capture_rel(v, w, ok, h0, h1),
        EngineState::Recording => (ok && h1 == h0.push(
            DriverEvent::PauseCapture { token: v.active->0, ok: true },
        ) && w == v.in_state(EngineState::RecordingPaused).bumped()) || (!ok && call_failed_rel(
            v,
            w,
            msg,
            "capture pause failed: "@,
            DriverEvent::PauseCapture { token: v.active->0, ok: false },
            h0,
            h1,
        )),
        EngineState::RecordingPaused => (ok && h1 == h0.push(
            DriverEvent::ResumeCapture { token: v.active->0, ok: true },
        ) && w == v.in_state(EngineState::Recording).bumped()) || (!ok && call_failed_rel(
            v,
            w,
            msg,
            "capture resume failed: "@,
            DriverEvent::ResumeCapture { token: v.active->0, ok: false },
            h0,
            h1,
        )),
        EngineState::Playing => (!ok && stop_failed_rel(v, w, msg, h0, h1)) || start_capture_rel(
            v.stopped().in_state(EngineState::Ready),
            w,
            ok,
            h0.push(stop_event(v, true)),
            h1,
        ),
        _ => !ok && w == v && h1 == h0 && msg == "record is unavailable in the current state"@,
    }
}

/// `TogglePlay` from `v`.
pub open spec fn toggle_play_rel(
    v: EngineView,
    w: EngineView,
    ok: bool,
    msg: Seq<char>,
    h0: Seq<DriverEvent>,
    h1: Seq<DriverEvent>,
) -> bool {
    match v.state {
        EngineState::Empty => !ok && w == v && h1 == h0 && msg
            == "record a comparison before playing"@,
        EngineState::Ready => start_playback_rel(v, w, ok, h0, h1),
        EngineState::Recording | EngineState::RecordingPaused => if v.frames[v.draft as int]
            < MIN_COMMIT_FRAMES {
            !ok && w == v && h1 == h0 && msg == "comparison requires at least 960 frames"@
        } else {
            (!ok && stop_failed_rel(v, w, msg, h0, h1)) || start_playback_rel(
                v.stopped().committed_draft().in_state(EngineState::Ready),
                w,
                ok,
                h0.push(stop_event(v, true)),
                h1,
            )
        },
        EngineState::Playing => (!ok && stop_failed_rel(v, w, msg, h0, h1)) || (ok && h1 == h0.push(
            stop_event(v, true),
        ) && w == (EngineView { cursor: 0, ..v.stopped() }).in_state(EngineState::Ready).bumped()),
        _ => !ok && w == v && h1 == h0 && msg == "play is unavailable in the current state"@,
    }
}

/// `Cancel` (and `WorkspaceExited`) from `v`.
pub open spec fn cancel_rel(
    v: EngineView,
    w: EngineView,
    ok: bool,
    msg: Seq<char>,
    h0: Seq<DriverEvent>,
    h1: Seq<DriverEvent>,
) -> bool {
    match v.state {
        EngineState::Recording | EngineState::RecordingPaused => (!ok && stop_failed_rel(
            v,
            w,
            msg,
            h0,
            h1,
        )) || (ok && h1 == h0.push(stop_event(v, true)) && w == v.stopped().with_slot_scrubbed(
            v.draft as int,
        ).in_state(
            if v.committed is Some {
                EngineState::Ready
            } else {
                EngineState::Empty
            },
        ).bumped()),
        EngineState::Playing => (!ok && stop_failed_rel(v, w, msg, h0, h1)) || (ok && h1 == h0.push(
            stop_event(v, true),
        ) && w == (EngineView { cursor: 0, ..v.stopped() }).in_state(EngineState::Ready).bumped()),
        EngineState::Empty | EngineState::Ready => ok && w == v.bumped() && h1 == h0,
        _ => !ok && w == v && h1 == h0 && msg == "cancel is unavailable in the current state"@,
    }
}

/// One user action from `v`.
pub open spec fn action_rel(
    v: EngineView,
    w: EngineView,
    action: Action,
    ok: bool,
    msg: Seq<char>,
    h0: Seq<DriverEvent>,
    h1: Seq<DriverEvent>,
) -> bool {
    match action {
        Action::ToggleRecord => toggle_record_rel(v, w, ok, msg, h0, h1),
        Action::TogglePlay => toggle_play_rel(v, w, ok, msg, h0, h1),
        Action::Cancel | Action::WorkspaceExited => cancel_rel(v, w, ok, msg, h0, h1),
    }
}

proof fn lemma_prefix(prefix: Seq<char>, rest: Seq<char>)
    ensures
        seq_starts_with(prefix + rest, prefix),
{
    assert((prefix + rest).subrange(0, prefix.len() as int) =~= prefix);
}

impl<D: AudioDriver> ComparisonEngine<D> {
    fn toggle_record(&mut self) -> (r: Result<(), AudioError>)
        requires
            old(self).wf(),
        ensures
            final(self).core_ok(),
            toggle_record_rel(
                old(self)@,
                final(self)@,
                r is Ok,
                err_text(r),
                old(self).driver.history(),
                final(self).driver.history(),
            ),
    {
        match self.state {
            EngineState::Empty | EngineState::Ready => self.start_recording(),
            EngineState::Recording => {
                let token = self.active_token.unwrap();
                match self.driver.pause_capture(token) {
                    Err(error) => {
                        let mut reason = String::from_str("capture pause failed: ");
                        push_str(&mut reason, error.0.as_str());
                        proof {
                            lemma_prefix("capture pause failed: "@, error.0@);
                        }
                        let copy = reason.clone();
                        self.fail_closed(reason);
                        Err(AudioError(copy))
                    },
                    Ok(()) => {
                        self.state = EngineState::RecordingPaused;
                        self.bump_revision();
                        assert(self@ =~= old(self)@.in_state(EngineState::RecordingPaused).bumped());
                        Ok(())
                    },
                }
            },
            EngineState::RecordingPaused => {
                let token = self.active_token.unwrap();
                match self.driver.resume_capture(token) {
                    Err(error) => {
                        let mut reason = String::from_str("capture resume failed: ");
                        push_str(&mut reason, error.0.as_str());
                        proof {
                            lemma_prefix("capture resume failed: "@, error.0@);
                        }
                        let copy = reason.clone();
                        self.fail_closed(reason);
                        Err(AudioError(copy))
                    },
                    Ok(()) => {
                        self.state = EngineState::Recording;
                        self.bump_revision();
                        assert(self@ =~= old(self)@.in_state(EngineState::Recording).bumped());
                        Ok(())
                    },
                }
            },
            EngineState::Playing => {
                self.stop_active()?;
                self.state = EngineState::Ready;
                assert(self@ =~= old(self)@.stopped().in_state(EngineState::Ready));
                self.start_recording()
            },
            _ => Err(AudioError(String::from_str("record is unavailable in the current state"))),
        }
    }

    fn toggle_play(&mut self) -> (r: Result<(), AudioError>)
        requires
            old(self).wf(),
        ensures
            final(self).core_ok(),
            toggle_play_rel(
                old(self)@,
                final(self)@,
                r is Ok,
                err_text(r),
                old(self).driver.history(),
                final(self).driver.history(),
            ),
    {
        match self.state {
            EngineState::Empty => Err(
                AudioError(String::from_str("record a comparison before playing")),
            ),
            EngineState::Ready => self.start_playback(),
            EngineState::Recording | EngineState::RecordingPaused => {
                let frames = if self.draft == 0 {
                    self.slot0.frames
                } else {
                    self.slot1.frames
                };
                if frames < MIN_COMMIT_FRAMES {
                    return Err(
                        AudioError(String::from_str("comparison requires at least 960 frames")),
                    );
                }
                self.stop_active()?;
                self.commit_draft();
                self.state = EngineState::Ready;
                assert(self@ =~= old(self)@.stopped().committed_draft().in_state(
                    EngineState::Ready,
                ));
                self.start_playback()
            },
            EngineState::Playing => {
                self.stop_active()?;
                self.playback_cursor = 0;
                self.state = EngineState::Ready;
                self.bump_revision();
                assert(self@ =~= (EngineView { cursor: 0, ..old(self)@.stopped() }).in_state(
                    EngineState::Ready,
                ).bumped());
                Ok(())
            },
            _ => Err(AudioError(String::from_str("play is unavailable in the current state"))),
        }
    }

    fn cancel(&mut self) -> (r: Result<(), AudioError>)
        requires
            old(self).wf(),
        ensures
            final(self).core_ok(),
            cancel_rel(
                old(self)@,
                final(self)@,
                r is Ok,
                err_text(r),
                old(self).driver.history(),
                final(self).driver.history(),
            ),
    {
        match self.state {
            EngineState::Recording | EngineState::RecordingPaused => {
                self.stop_active()?;
                let d = self.draft;
                self.scrub_slot(d);
                self.state = if self.committed.is_some() {
                    EngineState::Ready
                } else {
                    EngineState::Empty
                };
                self.bump_revision();
                assert(self@ =~= old(self)@.stopped().with_slot_scrubbed(old(self)@.draft as int).in_state(
                    if old(self)@.committed is Some {
                        EngineState::Ready
                    } else {
                        EngineState::Empty
                    },
                ).bumped());
                Ok(())
            },
            EngineState::Playing => {
                self.stop_active()?;
                self.playback_cursor = 0;
                self.state = EngineState::Ready;
                self.bump_revision();
                assert(self@ =~= (EngineView { cursor: 0, ..old(self)@.stopped() }).in_state(
                    EngineState::Ready,
                ).bumped());
                Ok(())
            },
            EngineState::Empty | EngineState::Ready => {
                self.bump_revision();
                Ok(())
            },
            _ => Err(AudioError(String::from_str("cancel is unavailable in the current state"))),
        }
    }
}

/// The rejection text of an action result, or nothing.
pub open spec fn rejection_text(r: ActionResult) -> Seq<char> {
    match r {
        ActionResult::Rejected(m) => m@,
        _ => Seq::empty(),
    }
}

/// `handle(sequence, action)` from `v`: stale and duplicate sequences are
/// ignored; otherwise the sequence is recorded and a shut-down or
/// unavailable engine rejects the action, or the action runs.
pub open spec fn handle_rel(
    v: EngineView,
    w: EngineView,
    sequence: u64,
    action: Action,
    r: ActionResult,
    h0: Seq<DriverEvent>,
    h1: Seq<DriverEvent>,
) -> bool {
    if v.last_sequence matches Some(last) && sequence <= last {
        r is IgnoredDuplicate && w == v && h1 == h0
    } else {
        let v1 = EngineView { last_sequence: Some(sequence), ..v };
        if v.state == EngineState::Shutdown {
            r is Rejected && rejection_text(r) == "comparison worker has shut down"@ && w == v1 && h1
                == h0
        } else if v.state == EngineState::Unavailable {
            r is Rejected && rejection_text(r) == v.reason && w == v1 && h1 == h0
        } else {
            !(r is IgnoredDuplicate) && action_rel(
                v1,
                w,
                action,
                r is Transitioned,
                rejection_text(r),
                h0,
                h1,
            )
        }
    }
}

/// Each accepted transition advances the revision by exactly one; a
/// duplicate sequence changes nothing; an action refused while the engine is
/// shut down or unavailable only records its sequence.
pub proof fn lemma_handle_revision(
    v: EngineView,
    w: EngineView,
    sequence: u64,
    action: Action,
    r: ActionResult,
    h0: Seq<DriverEvent>,
    h1: Seq<DriverEvent>,
)
    requires
        handle_rel(v, w, sequence, action, r, h0, h1),
    ensures
        r is Transitioned ==> w.revision == wrap_add(v.revision, 1),
        r is IgnoredDuplicate ==> w == v && h1 == h0,
        (!(r is IgnoredDuplicate) && (v.state == EngineState::Shutdown || v.state == EngineState::Unavailable))
            ==> r is Rejected && w == (EngineView { last_sequence: Some(sequence), ..v }) && h1 == h0,
{
}

impl<D: AudioDriver> ComparisonEngine<D> {
    /// Handles one user action under a monotonically increasing sequence.
    pub fn handle(&mut self, sequence: u64, action: Action) -> (r: ActionResult)
        requires
            old(self).wf(),
        ensures
            final(self).wf(),
            handle_rel(
                old(self)@,
                final(self)@,
                sequence,
                action,
                r,
                old(self).driver_state().history(),
                final(self).driver_state().history(),
            ),
            (r is IgnoredDuplicate || old(self)@.state == EngineState::Shutdown || old(self)@.state
                == EngineState::Unavailable) ==> final(self).driver_state() == old(
                self,
            ).driver_state(),
    {
        let duplicate = match self.last_sequence {
            Some(last) => sequence <= last,
            None => false,
        };
        if duplicate {
            return ActionResult::IgnoredDuplicate;
        }
        self.last_sequence = Some(sequence);
        if self.state == EngineState::Shutdown {
            return ActionResult::Rejected(String::from_str("comparison worker has shut down"));
        }
        if self.state == EngineState::Unavailable {
            return ActionResult::Rejected(self.unavailable_reason.clone());
        }
        let result = match action {
            Action::ToggleRecord => self.toggle_record(),
            Action::TogglePlay => self.toggle_play(),
            Action::Cancel => self.cancel(),
            Action::WorkspaceExited => self.cancel(),
        };
        match result {
            Ok(()) => ActionResult::Transitioned,
            Err(error) => ActionResult::Rejected(error.0),
        }
    }
}

/// `s` with `vals`, sanitised, written from position `start` on.
pub open spec fn written(s: Seq<u32>, start: int, vals: Seq<u32>) -> Seq<u32> {
    Seq::new(
        s.len(),
        |i: int|
            if start <= i < start + vals.len() {
                sanitize_sample(vals[i - start])
            } else {
                s[i]
            },
    )
}

/// How many input samples a capture callback can store.
pub open spec fn accepted_count(v: EngineView, input_len: nat) -> nat {
    let room = (MAX_FRAMES - v.frames[v.draft as int]) as nat;
    if input_len < room {
        input_len
    } else {
        room
    }
}

/// The view after storing the accepted part of `input` in the draft.
pub open spec fn captured(v: EngineView, input: Seq<u32>) -> EngineView {
    let d = v.draft as int;
    let f = v.frames[d];
    let kept = input.take(accepted_count(v, input.len()) as int);
    EngineView {
        frames: v.frames.update(d, (f + kept.len()) as usize),
        samples: v.samples.update(d, written(v.samples[d], f as int, kept)),
        diagnostics: Diagnostics {
            non_finite_samples: wrap_add(
                v.diagnostics.non_finite_samples,
                count_non_finite(kept) as u64,
            ),
            ..v.diagnostics
        },
        ..v
    }
}

/// A callback carries the token of the open stream and the current epoch.
pub open spec fn callback_current(v: EngineView, token: StreamToken) -> bool {
    v.active == Some(token) && token.epoch() == v.epoch
}

/// `accept_capture(token, input)` from `v`: a stale callback is only
/// counted; otherwise the accepted samples are stored, and a full draft is
/// committed once its stream stops.
pub open spec fn capture_rel(
    v: EngineView,
    w: EngineView,
    token: StreamToken,
    input: Seq<u32>,
    h0: Seq<DriverEvent>,
    h1: Seq<DriverEvent>,
) -> bool {
    if v.state != EngineState::Recording || !callback_current(v, token) {
        w == v.stale_counted() && h1 == h0
    } else {
        let c = captured(v, input);
        if c.frames[v.draft as int] == MAX_FRAMES {
            stop_failed_rel(c, w, w.reason, h0, h1) || (h1 == h0.push(stop_event(c, true)) && w
                == c.stopped().committed_draft().in_state(EngineState::Ready).bumped())
        } else {
            w == c && h1 == h0
        }
    }
}

fn sanitize(b: u32) -> (r: u32)
    ensures
        r == sanitize_sample(b),
{
    if b & 0x7f80_0000u32 == 0x7f80_0000u32 {
        0
    } else if b & 0x7fff_ffffu32 > 0x3f80_0000u32 {
        (b & 0x8000_0000u32) | 0x3f80_0000u32
    } else {
        b
    }
}

impl Slot {
    /// Stores the first `count` input samples after the recorded frames and
    /// returns how many of them were not finite.
    fn record(&mut self, input: &[u32], count: usize) -> (nf: u64)
        requires
            count <= input@.len(),
            old(self).frames + count <= old(self).samples@.len(),
        ensures
            final(self).samples@ == written(old(self).samples@, old(self).frames as int, input@.take(count as int)),
            final(self).frames == old(self).frames + count,
            nf == count_non_finite(input@.take(count as int)),
    {
        let start = self.frames;
        let ghost s0 = self.samples@;
        let capacity = self.samples.len();
        assert(start + count <= capacity);
        let mut k: usize = 0;
        let mut nf: u64 = 0;
        while k < count
            invariant
                k <= count,
                count <= input@.len(),
                start + count <= s0.len(),
                s0.len() == capacity,
                self.frames == start + k,
                self.samples@ == written(s0, start as int, input@.take(k as int)),
                nf == count_non_finite(input@.take(k as int)),
                nf <= k,
            decreases count - k,
        {
            let b = input[k];
            let clean = sanitize(b);
            let idx = self.frames;
            self.samples.set(idx, clean);
            assert(input@.take(k + 1).drop_last() =~= input@.take(k as int));
            if b & 0x7f80_0000u32 == 0x7f80_0000u32 {
                nf = nf + 1;
            }
            self.frames = self.frames + 1;
            k = k + 1;
            assert(self.samples@ =~= written(s0, start as int, input@.take(k as int)));
        }
        nf
    }
}

impl<D: AudioDriver> ComparisonEngine<D> {
    fn count_stale(&mut self)
        ensures
            final(self)@ == old(self)@.stale_counted(),
            final(self).driver == old(self).driver,
    {
        let n = self.diagnostics.stale_callbacks;
        self.diagnostics.stale_callbacks = if n == u64::MAX {
            0
        } else {
            n + 1
        };
        assert(self@ =~= old(self)@.stale_counted());
    }

    fn token_is_current(&self, token: StreamToken) -> (r: bool)
        ensures
            r == callback_current(self@, token),
    {
        let same = match self.active_token {
            Some(t) => t == token,
            None => false,
        };
        same && token.callback_epoch == self.callback_epoch
    }

    /// Accepts canonical mono 48 kHz samples from the current capture callback.
    pub fn accept_capture(&mut self, token: StreamToken, input: &[u32])
        requires
            old(self).wf(),
        ensures
            final(self).wf(),
            capture_rel(
                old(self)@,
                final(self)@,
                token,
                input@,
                old(self).driver_state().history(),
                final(self).driver_state().history(),
            ),
            !(old(self)@.state == EngineState::Recording && callback_current(old(self)@, token))
                ==> final(self).driver_state() == old(self).driver_state(),
    {
        if self.state != EngineState::Recording || !self.token_is_current(token) {
            self.count_stale();
            return;
        }
        let d = self.draft;
        let len = input.len();
        let nf = if d == 0 {
            let room = MAX_FRAMES - self.slot0.frames;
            let n = if len < room {
                len
            } else {
                room
            };
            self.slot0.record(input, n)
        } else {
            let room = MAX_FRAMES - self.slot1.frames;
            let n = if len < room {
                len
            } else {
                room
            };
            self.slot1.record(input, n)
        };
        let total = self.diagnostics.non_finite_samples;
        self.diagnostics.non_finite_samples = if nf > u64::MAX - total {
            nf - (u64::MAX - total) - 1
        } else {
            total + nf
        };
        let ghost c = captured(old(self)@, input@);
        assert(self@.frames =~= c.frames);
        assert(self@.samples =~= c.samples);
        assert(self@ =~= c);
        let full = if d == 0 {
            self.slot0.frames == MAX_FRAMES
        } else {
            self.slot1.frames == MAX_FRAMES
        };
        if full {
            if self.stop_active().is_err() {
                return;
            }
            self.commit_draft();
            self.state = EngineState::Ready;
            self.bump_revision();
            assert(self@ =~= c.stopped().committed_draft().in_state(EngineState::Ready).bumped());
        }
    }
}

/// The loop of the committed clip from `cursor`, `n` samples long.
pub open spec fn loop_samples(clip: Seq<u32>, frames: nat, cursor: nat, n: nat) -> Seq<u32> {
    Seq::new(n, |i: int| clip[((cursor + i) % (frames as int))])
}

/// `render_playback(token, output)` from `v`: a stale callback is counted
/// and answered with silence; otherwise the committed clip loops into the
/// output from the cursor, which wraps at the clip's length.
pub open spec fn playback_rel(v: EngineView, w: EngineView, token: StreamToken, out_before: Seq<u32>, out_after: Seq<u32>, ok: bool) -> bool {
    if v.state != EngineState::Playing || !callback_current(v, token) {
        !ok && w == v.stale_counted() && out_after == zeros(out_before.len())
    } else {
        let c = v.committed->0;
        let f = v.frames[c as int];
        ok && out_after == loop_samples(v.samples[c as int], f as nat, v.cursor as nat, out_before.len())
            && w == (EngineView { cursor: ((v.cursor + out_before.len()) % (f as int)) as usize, ..v })
    }
}

/// `set_unavailable(generation, reason)` from `v`.
pub open spec fn unavailable_rel(
    v: EngineView,
    w: EngineView,
    generation: u64,
    reason: Seq<char>,
    h0: Seq<DriverEvent>,
    h1: Seq<DriverEvent>,
) -> bool {
    if v.state == EngineState::Shutdown || generation <= v.generation {
        w == v && h1 == h0
    } else {
        w == (EngineView { generation, ..v }).failed_closed(reason) && h1 == h0.push(
            DriverEvent::DeactivateAll,
        )
    }
}

/// `set_available(generation)` from `v`: a fresh endpoint generation tears
/// down any stream and returns to `Ready` or `Empty`.
pub open spec fn available_rel(
    v: EngineView,
    w: EngineView,
    generation: u64,
    h0: Seq<DriverEvent>,
    h1: Seq<DriverEvent>,
) -> bool {
    if v.state == EngineState::Shutdown || generation <= v.generation {
        w == v && h1 == h0
    } else {
        let v1 = EngineView { generation, ..v };
        let live = v1.active is Some || v1.state == EngineState::Recording || v1.state
            == EngineState::RecordingPaused || v1.state == EngineState::Playing;
        let v2 = if live {
            v1.torn_down()
        } else {
            v1
        };
        &&& h1 == (if live {
            h0.push(DriverEvent::DeactivateAll)
        } else {
            h0
        })
        &&& w == v2.in_state(
            if v.committed is Some {
                EngineState::Ready
            } else {
                EngineState::Empty
            },
        ).bumped()
    }
}

/// `stream_error(token, reason)` from `v`.
pub open spec fn stream_error_rel(
    v: EngineView,
    w: EngineView,
    token: StreamToken,
    reason: Seq<char>,
    h0: Seq<DriverEvent>,
    h1: Seq<DriverEvent>,
) -> bool {
    if !callback_current(v, token) {
        w == v.stale_counted() && h1 == h0
    } else {
        w == v.failed_closed(reason) && h1 == h0.push(DriverEvent::DeactivateAll)
    }
}

/// `shutdown()` from `v`: idempotent; tears every stream down, shuts the
/// driver down (those two calls only), scrubs both slots and forgets the
/// committed clip.
pub open spec fn shutdown_rel(v: EngineView, w: EngineView, h0: Seq<DriverEvent>, h1: Seq<DriverEvent>) -> bool {
    if v.state == EngineState::Shutdown {
        w == v && h1 == h0
    } else {
        h1 == h0.push(DriverEvent::DeactivateAll).push(DriverEvent::Shutdown) && w == (EngineView {
            committed: None,
            state: EngineState::Shutdown,
            ..v.torn_down().with_slot_scrubbed(0).with_slot_scrubbed(1)
        }).bumped()
    }
}

proof fn lemma_mod_step(a: int, m: int)
    requires
        0 <= a,
        1 < m,
    ensures
        ((a % m) + 1) % m == (a + 1) % m,
{
    vstd::arithmetic::div_mod::lemma_add_mod_noop(a, 1, m);
    vstd::arithmetic::div_mod::lemma_small_mod(1, m as nat);
    vstd::arithmetic::div_mod::lemma_mod_twice(a, m);
}

impl<D: AudioDriver> ComparisonEngine<D> {
    /// Renders the committed clip into `output`, wrapping exactly at its end.
    pub fn render_playback(&mut self, token: StreamToken, output: &mut [u32]) -> (r: Result<(), AudioError>)
        requires
            old(self).wf(),
        ensures
            final(self).wf(),
            playback_rel(old(self)@, final(self)@, token, old(output)@, final(output)@, r is Ok),
            final(self).driver_state() == old(self).driver_state(),
            r is Err ==> err_text(r) == "stale playback callback"@,
    {
        let n = output.len();
        if self.state != EngineState::Playing || !self.token_is_current(token) {
            self.count_stale();
            let mut i: usize = 0;
            while i < n
                invariant
                    i <= n,
                    n == old(output)@.len(),
                    output@.len() == n,
                    forall|j: int| 0 <= j < i ==> output@[j] == 0u32,
                decreases n - i,
            {
                output[i] = 0u32;
                i = i + 1;
            }
            assert(output@ =~= zeros(n as nat));
            return Err(AudioError(String::from_str("stale playback callback")));
        }
        let c = self.committed.unwrap();
        let frames = if c == 0 {
            self.slot0.frames
        } else {
            self.slot1.frames
        };
        let ghost clip = self@.samples[c as int];
        let ghost cursor0 = self.playback_cursor as int;
        let mut cur = self.playback_cursor;
        proof {
            vstd::arithmetic::div_mod::lemma_small_mod(cursor0 as nat, frames as nat);
        }
        let mut i: usize = 0;
        while i < n
            invariant
                i <= n,
                n == old(output)@.len(),
                output@.len() == n,
                c < 2,
                frames >= MIN_COMMIT_FRAMES,
                frames <= MAX_FRAMES,
                clip == (if c == 0 { self.slot0.samples@ } else { self.slot1.samples@ }),
                clip.len() == MAX_FRAMES,
                cur == (cursor0 + i) % (frames as int),
                0 <= cursor0,
                forall|j: int| 0 <= j < i ==> output@[j] == clip[((cursor0 + j) % (frames as int))],
            decreases n - i,
        {
            let sample = if c == 0 {
                self.slot0.samples[cur]
            } else {
                self.slot1.samples[cur]
            };
            output[i] = sample;
            proof {
                lemma_mod_step(cursor0 + i, frames as int);
            }
            cur = (cur + 1) % frames;
            i = i + 1;
        }
        self.playback_cursor = cur;
        assert(output@ =~= loop_samples(clip, frames as nat, cursor0 as nat, n as nat));
        assert(self@ =~= (EngineView {
            cursor: ((old(self)@.cursor + n) % (frames as int)) as usize,
            ..old(self)@
        }));
        Ok(())
    }

    /// Marks the endpoint lost under a newer generation; fails closed.
    pub fn set_unavailable(&mut self, generation: u64, reason: &str)
        requires
            old(self).wf(),
        ensures
            final(self).wf(),
            unavailable_rel(
                old(self)@,
                final(self)@,
                generation,
                reason@,
                old(self).driver_state().history(),
                final(self).driver_state().history(),
            ),
            (old(self)@.state == EngineState::Shutdown || generation <= old(self)@.generation)
                ==> final(self).driver_state() == old(self).driver_state(),
    {
        if self.state == EngineState::Shutdown || generation <= self.observed_generation {
            return;
        }
        self.observed_generation = generation;
        let ghost v1 = self@;
        assert(v1 =~= (EngineView { generation, ..old(self)@ }));
        self.fail_closed(String::from_str(reason));
    }

    /// Marks the endpoint available under a newer generation.
    pub fn set_available(&mut self, generation: u64)
        requires
            old(self).wf(),
        ensures
            final(self).wf(),
            available_rel(
                old(self)@,
                final(self)@,
                generation,
                old(self).driver_state().history(),
                final(self).driver_state().history(),
            ),
            (old(self)@.state == EngineState::Shutdown || generation <= old(self)@.generation)
                ==> final(self).driver_state() == old(self).driver_state(),
    {
        if self.state == EngineState::Shutdown || generation <= self.observed_generation {
            return;
        }
        self.observed_generation = generation;
        let ghost v1 = self@;
        assert(v1 =~= (EngineView { generation, ..old(self)@ }));
        if self.active_token.is_some() || self.state == EngineState::Recording || self.state
            == EngineState::RecordingPaused || self.state == EngineState::Playing {
            self.emergency_teardown();
        }
        let ghost v2 = self@;
        self.state = if self.committed.is_some() {
            EngineState::Ready
        } else {
            EngineState::Empty
        };
        self.bump_revision();
        assert(self@ =~= v2.in_state(
            if old(self)@.committed is Some {
                EngineState::Ready
            } else {
                EngineState::Empty
            },
        ).bumped());
    }

    /// Reports a failure of the current stream; a stale report is counted.
    pub fn stream_error(&mut self, token: StreamToken, reason: &str)
        requires
            old(self).wf(),
        ensures
            final(self).wf(),
            stream_error_rel(
                old(self)@,
                final(self)@,
                token,
                reason@,
                old(self).driver_state().history(),
                final(self).driver_state().history(),
            ),
            !callback_current(old(self)@, token) ==> final(self).driver_state() == old(
                self,
            ).driver_state(),
    {
        if !self.token_is_current(token) {
            self.count_stale();
            return;
        }
        self.fail_closed(String::from_str(reason));
    }

    /// Stops every stream, shuts the driver down and scrubs both slots.
    pub fn shutdown(&mut self)
        requires
            old(self).wf(),
        ensures
            final(self).wf(),
            shutdown_rel(
                old(self)@,
                final(self)@,
                old(self).driver_state().history(),
                final(self).driver_state().history(),
            ),
            old(self)@.state == EngineState::Shutdown ==> final(self).driver_state() == old(
                self,
            ).driver_state(),
    {
        if self.state == EngineState::Shutdown {
            return;
        }
        self.emergency_teardown();
        self.driver.shutdown();
        self.scrub_slot(0);
        self.scrub_slot(1);
        self.committed = None;
        self.state = EngineState::Shutdown;
        self.bump_revision();
        assert(self@ =~= (EngineView {
            committed: None,
            state: EngineState::Shutdown,
            ..old(self)@.torn_down().with_slot_scrubbed(0).with_slot_scrubbed(1)
        }).bumped());
    }
}

impl<D: AudioDriver> ComparisonEngine<D> {
    /// The state presented to the user interface.
    pub fn state(&self) -> (r: PublicState)
        requires
            self.wf(),
        ensures
            public_state_of(self@, r),
    {
        let frames = match self.committed {
            Some(c) => if c == 0 {
                self.slot0.frames
            } else {
                self.slot1.frames
            },
            None => 0,
        };
        let draft_frames = if self.draft == 0 {
            self.slot0.frames
        } else {
            self.slot1.frames
        };
        match self.state {
            EngineState::Unavailable => PublicState::Unavailable {
                reason: self.unavailable_reason.clone(),
            },
            EngineState::Empty => PublicState::Empty,
            EngineState::Ready => PublicState::Ready { frames },
            EngineState::Recording => PublicState::Recording { draft_frames },
            EngineState::RecordingPaused => PublicState::RecordingPaused { draft_frames },
            EngineState::Playing => PublicState::Playing {
                frames,
                elapsed_frames: self.playback_cursor,
            },
            EngineState::Shutdown => PublicState::Shutdown,
        }
    }

    /// The lifecycle phase.
    pub fn phase(&self) -> (r: EngineState)
        ensures
            r == self@.state,
    {
        self.state
    }

    pub fn revision(&self) -> (r: u64)
        ensures
            r == self@.revision,
    {
        self.revision
    }

    pub fn diagnostics(&self) -> (r: Diagnostics)
        ensures
            r == self@.diagnostics,
    {
        self.diagnostics
    }

    pub fn driver(&self) -> (r: &D)
        ensures
            *r == self.driver_state(),
    {
        &self.driver
    }

    /// The bytes of sample storage: always two full slots.
    pub fn storage_bytes(&self) -> (r: usize)
        requires
            self.wf(),
        ensures
            r == TOTAL_SAMPLE_BYTES,
            r == (self@.samples[0].len() + self@.samples[1].len()) * SAMPLE_BYTES,
    {
        self.slot0.samples.len() * SAMPLE_BYTES + self.slot1.samples.len() * SAMPLE_BYTES
    }

    /// The token of the open stream, if any.
    pub fn active_token(&self) -> (r: Option<StreamToken>)
        ensures
            r == self@.active,
    {
        self.active_token
    }

    /// The slot holding the committed clip, if any.
    pub fn committed_slot(&self) -> (r: Option<usize>)
        ensures
            r == self@.committed,
    {
        self.committed
    }

    /// The slot that the next or current recording uses.
    pub fn draft_slot(&self) -> (r: usize)
        ensures
            r == self@.draft,
    {
        self.draft
    }

    /// The playback position within the committed clip.
    pub fn playback_cursor(&self) -> (r: usize)
        ensures
            r == self@.cursor,
    {
        self.playback_cursor
    }

    /// The frames recorded in a slot.
    pub fn slot_frames(&self, slot: usize) -> (r: usize)
        requires
            slot < 2,
        ensures
            r == self@.frames[slot as int],
    {
        if slot == 0 {
            self.slot0.frames
        } else {
            self.slot1.frames
        }
    }

    /// The stored samples of a slot.
    pub fn slot_samples(&self, slot: usize) -> (r: &[u32])
        requires
            slot < 2,
        ensures
            r@ == self@.samples[slot as int],
    {
        if slot == 0 {
            self.slot0.samples.as_slice()
        } else {
            self.slot1.samples.as_slice()
        }
    }

    /// Both slots are empty and hold only zeros.
    pub fn buffers_are_scrubbed(&self) -> (r: bool)
        requires
            self.wf(),
        ensures
            r == (self@.frames[0] == 0 && self@.frames[1] == 0 && self@.samples[0] == zeros(
                MAX_FRAMES as nat,
            ) && self@.samples[1] == zeros(MAX_FRAMES as nat)),
    {
        let a = slot_is_silent(&self.slot0.samples);
        let b = slot_is_silent(&self.slot1.samples);
        self.slot0.frames == 0 && self.slot1.frames == 0 && a && b
    }
}

fn slot_is_silent(samples: &Vec<u32>) -> (r: bool)
    ensures
        r == (samples@ == zeros(samples@.len())),
{
    let mut i: usize = 0;
    while i < samples.len()
        invariant
            i <= samples@.len(),
            forall|j: int| 0 <= j < i ==> samples@[j] == 0u32,
        decreases samples@.len() - i,
    {
        if samples[i] != 0 {
            assert(samples@[i as int] != zeros(samples@.len())[i as int]);
            return false;
        }
        i = i + 1;
    }
    assert(samples@ =~= zeros(samples@.len()));
    true
}

impl ComparisonEngine<FakeAudioDriver> {
    /// Arms a failure of the fake driver's next call of the given kind.
    pub fn arm_driver_failure(&mut self, call: DriverCall)
        requires
            old(self).wf(),
        ensures
            final(self).wf(),
            final(self)@ == old(self)@,
            final(self).driver_state().armed_failure() == Some(call),
            final(self).driver_state().call_log() == old(self).driver_state().call_log(),
    {
        self.driver.fail_next(call);
    }
}

/// A stream is open exactly while the engine records, is paused or plays, so
/// no sequence of operations can leave two streams or an orphaned one.
pub proof fn lemma_stream_open_iff_active_phase<D: AudioDriver>(e: &ComparisonEngine<D>)
    requires
        e.wf(),
    ensures
        e.driver_state().active_stream() is Some <==> (e@.state == EngineState::Recording
            || e@.state == EngineState::RecordingPaused || e@.state == EngineState::Playing),
        e@.samples[0].len() == MAX_FRAMES && e@.samples[1].len() == MAX_FRAMES,
{
}

/// Committing a draft makes it the committed clip and leaves the displaced
/// slot empty and zeroed as the next draft.
pub proof fn lemma_commit_scrubs_displaced(v: EngineView)
    requires
        v.storage_ok(),
        v.frames[v.draft as int] >= MIN_COMMIT_FRAMES,
    ensures
        v.committed_draft().committed == Some(v.draft),
        v.committed_draft().frames[v.draft as int] == v.frames[v.draft as int],
        v.committed_draft().samples[v.draft as int] == v.samples[v.draft as int],
        v.committed_draft().draft != v.draft,
        v.committed_draft().frames[v.committed_draft().draft as int] == 0,
        v.committed_draft().samples[v.committed_draft().draft as int] == zeros(MAX_FRAMES as nat),
        v.committed_draft().storage_ok(),
{
}

/// Losing the endpoint while recording scrubs the draft, keeps the committed
/// clip and invalidates the capture stream.
pub proof fn lemma_endpoint_loss_keeps_clip(
    v: EngineView,
    w: EngineView,
    generation: u64,
    reason: Seq<char>,
    h0: Seq<DriverEvent>,
    h1: Seq<DriverEvent>,
)
    requires
        v.valid(),
        v.state == EngineState::Recording || v.state == EngineState::RecordingPaused,
        generation > v.generation,
        unavailable_rel(v, w, generation, reason, h0, h1),
    ensures
        w.state == EngineState::Unavailable,
        w.reason == reason,
        w.active is None,
        w.frames[v.draft as int] == 0,
        w.samples[v.draft as int] == zeros(MAX_FRAMES as nat),
        w.committed == v.committed,
        v.committed matches Some(c) ==> w.frames[c as int] == v.frames[c as int] && w.samples[c as int]
            == v.samples[c as int],
        w.epoch != v.epoch || v.epoch == u64::MAX,
        h1 == h0.push(DriverEvent::DeactivateAll),
{
}

/// A callback with a stale token changes nothing but the stale counter.
pub proof fn lemma_stale_capture_is_inert(
    v: EngineView,
    w: EngineView,
    token: StreamToken,
    input: Seq<u32>,
    h0: Seq<DriverEvent>,
    h1: Seq<DriverEvent>,
)
    requires
        capture_rel(v, w, token, input, h0, h1),
        !callback_current(v, token),
    ensures
        w == v.stale_counted(),
        h1 == h0,
        w.frames == v.frames && w.samples == v.samples && w.state == v.state && w.revision == v.revision,
{
}

/// How many times a driver history shuts the driver down.
pub open spec fn shutdown_count(h: Seq<DriverEvent>) -> nat
    decreases h.len(),
{
    if h.len() == 0 {
        0
    } else {
        shutdown_count(h.drop_last()) + if h.last() is Shutdown {
            1nat
        } else {
            0nat
        }
    }
}

/// Shutting an engine down twice shuts its driver down once: the second
/// shutdown changes nothing and calls nothing, and the first adds exactly
/// one driver shutdown (none when the engine was shut down already).
pub proof fn lemma_shutdown_calls_driver_once(
    v: EngineView,
    w: EngineView,
    x: EngineView,
    h0: Seq<DriverEvent>,
    h1: Seq<DriverEvent>,
    h2: Seq<DriverEvent>,
)
    requires
        shutdown_rel(v, w, h0, h1),
        shutdown_rel(w, x, h1, h2),
    ensures
        w.state == EngineState::Shutdown,
        x == w,
        h2 == h1,
        shutdown_count(h2) == shutdown_count(h0) + if v.state == EngineState::Shutdown {
            0nat
        } else {
            1nat
        },
{
    if v.state != EngineState::Shutdown {
        let mid = h0.push(DriverEvent::DeactivateAll);
        assert(h1.drop_last() =~= mid);
        assert(mid.drop_last() =~= h0);
        assert(shutdown_count(mid) == shutdown_count(h0));
        assert(shutdown_count(h1) == shutdown_count(mid) + 1);
    }
}

/// One public operation of the engine took it from `v` with driver history
/// `h0` to `w` with history `h1`: an action, a capture or playback callback,
/// an endpoint change, a stream error, or a shutdown, with any arguments and
/// any driver outcome.
#[verifier::opaque]
pub open spec fn engine_step(v: EngineView, w: EngineView, h0: Seq<DriverEvent>, h1: Seq<DriverEvent>) -> bool {
    ||| exists|sequence: u64, action: Action, r: ActionResult|
        handle_rel(v, w, sequence, action, r, h0, h1)
    ||| exists|token: StreamToken, input: Seq<u32>| capture_rel(v, w, token, input, h0, h1)
    ||| h1 == h0 && exists|token: StreamToken, out_before: Seq<u32>, out_after: Seq<u32>, ok: bool|
        playback_rel(v, w, token, out_before, out_after, ok)
    ||| exists|generation: u64, reason: Seq<char>| unavailable_rel(v, w, generation, reason, h0, h1)
    ||| exists|generation: u64| available_rel(v, w, generation, h0, h1)
    ||| exists|token: StreamToken, reason: Seq<char>| stream_error_rel(v, w, token, reason, h0, h1)
    ||| shutdown_rel(v, w, h0, h1)
    ||| w == v && h1 == h0
}

/// Every public operation keeps an engine valid.
pub proof fn lemma_step_keeps_valid(v: EngineView, w: EngineView, h0: Seq<DriverEvent>, h1: Seq<DriverEvent>)
    requires
        v.valid(),
        engine_step(v, w, h0, h1),
    ensures
        w.valid(),
{
    reveal(engine_step);
}

/// Streams never overlap and storage never grows: along any run of engine
/// operations that starts from a valid engine, every engine is valid, so
/// both slots hold exactly `MAX_FRAMES` samples (`TOTAL_SAMPLE_BYTES` in
/// all), a stream is open only while recording, paused or playing (at most
/// the one stream the engine holds), and after a shutdown none is open.
pub proof fn lemma_runs_keep_storage_and_one_stream(views: Seq<EngineView>, histories: Seq<Seq<DriverEvent>>)
    requires
        views.len() == histories.len(),
        views.len() > 0,
        views[0].valid(),
        forall|i: int|
            0 <= i < views.len() - 1 ==> engine_step(
                #[trigger] views[i],
                views[i + 1],
                histories[i],
                histories[i + 1],
            ),
    ensures
        forall|i: int|
            0 <= i < views.len() ==> (#[trigger] views[i]).valid() && views[i].samples[0].len()
                == MAX_FRAMES && views[i].samples[1].len() == MAX_FRAMES && (views[i].active is Some
                <==> (views[i].state == EngineState::Recording || views[i].state
                == EngineState::RecordingPaused || views[i].state == EngineState::Playing)),
        forall|i: int|
            0 <= i < views.len() && (#[trigger] views[i]).state == EngineState::Shutdown
                ==> views[i].active is None,
    decreases views.len(),
{
    let n = views.len();
    if n > 1 {
        let vs = views.drop_last();
        let hs = histories.drop_last();
        assert forall|i: int| 0 <= i < vs.len() - 1 implies engine_step(
            #[trigger] vs[i],
            vs[i + 1],
            hs[i],
            hs[i + 1],
        ) by {
            assert(vs[i] == views[i]);
            assert(vs[i + 1] == views[i + 1]);
        }
        lemma_runs_keep_storage_and_one_stream(vs, hs);
        assert(vs[n - 2] == views[n - 2]);
        lemma_step_keeps_valid(views[n - 2], views[n - 1], histories[n - 2], histories[n - 1]);
        assert forall|i: int| 0 <= i < n implies (#[trigger] views[i]).valid() by {
            if i < n - 1 {
                assert(vs[i] == views[i]);
            }
        }
    }
}

} // verus!
