//! The bounded command protocol around a comparison engine: commands in,
//! semantic snapshots, coalesced timer snapshots and diagnostics out.
//!
//! The protocol core decides what to publish; the thread that owns it, the
//! channels and the clock live with the caller, which drains the published
//! events after each step.
use vstd::prelude::*;
use std::sync::mpsc::{SyncSender, TrySendError};
use crate::comparison::{
    AudioDriver, ComparisonEngine, EngineState, EngineView, Action, ActionResult, PublicState,
    MAX_FRAMES, MIN_COMMIT_FRAMES, SAMPLE_RATE, public_state_of, handle_rel, shutdown_rel,
    capture_rel, rejection_text, toggle_play_rel, toggle_record_rel, DriverEvent,
};

verus! {

/// Commands a single producer may queue before `try_send` reports `Busy`.
pub const COMMAND_CAPACITY: usize = 32;

/// Timer snapshots are published at most this often.
pub const TIMER_INTERVAL_MS: u64 = 100;

#[derive(Clone, Debug, PartialEq, Eq, Structural)]
pub struct Command {
    pub sequence: u64,
    pub kind: CommandKind,
}

#[derive(Clone, Debug, PartialEq, Eq, Structural)]
pub enum CommandKind {
    ProbeAvailability,
    ToggleRecord,
    /// Playback may not claim a destination generation: only `None` is
    /// accepted until that generation is checked against a read-only
    /// destination snapshot.
    TogglePlay { destination_ack_generation: Option<u64> },
    Cancel,
    WorkspaceExited,
    Shutdown,
}

#[derive(Clone, Copy, Debug, PartialEq, Eq, Structural)]
pub enum SendCommandError {
    Busy,
    Disconnected,
}

/// Why a bounded queue refused a command.
#[derive(Clone, Copy, Debug, PartialEq, Eq, Structural)]
pub enum QueueRefusal {
    Full,
    Disconnected,
}

/// The error reported for a refused command.
pub fn send_error_of(refusal: QueueRefusal) -> (r: SendCommandError)
    ensures
        refusal == QueueRefusal::Full ==> r == SendCommandError::Busy,
        refusal == QueueRefusal::Disconnected ==> r == SendCommandError::Disconnected,
{
    match refusal {
        QueueRefusal::Full => SendCommandError::Busy,
        QueueRefusal::Disconnected => SendCommandError::Disconnected,
    }
}

#[verifier::external_type_specification]
#[verifier::external_body]
#[verifier::reject_recursive_types(T)]
pub struct ExSyncSender<T>(SyncSender<T>);

/// `<SyncSender as Clone>::clone` (std): another sender on the same
/// channel. Nothing is stated of it beyond its type.
pub assume_specification<T>[ <SyncSender<T> as Clone>::clone ](sender: &SyncSender<T>) -> SyncSender<T>;

/// `SyncSender::try_send` (std): queues the command when the bounded
/// channel has room, and otherwise reports whether it was full or its
/// receiver is gone. Which happens depends on the receiving thread, so
/// nothing is stated of the outcome.
#[verifier::external_body]
fn queue_try_send(sender: &SyncSender<Command>, command: Command) -> (r: Result<(), QueueRefusal>) {
    match sender.try_send(command) {
        Ok(()) => Ok(()),
        Err(TrySendError::Full(_)) => Err(QueueRefusal::Full),
        Err(TrySendError::Disconnected(_)) => Err(QueueRefusal::Disconnected),
    }
}

/// The sending side of the bounded command queue.
#[derive(Clone)]
pub struct CommandSender {
    sender: SyncSender<Command>,
}

impl CommandSender {
    /// The channel the commands go to.
    pub closed spec fn channel(&self) -> SyncSender<Command> {
        self.sender
    }

    /// A sender over the given bounded channel.
    pub fn new(sender: SyncSender<Command>) -> (r: Self)
        ensures
            r.channel() == sender,
    {
        CommandSender { sender }
    }

    /// Queues a command without blocking.
    pub fn try_send(&self, command: Command) -> (r: Result<(), SendCommandError>) {
        match queue_try_send(&self.sender, command) {
            Ok(()) => Ok(()),
            Err(refusal) => Err(send_error_of(refusal)),
        }
    }
}

#[derive(Clone, Debug, PartialEq, Eq)]
pub struct Controls {
    pub record_enabled: bool,
    pub play_enabled: bool,
    pub record_label: &'static str,
    pub play_label: &'static str,
}

/// Play is offered once a clip exists or the draft is long enough to commit.
pub open spec fn play_enabled_for(state: PublicState) -> bool {
    match state {
        PublicState::Unavailable { .. } | PublicState::Shutdown | PublicState::Empty => false,
        PublicState::Recording { draft_frames } => draft_frames >= MIN_COMMIT_FRAMES,
        PublicState::RecordingPaused { draft_frames } => draft_frames >= MIN_COMMIT_FRAMES,
        _ => true,
    }
}

/// The controls that follow from a public state, without optimism.
pub open spec fn controls_for(state: PublicState, c: Controls) -> bool {
    &&& c.record_enabled == !(state is Unavailable || state is Shutdown)
    &&& c.play_enabled == play_enabled_for(state)
    &&& c.record_label@ == (match state {
        PublicState::Recording { .. } => "Pause recording"@,
        PublicState::RecordingPaused { .. } => "Resume recording"@,
        _ => "Record comparison"@,
    })
    &&& c.play_label@ == (match state {
        PublicState::Playing { .. } => "Stop comparison playback"@,
        _ => "Play comparison loop"@,
    })
}

/// The engine refuses `TogglePlay` from `v` outright: every outcome is a
/// rejection that calls no driver.
pub open spec fn play_refused(v: EngineView, h0: Seq<DriverEvent>) -> bool {
    forall|w: EngineView, ok: bool, msg: Seq<char>, h1: Seq<DriverEvent>|
        #[trigger] toggle_play_rel(v, w, ok, msg, h0, h1) ==> !ok && h1 == h0
}

/// The published play control is enabled exactly when the engine would act
/// on `TogglePlay`: it starts playback from a clip, commits a long enough
/// draft and plays it, or stops the playback that is running; it is disabled
/// exactly when the engine would refuse the action without touching the
/// driver.
pub proof fn lemma_play_control_matches_engine(
    v: EngineView,
    p: PublicState,
    c: Controls,
    h0: Seq<DriverEvent>,
)
    requires
        v.valid(),
        public_state_of(v, p),
        controls_for(p, c),
    ensures
        c.play_enabled <==> !play_refused(v, h0),
{
    match v.state {
        EngineState::Ready => {
            let s = EngineView { epoch: crate::comparison::next_epoch(v.epoch), ..v };
            let h1 = h0.push(DriverEvent::BeginPlayback { callback_epoch: s.epoch, ok: false });
            assert(toggle_play_rel(v, s, false, Seq::empty(), h0, h1));
            assert(h1 != h0) by {
                assert(h1.len() != h0.len());
            }
        },
        EngineState::Playing | EngineState::Recording | EngineState::RecordingPaused => {
            if v.state == EngineState::Playing || v.frames[v.draft as int] >= MIN_COMMIT_FRAMES {
                let reason = "stream stop failed: "@;
                let w = v.failed_closed(reason);
                let h1 = h0.push(crate::comparison::stop_event(v, false)).push(DriverEvent::DeactivateAll);
                assert(crate::text::seq_starts_with(reason, reason)) by {
                    assert(reason.subrange(0, reason.len() as int) =~= reason);
                }
                assert(toggle_play_rel(v, w, false, reason, h0, h1));
                assert(h1 != h0) by {
                    assert(h1.len() != h0.len());
                }
            }
        },
        _ => {},
    }
}

/// The engine refuses `ToggleRecord` from `v` outright: every outcome is a
/// rejection that calls no driver.
pub open spec fn record_refused(v: EngineView, h0: Seq<DriverEvent>) -> bool {
    forall|w: EngineView, ok: bool, msg: Seq<char>, h1: Seq<DriverEvent>|
        #[trigger] toggle_record_rel(v, w, ok, msg, h0, h1) ==> !ok && h1 == h0
}

/// The published record control is enabled exactly when the engine would
/// act on `ToggleRecord` (start, pause or resume a capture, or stop playback
/// and start one), and disabled exactly when it would refuse the action
/// without touching the driver.
pub proof fn lemma_record_control_matches_engine(
    v: EngineView,
    p: PublicState,
    c: Controls,
    h0: Seq<DriverEvent>,
)
    requires
        v.valid(),
        public_state_of(v, p),
        controls_for(p, c),
    ensures
        c.record_enabled <==> !record_refused(v, h0),
{
    match v.state {
        EngineState::Empty | EngineState::Ready => {
            let d = v.recording_slot();
            let s = EngineView { epoch: crate::comparison::next_epoch(v.epoch), ..v.with_slot_scrubbed(d as int) };
            let h1 = h0.push(DriverEvent::BeginCapture { callback_epoch: s.epoch, ok: false });
            assert(toggle_record_rel(v, s, false, Seq::empty(), h0, h1));
            assert(h1.len() != h0.len());
        },
        EngineState::Recording | EngineState::RecordingPaused => {
            let (reason, event) = if v.state == EngineState::Recording {
                ("capture pause failed: "@, DriverEvent::PauseCapture { token: v.active->0, ok: false })
            } else {
                ("capture resume failed: "@, DriverEvent::ResumeCapture { token: v.active->0, ok: false })
            };
            let w = v.failed_closed(reason);
            let h1 = h0.push(event).push(DriverEvent::DeactivateAll);
            assert(crate::text::seq_starts_with(reason, reason)) by {
                assert(reason.subrange(0, reason.len() as int) =~= reason);
            }
            assert(toggle_record_rel(v, w, false, reason, h0, h1));
            assert(h1.len() != h0.len());
        },
        EngineState::Playing => {
            let reason = "stream stop failed: "@;
            let w = v.failed_closed(reason);
            let h1 = h0.push(crate::comparison::stop_event(v, false)).push(DriverEvent::DeactivateAll);
            assert(crate::text::seq_starts_with(reason, reason)) by {
                assert(reason.subrange(0, reason.len() as int) =~= reason);
            }
            assert(toggle_record_rel(v, w, false, reason, h0, h1));
            assert(h1.len() != h0.len());
        },
        _ => {},
    }
}

impl Controls {
    pub fn from_state(state: &PublicState) -> (r: Self)
        ensures
            controls_for(*state, r),
    {
        match state {
            PublicState::Unavailable { .. } | PublicState::Shutdown => Controls {
                record_enabled: false,
                play_enabled: false,
                record_label: "Record comparison",
                play_label: "Play comparison loop",
            },
            PublicState::Empty => Controls {
                record_enabled: true,
                play_enabled: false,
                record_label: "Record comparison",
                play_label: "Play comparison loop",
            },
            PublicState::Ready { .. } => Controls {
                record_enabled: true,
                play_enabled: true,
                record_label: "Record comparison",
                play_label: "Play comparison loop",
            },
            PublicState::Recording { draft_frames } => Controls {
                record_enabled: true,
                play_enabled: *draft_frames >= MIN_COMMIT_FRAMES,
                record_label: "Pause recording",
                play_label: "Play comparison loop",
            },
            PublicState::RecordingPaused { draft_frames } => Controls {
                record_enabled: true,
                play_enabled: *draft_frames >= MIN_COMMIT_FRAMES,
                record_label: "Resume recording",
                play_label: "Play comparison loop",
            },
            PublicState::Playing { .. } => Controls {
                record_enabled: true,
                play_enabled: true,
                record_label: "Record comparison",
                play_label: "Stop comparison playback",
            },
        }
    }
}

/// The frames a timer shows: what is left of the recording budget, or the
/// playback position.
pub open spec fn timer_frames(state: PublicState) -> nat {
    match state {
        PublicState::Recording { draft_frames } => if draft_frames <= MAX_FRAMES {
            (MAX_FRAMES - draft_frames) as nat
        } else {
            0
        },
        PublicState::RecordingPaused { draft_frames } => if draft_frames <= MAX_FRAMES {
            (MAX_FRAMES - draft_frames) as nat
        } else {
            0
        },
        PublicState::Playing { elapsed_frames, .. } => elapsed_frames as nat,
        _ => 0,
    }
}

/// Tenths of a second for a frame count, rounded to nearest.
pub open spec fn tenths_of_frames(frames: nat) -> int {
    (frames * 10 + SAMPLE_RATE / 2) / (SAMPLE_RATE as int)
}

/// The timer value of a state in tenths of a second.
pub fn timer_tenths(state: &PublicState) -> (r: u32)
    requires
        timer_frames(*state) * 10 + SAMPLE_RATE / 2 <= usize::MAX,
    ensures
        r == tenths_of_frames(timer_frames(*state)) as u32,
{
    let frames: usize = match state {
        PublicState::Recording { draft_frames } | PublicState::RecordingPaused { draft_frames } => {
            MAX_FRAMES.saturating_sub(*draft_frames)
        },
        PublicState::Playing { elapsed_frames, .. } => *elapsed_frames,
        _ => 0,
    };
    let tenths = (frames * 10 + SAMPLE_RATE / 2) / SAMPLE_RATE;
    tenths as u32
}

#[derive(Clone, Copy, Debug, PartialEq, Eq, Structural)]
pub enum ComparisonMode {
    Simulated,
}

#[derive(Clone, Debug, PartialEq, Eq)]
pub struct Snapshot {
    pub revision: u64,
    pub state: PublicState,
    pub timer_tenths: u32,
    pub controls: Controls,
    pub reason: Option<String>,
    pub mode: ComparisonMode,
    pub availability_label: &'static str,
}

#[derive(Clone, Debug, PartialEq, Eq)]
pub enum DiagnosticKind {
    CommandRejected(String),
    PlaybackPolicyNotBound,
}

#[derive(Clone, Debug, PartialEq, Eq)]
pub enum TerminalEvent {
    Snapshot(Snapshot),
    Diagnostic { revision: u64, kind: DiagnosticKind },
    ShutdownComplete { revision: u64 },
}

/// What a snapshot of the engine in `v` holds.
pub open spec fn snapshot_of(v: EngineView, s: Snapshot) -> bool {
    &&& s.revision == v.revision
    &&& public_state_of(v, s.state)
    &&& s.timer_tenths == tenths_of_frames(timer_frames(s.state)) as u32
    &&& controls_for(s.state, s.controls)
    &&& (match s.state {
        PublicState::Unavailable { reason } => s.reason matches Some(r) && r@ == reason@,
        _ => s.reason is None,
    })
    &&& s.mode == ComparisonMode::Simulated
    &&& s.availability_label@ == "Simulated comparison"@
}

/// The event is a snapshot of `v`.
pub open spec fn is_snapshot_event(e: TerminalEvent, v: EngineView) -> bool {
    e matches TerminalEvent::Snapshot(s) && snapshot_of(v, s)
}

/// Whether play is offered in `v`.
pub open spec fn view_play_enabled(v: EngineView) -> bool {
    match v.state {
        EngineState::Recording | EngineState::RecordingPaused => v.frames[v.draft as int]
            >= MIN_COMMIT_FRAMES,
        EngineState::Ready | EngineState::Playing => true,
        _ => false,
    }
}

/// What a semantic change is measured by: the revision, the kind of state
/// and the controls.
pub open spec fn signature(v: EngineView) -> (u64, EngineState, bool) {
    (v.revision, v.state, view_play_enabled(v))
}

#[derive(Clone, Copy, Debug, PartialEq, Eq, Structural)]
struct Signature {
    revision: u64,
    state: EngineState,
    play_enabled: bool,
}

/// The most recent timer snapshot; a newer one overwrites it.
#[derive(Clone, Debug)]
pub struct LatestSnapshot {
    slot: Option<Snapshot>,
}

impl LatestSnapshot {
    pub closed spec fn held(&self) -> Option<Snapshot> {
        self.slot
    }

    pub fn new() -> (r: Self)
        ensures
            r.held() is None,
    {
        LatestSnapshot { slot: None }
    }

    pub fn publish(&mut self, snapshot: Snapshot)
        ensures
            final(self).held() == Some(snapshot),
    {
        self.slot = Some(snapshot);
    }

    pub fn take(&mut self) -> (r: Option<Snapshot>)
        ensures
            r == old(self).held(),
            final(self).held() is None,
    {
        self.slot.take()
    }
}

/// The protocol state machine that owns a comparison engine.
pub struct ProtocolCore<D: AudioDriver> {
    engine: ComparisonEngine<D>,
    latest_timer: LatestSnapshot,
    outbox: Vec<TerminalEvent>,
    last_timer_publish_ms: Option<u64>,
    last_command_sequence: Option<u64>,
}

impl<D: AudioDriver> ProtocolCore<D> {
    pub closed spec fn engine_view(&self) -> EngineView {
        self.engine@
    }

    pub closed spec fn driver_state(&self) -> D {
        self.engine.driver_state()
    }

    /// Events published and not yet drained, oldest first.
    pub closed spec fn events(&self) -> Seq<TerminalEvent> {
        self.outbox@
    }

    pub closed spec fn latest(&self) -> Option<Snapshot> {
        self.latest_timer.held()
    }

    pub closed spec fn last_timer_ms(&self) -> Option<u64> {
        self.last_timer_publish_ms
    }

    pub closed spec fn last_command(&self) -> Option<u64> {
        self.last_command_sequence
    }

    pub closed spec fn wf(&self) -> bool {
        self.engine.wf()
    }

    /// A core over a simulated engine; it publishes its first snapshot.
    pub fn simulated(driver: D, endpoint_generation: u64) -> (r: Self)
        requires
            driver.active_stream() is None,
        ensures
            r.wf(),
            r.engine_view() == crate::comparison::initial_view(
                "Simulated comparison"@,
                endpoint_generation,
            ).in_state(EngineState::Empty),
            r.events().len() == 1,
            is_snapshot_event(r.events()[0], r.engine_view()),
            r.latest() is None,
            r.last_timer_ms() is None,
            r.last_command() is None,
    {
        let mut core = ProtocolCore {
            engine: ComparisonEngine::new_simulated(driver, endpoint_generation),
            latest_timer: LatestSnapshot::new(),
            outbox: Vec::new(),
            last_timer_publish_ms: None,
            last_command_sequence: None,
        };
        core.publish_semantic_snapshot();
        core
    }

    fn snapshot(&self) -> (r: Snapshot)
        requires
            self.wf(),
        ensures
            snapshot_of(self.engine_view(), r),
    {
        let state = self.engine.state();
        let reason = match &state {
            PublicState::Unavailable { reason } => Some(reason.clone()),
            _ => None,
        };
        let tenths = timer_tenths(&state);
        let controls = Controls::from_state(&state);
        Snapshot {
            revision: self.engine.revision(),
            timer_tenths: tenths,
            controls,
            state,
            reason,
            mode: ComparisonMode::Simulated,
            availability_label: "Simulated comparison",
        }
    }

    fn publish_semantic_snapshot(&mut self)
        requires
            old(self).wf(),
        ensures
            final(self).wf(),
            final(self).engine == old(self).engine,
            final(self).events().len() == old(self).events().len() + 1,
            final(self).events().subrange(0, old(self).events().len() as int) == old(self).events(),
            is_snapshot_event(final(self).events().last(), final(self).engine_view()),
            final(self).latest_timer == old(self).latest_timer,
            final(self).last_timer_publish_ms == old(self).last_timer_publish_ms,
            final(self).last_command_sequence == old(self).last_command_sequence,
    {
        let snapshot = self.snapshot();
        self.outbox.push(TerminalEvent::Snapshot(snapshot));
        assert(self.events().subrange(0, old(self).events().len() as int) =~= old(self).events());
    }

    fn emit_diagnostic(&mut self, kind: DiagnosticKind)
        ensures
            final(self).engine == old(self).engine,
            final(self).events() == old(self).events().push(
                TerminalEvent::Diagnostic { revision: old(self).engine_view().revision, kind },
            ),
            final(self).latest_timer == old(self).latest_timer,
            final(self).last_timer_publish_ms == old(self).last_timer_publish_ms,
            final(self).last_command_sequence == old(self).last_command_sequence,
    {
        let revision = self.engine.revision();
        self.outbox.push(TerminalEvent::Diagnostic { revision, kind });
    }

    fn semantic_signature(&self) -> (r: Signature)
        requires
            self.wf(),
        ensures
            (r.revision, r.state, r.play_enabled) == signature(self.engine_view()),
    {
        let state = self.engine.phase();
        let play_enabled = match state {
            EngineState::Recording | EngineState::RecordingPaused => {
                let d = self.engine.draft_slot();
                self.engine.slot_frames(d) >= MIN_COMMIT_FRAMES
            },
            EngineState::Ready | EngineState::Playing => true,
            _ => false,
        };
        Signature { revision: self.engine.revision(), state, play_enabled }
    }
}

/// The action a command asks of the engine.
pub open spec fn command_action(kind: CommandKind) -> Action {
    match kind {
        CommandKind::TogglePlay { .. } => Action::TogglePlay,
        CommandKind::Cancel => Action::Cancel,
        CommandKind::WorkspaceExited => Action::WorkspaceExited,
        _ => Action::ToggleRecord,
    }
}

/// The events published for an engine action: one snapshot when the
/// semantics changed or the action transitioned, then a diagnostic for a
/// rejection. Nothing already published is dropped or reordered.
pub open spec fn published_after_action(
    v: EngineView,
    w: EngineView,
    r: ActionResult,
    out0: Seq<TerminalEvent>,
    out: Seq<TerminalEvent>,
) -> bool {
    let snap = signature(v) != signature(w) || r is Transitioned;
    let n0 = out0.len();
    let n1 = n0 + if snap {
        1nat
    } else {
        0nat
    };
    &&& out.len() >= n0
    &&& out.subrange(0, n0 as int) == out0
    &&& snap ==> is_snapshot_event(out[n0 as int], w)
    &&& r is Rejected ==> out.len() == n1 + 1 && (out[n1 as int] matches TerminalEvent::Diagnostic {
        revision,
        kind: DiagnosticKind::CommandRejected(m),
    } && revision == w.revision && m@ == rejection_text(r))
    &&& !(r is Rejected) ==> out.len() == n1
}

/// Whether the engine is recording, paused or playing.
pub open spec fn timer_running(v: EngineView) -> bool {
    v.state == EngineState::Recording || v.state == EngineState::RecordingPaused || v.state
        == EngineState::Playing
}

impl<D: AudioDriver> ProtocolCore<D> {
    /// Shuts the engine down and publishes the final snapshot and the
    /// acknowledgement.
    pub fn force_shutdown(&mut self)
        requires
            old(self).wf(),
        ensures
            final(self).wf(),
            shutdown_rel(
                old(self).engine_view(),
                final(self).engine_view(),
                old(self).driver_state().history(),
                final(self).driver_state().history(),
            ),
            final(self).events().len() == old(self).events().len() + 2,
            final(self).events().subrange(0, old(self).events().len() as int) == old(self).events(),
            is_snapshot_event(final(self).events()[old(self).events().len() as int], final(self).engine_view()),
            final(self).events()[old(self).events().len() + 1int] == (TerminalEvent::ShutdownComplete {
                revision: final(self).engine_view().revision,
            }),
            final(self).latest() == old(self).latest(),
            final(self).last_command() == old(self).last_command(),
            final(self).last_timer_ms() == old(self).last_timer_ms(),
    {
        self.engine.shutdown();
        self.publish_semantic_snapshot();
        let ghost mid = self.events();
        let revision = self.engine.revision();
        self.outbox.push(TerminalEvent::ShutdownComplete { revision });
        assert(self.events().subrange(0, old(self).events().len() as int) =~= old(self).events()) by {
            assert(self.events().subrange(0, mid.len() as int) =~= mid);
            assert(mid.subrange(0, old(self).events().len() as int) =~= old(self).events());
        }
    }

    /// Processes one command; returns true when the worker should stop.
    pub fn process(&mut self, command: Command) -> (r: bool)
        requires
            old(self).wf(),
        ensures
            final(self).wf(),
            final(self).latest() == old(self).latest(),
            final(self).last_timer_ms() == old(self).last_timer_ms(),
            r <==> command.kind is Shutdown,
            command.kind is Shutdown ==> shutdown_rel(
                old(self).engine_view(),
                final(self).engine_view(),
                old(self).driver_state().history(),
                final(self).driver_state().history(),
            )
                && final(self).events().len() == old(self).events().len() + 2
                && final(self).events().subrange(0, old(self).events().len() as int) == old(self).events()
                && is_snapshot_event(final(self).events()[old(self).events().len() as int], final(self).engine_view())
                && final(self).events()[old(self).events().len() + 1int] == (TerminalEvent::ShutdownComplete {
                    revision: final(self).engine_view().revision,
                }),
            !(command.kind is Shutdown) && (old(self).last_command() matches Some(last) && command.sequence <= last)
                ==> final(self).engine_view() == old(self).engine_view() && final(self).events() == old(self).events()
                && final(self).last_command() == old(self).last_command()
                && final(self).driver_state() == old(self).driver_state(),
            !(command.kind is Shutdown) && !(old(self).last_command() matches Some(last) && command.sequence <= last)
                ==> final(self).last_command() == Some(command.sequence),
            !(command.kind is Shutdown) && !(old(self).last_command() matches Some(last) && command.sequence <= last)
                && command.kind is ProbeAvailability ==> final(self).engine_view() == old(self).engine_view()
                && final(self).driver_state() == old(self).driver_state()
                && final(self).events().len() == old(self).events().len() + 1
                && final(self).events().subrange(0, old(self).events().len() as int) == old(self).events()
                && is_snapshot_event(final(self).events().last(), final(self).engine_view()),
            !(command.kind is Shutdown) && !(old(self).last_command() matches Some(last) && command.sequence <= last)
                && (command.kind matches CommandKind::TogglePlay { destination_ack_generation } && destination_ack_generation is Some)
                ==> final(self).engine_view() == old(self).engine_view()
                && final(self).driver_state() == old(self).driver_state()
                && final(self).events() == old(self).events().push(TerminalEvent::Diagnostic {
                    revision: old(self).engine_view().revision,
                    kind: DiagnosticKind::PlaybackPolicyNotBound,
                }),
            !(command.kind is Shutdown) && !(old(self).last_command() matches Some(last) && command.sequence <= last)
                && !(command.kind is ProbeAvailability)
                && !(command.kind matches CommandKind::TogglePlay { destination_ack_generation } && destination_ack_generation is Some)
                ==> exists|re: ActionResult| #[trigger] handle_rel(
                    old(self).engine_view(),
                    final(self).engine_view(),
                    command.sequence,
                    command_action(command.kind),
                    re,
                    old(self).driver_state().history(),
                    final(self).driver_state().history(),
                )
                && published_after_action(old(self).engine_view(), final(self).engine_view(), re, old(self).events(), final(self).events()),
    {
        if command.kind == CommandKind::Shutdown {
            self.force_shutdown();
            return true;
        }
        let duplicate = match self.last_command_sequence {
            Some(last) => command.sequence <= last,
            None => false,
        };
        if duplicate {
            return false;
        }
        self.last_command_sequence = Some(command.sequence);
        let before = self.semantic_signature();
        let ghost v = self.engine@;
        let ghost h0 = self.driver_state().history();
        let ghost out0 = self.events();
        let action = match command.kind {
            CommandKind::ProbeAvailability => {
                self.publish_semantic_snapshot();
                return false;
            },
            CommandKind::ToggleRecord => Action::ToggleRecord,
            CommandKind::TogglePlay { destination_ack_generation } => {
                if destination_ack_generation.is_some() {
                    self.emit_diagnostic(DiagnosticKind::PlaybackPolicyNotBound);
                    return false;
                }
                Action::TogglePlay
            },
            CommandKind::Cancel => Action::Cancel,
            CommandKind::WorkspaceExited => Action::WorkspaceExited,
            CommandKind::Shutdown => Action::ToggleRecord,
        };
        assert(action == command_action(command.kind));
        let result = self.engine.handle(command.sequence, action);
        let after = self.semantic_signature();
        let changed = before != after;
        if changed {
            self.publish_semantic_snapshot();
        }
        let ghost mid = self.events();
        match &result {
            ActionResult::Transitioned => {
                if !changed {
                    self.publish_semantic_snapshot();
                }
            },
            ActionResult::IgnoredDuplicate => {},
            ActionResult::Rejected(reason) => {
                self.emit_diagnostic(DiagnosticKind::CommandRejected(reason.clone()));
            },
        }
        proof {
            let w = self.engine@;
            assert(self.events().subrange(0, out0.len() as int) =~= out0) by {
                assert(self.events().subrange(0, mid.len() as int) =~= mid);
                assert(mid.subrange(0, out0.len() as int) =~= out0);
            }
            assert(h0 == old(self).driver_state().history());
            assert(handle_rel(
                v,
                w,
                command.sequence,
                command_action(command.kind),
                result,
                old(self).driver_state().history(),
                self.driver_state().history(),
            ));
            assert(published_after_action(v, w, result, out0, self.events()));
        }
        false
    }
}

impl<D: AudioDriver> ProtocolCore<D> {
    /// Publishes a timer snapshot at most every `TIMER_INTERVAL_MS` while the
    /// engine records, is paused or plays; a newer one overwrites an older.
    pub fn timer_tick(&mut self, now_ms: u64)
        requires
            old(self).wf(),
        ensures
            final(self).wf(),
            final(self).engine_view() == old(self).engine_view(),
            final(self).driver_state() == old(self).driver_state(),
            final(self).events() == old(self).events(),
            final(self).last_command() == old(self).last_command(),
            ({
                let due = timer_running(old(self).engine_view()) && !(old(self).last_timer_ms() matches Some(
                    last,
                ) && (if now_ms >= last { now_ms - last } else { 0 }) < TIMER_INTERVAL_MS);
                &&& due ==> final(self).last_timer_ms() == Some(now_ms) && (final(self).latest() matches Some(
                    s,
                ) && snapshot_of(final(self).engine_view(), s))
                &&& !due ==> final(self).last_timer_ms() == old(self).last_timer_ms()
                    && final(self).latest() == old(self).latest()
            }),
    {
        let phase = self.engine.phase();
        if !(phase == EngineState::Recording || phase == EngineState::RecordingPaused || phase
            == EngineState::Playing) {
            return;
        }
        let recent = match self.last_timer_publish_ms {
            Some(last) => now_ms.saturating_sub(last) < TIMER_INTERVAL_MS,
            None => false,
        };
        if recent {
            return;
        }
        self.last_timer_publish_ms = Some(now_ms);
        let snapshot = self.snapshot();
        self.latest_timer.publish(snapshot);
    }

    /// Feeds captured samples to the open capture stream, if any, and
    /// publishes a snapshot when that changed the semantics.
    pub fn accept_capture(&mut self, input: &[u32])
        requires
            old(self).wf(),
        ensures
            final(self).wf(),
            final(self).latest() == old(self).latest(),
            final(self).last_command() == old(self).last_command(),
            final(self).last_timer_ms() == old(self).last_timer_ms(),
            match old(self).engine_view().active {
                Some(t) => capture_rel(
                    old(self).engine_view(),
                    final(self).engine_view(),
                    t,
                    input@,
                    old(self).driver_state().history(),
                    final(self).driver_state().history(),
                ),
                None => final(self).engine_view() == old(self).engine_view(),
            },
            signature(old(self).engine_view()) != signature(final(self).engine_view())
                ==> final(self).events().len() == old(self).events().len() + 1
                && final(self).events().subrange(0, old(self).events().len() as int) == old(self).events()
                && is_snapshot_event(final(self).events().last(), final(self).engine_view()),
            signature(old(self).engine_view()) == signature(final(self).engine_view())
                ==> final(self).events() == old(self).events(),
    {
        let before = self.semantic_signature();
        match self.engine.active_token() {
            Some(token) => self.engine.accept_capture(token, input),
            None => {},
        }
        let after = self.semantic_signature();
        if before != after {
            self.publish_semantic_snapshot();
        }
    }

    /// Hands out the published events, oldest first, and forgets them.
    pub fn drain_events(&mut self) -> (r: Vec<TerminalEvent>)
        ensures
            r@ == old(self).events(),
            final(self).events() == Seq::<TerminalEvent>::empty(),
            final(self).engine_view() == old(self).engine_view(),
            final(self).driver_state() == old(self).driver_state(),
            final(self).wf() == old(self).wf(),
            final(self).latest() == old(self).latest(),
            final(self).last_command() == old(self).last_command(),
            final(self).last_timer_ms() == old(self).last_timer_ms(),
    {
        let mut out: Vec<TerminalEvent> = Vec::new();
        std::mem::swap(&mut out, &mut self.outbox);
        out
    }

    /// Takes the latest timer snapshot, if one is waiting.
    pub fn take_latest_snapshot(&mut self) -> (r: Option<Snapshot>)
        ensures
            r == old(self).latest(),
            final(self).latest() is None,
            final(self).engine_view() == old(self).engine_view(),
            final(self).driver_state() == old(self).driver_state(),
            final(self).wf() == old(self).wf(),
            final(self).events() == old(self).events(),
            final(self).last_command() == old(self).last_command(),
            final(self).last_timer_ms() == old(self).last_timer_ms(),
    {
        self.latest_timer.take()
    }

    /// The engine the core drives.
    pub fn engine(&self) -> (r: &ComparisonEngine<D>)
        ensures
            r@ == self.engine_view(),
            r.driver_state() == self.driver_state(),
            self.wf() ==> r.wf(),
    {
        &self.engine
    }
}

impl ProtocolCore<crate::comparison::FakeAudioDriver> {
    /// Arms a failure of the fake driver's next call of the given kind.
    pub fn arm_driver_failure(&mut self, call: crate::comparison::DriverCall)
        requires
            old(self).wf(),
        ensures
            final(self).wf(),
            final(self).engine_view() == old(self).engine_view(),
            final(self).events() == old(self).events(),
            final(self).latest() == old(self).latest(),
            final(self).last_command() == old(self).last_command(),
            final(self).last_timer_ms() == old(self).last_timer_ms(),
            final(self).driver_state().armed_failure() == Some(call),
    {
        self.engine.arm_driver_failure(call);
    }
}

} // verus!
