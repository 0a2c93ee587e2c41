use std::sync::mpsc;

use studiobridge::comparison::{DriverCall, FakeAudioDriver, PublicState, MAX_FRAMES, MIN_COMMIT_FRAMES, SAMPLE_RATE};
use studiobridge::worker::{
    send_error_of, timer_tenths, Command, CommandKind, CommandSender, ComparisonMode, Controls,
    DiagnosticKind, LatestSnapshot, ProtocolCore, QueueRefusal, SendCommandError, Snapshot,
    TerminalEvent, COMMAND_CAPACITY,
};

fn bits(value: f32, count: usize) -> Vec<u32> {
    vec![value.to_bits(); count]
}

fn new_core() -> ProtocolCore<FakeAudioDriver> {
    ProtocolCore::simulated(FakeAudioDriver::default(), 1)
}

fn snapshots(events: &[TerminalEvent]) -> Vec<Snapshot> {
    events
        .iter()
        .filter_map(|event| match event {
            TerminalEvent::Snapshot(snapshot) => Some(snapshot.clone()),
            _ => None,
        })
        .collect()
}

fn command(sequence: u64, kind: CommandKind) -> Command {
    Command { sequence, kind }
}

#[test]
fn command_queue_is_exactly_bounded_and_reports_busy() {
    let (sender, _receiver) = mpsc::sync_channel(COMMAND_CAPACITY);
    let sender = CommandSender::new(sender);
    for sequence in 0..COMMAND_CAPACITY as u64 {
        assert_eq!(
            sender.try_send(Command { sequence, kind: CommandKind::ProbeAvailability }),
            Ok(())
        );
    }
    assert_eq!(
        sender.try_send(Command { sequence: 99, kind: CommandKind::ProbeAvailability }),
        Err(SendCommandError::Busy)
    );
}

#[test]
fn dropped_receiver_reports_disconnected() {
    let (sender, receiver) = mpsc::sync_channel(COMMAND_CAPACITY);
    drop(receiver);
    let sender = CommandSender::new(sender);
    assert_eq!(
        sender.try_send(command(1, CommandKind::ProbeAvailability)),
        Err(SendCommandError::Disconnected)
    );
    assert_eq!(send_error_of(QueueRefusal::Full), SendCommandError::Busy);
}

#[test]
fn timer_snapshots_coalesce_to_ten_hz_and_latest_overwrites() {
    let mut core = new_core();
    core.take_latest_snapshot();
    core.process(command(1, CommandKind::ToggleRecord));
    core.take_latest_snapshot();
    core.accept_capture(&bits(0.5, SAMPLE_RATE / 2));
    let mut clock = 0u64;
    core.timer_tick(clock);
    let first = core.take_latest_snapshot().unwrap();
    assert_eq!(first.timer_tenths, 95);
    core.accept_capture(&bits(0.5, SAMPLE_RATE / 2));
    clock += 50;
    core.timer_tick(clock);
    assert!(core.take_latest_snapshot().is_none());
    clock += 50;
    core.timer_tick(clock);
    assert_eq!(core.take_latest_snapshot().unwrap().timer_tenths, 90);
    clock += 100;
    core.timer_tick(clock);
    clock += 100;
    core.timer_tick(clock);
    assert!(core.take_latest_snapshot().is_some());
    assert!(core.take_latest_snapshot().is_none());
}

#[test]
fn transitions_are_lossless_and_separate_from_timer_coalescing() {
    let mut core = new_core();
    let initial = snapshots(&core.drain_events());
    assert_eq!(initial.len(), 1);
    assert_eq!(initial[0].mode, ComparisonMode::Simulated);
    assert_eq!(initial[0].availability_label, "Simulated comparison");
    core.timer_tick(100);
    assert!(core.take_latest_snapshot().is_none());
    core.process(command(1, CommandKind::ToggleRecord));
    core.process(command(2, CommandKind::ToggleRecord));
    let events = snapshots(&core.drain_events());
    assert!(matches!(events[0].state, PublicState::Recording { .. }));
    assert!(matches!(events[1].state, PublicState::RecordingPaused { .. }));
    core.timer_tick(100);
    assert!(core.take_latest_snapshot().is_some());
}

#[test]
fn timer_value_comes_from_frames_not_fake_clock_elapsed() {
    let mut core = new_core();
    core.process(command(1, CommandKind::ToggleRecord));
    core.accept_capture(&bits(0.5, SAMPLE_RATE / 2));
    core.timer_tick(0);
    assert_eq!(core.take_latest_snapshot().unwrap().timer_tenths, 95);
    core.timer_tick(10_000);
    assert_eq!(core.take_latest_snapshot().unwrap().timer_tenths, 95);
}

#[test]
fn terminal_errors_are_not_coalesced_or_dropped() {
    let mut core = new_core();
    core.drain_events();
    for sequence in 1..=8 {
        core.process(command(sequence, CommandKind::TogglePlay { destination_ack_generation: None }));
    }
    let events = core.drain_events();
    let diagnostics: Vec<_> = events
        .iter()
        .filter(|event| matches!(event, TerminalEvent::Diagnostic { .. }))
        .collect();
    assert_eq!(diagnostics.len(), 8);
}

#[test]
fn destination_generation_cannot_be_claimed_before_policy_is_bound() {
    let mut core = new_core();
    let initial = snapshots(&core.drain_events()).remove(0);
    core.process(command(1, CommandKind::TogglePlay { destination_ack_generation: Some(4) }));
    assert!(core.take_latest_snapshot().is_none());
    assert_eq!(core.engine().revision(), initial.revision);
    assert!(matches!(
        core.drain_events()[0],
        TerminalEvent::Diagnostic { kind: DiagnosticKind::PlaybackPolicyNotBound, .. }
    ));
}

#[test]
fn duplicate_sequences_do_not_publish_or_emit_errors() {
    let mut core = new_core();
    core.drain_events();
    core.process(command(4, CommandKind::ToggleRecord));
    core.drain_events();
    core.process(command(4, CommandKind::Cancel));
    assert!(core.take_latest_snapshot().is_none());
    assert!(core.drain_events().is_empty());
}

#[test]
fn controls_follow_authoritative_state_without_optimism() {
    let mut core = new_core();
    let empty = snapshots(&core.drain_events()).remove(0);
    assert!(empty.controls.record_enabled);
    assert!(!empty.controls.play_enabled);
    core.process(command(1, CommandKind::ToggleRecord));
    core.accept_capture(&bits(0.2, MIN_COMMIT_FRAMES));
    let events = snapshots(&core.drain_events());
    assert!(!events[0].controls.play_enabled);
    assert!(events[1].controls.play_enabled);
    assert_eq!(events[1].controls.record_label, "Pause recording");
}

#[test]
fn rejected_stop_failure_publishes_unavailable_before_diagnostic() {
    let mut core = new_core();
    core.process(command(1, CommandKind::ToggleRecord));
    core.accept_capture(&bits(0.2, MIN_COMMIT_FRAMES));
    core.drain_events();
    core.arm_driver_failure(DriverCall::StopStream);
    core.process(command(2, CommandKind::TogglePlay { destination_ack_generation: None }));
    let events = core.drain_events();
    assert!(matches!(
        events[0],
        TerminalEvent::Snapshot(Snapshot { state: PublicState::Unavailable { .. }, .. })
    ));
    assert!(matches!(events[1], TerminalEvent::Diagnostic { .. }));
}

#[test]
fn rejected_pause_and_resume_failures_publish_authoritative_unavailable() {
    for failure in [DriverCall::PauseCapture, DriverCall::ResumeCapture] {
        let mut core = new_core();
        core.process(command(1, CommandKind::ToggleRecord));
        if failure == DriverCall::ResumeCapture {
            core.process(command(2, CommandKind::ToggleRecord));
        }
        core.drain_events();
        core.arm_driver_failure(failure);
        core.process(command(3, CommandKind::ToggleRecord));
        let events = core.drain_events();
        assert!(matches!(
            events[0],
            TerminalEvent::Snapshot(Snapshot { state: PublicState::Unavailable { .. }, .. })
        ));
        assert!(matches!(events[1], TerminalEvent::Diagnostic { .. }));
    }
}

#[test]
fn capture_cap_publishes_auto_ready_semantic_transition() {
    let mut core = new_core();
    core.process(command(1, CommandKind::ToggleRecord));
    core.drain_events();
    core.accept_capture(&bits(0.2, MAX_FRAMES));
    assert_eq!(snapshots(&core.drain_events())[0].state, PublicState::Ready { frames: MAX_FRAMES });
}

#[test]
fn failure_timer_and_shutdown_events_remain_semantically_ordered() {
    let mut core = new_core();
    core.process(command(1, CommandKind::ToggleRecord));
    core.timer_tick(0);
    assert!(core.take_latest_snapshot().is_some());
    core.arm_driver_failure(DriverCall::PauseCapture);
    core.process(command(2, CommandKind::ToggleRecord));
    assert!(core.process(command(3, CommandKind::Shutdown)));
    let events = core.drain_events();
    assert!(matches!(events[0], TerminalEvent::Snapshot(_)));
    assert!(matches!(events[1], TerminalEvent::Snapshot(_)));
    assert!(matches!(
        events[2],
        TerminalEvent::Snapshot(Snapshot { state: PublicState::Unavailable { .. }, .. })
    ));
    assert!(matches!(events[3], TerminalEvent::Diagnostic { .. }));
    assert!(matches!(
        events[4],
        TerminalEvent::Snapshot(Snapshot { state: PublicState::Shutdown, .. })
    ));
    assert!(matches!(events[5], TerminalEvent::ShutdownComplete { .. }));
}

#[test]
fn timer_tenths_round_to_nearest_tenth() {
    assert_eq!(timer_tenths(&PublicState::Recording { draft_frames: 0 }), 100);
    assert_eq!(timer_tenths(&PublicState::RecordingPaused { draft_frames: MAX_FRAMES }), 0);
    assert_eq!(timer_tenths(&PublicState::Playing { frames: 48000, elapsed_frames: 24000 }), 5);
    assert_eq!(timer_tenths(&PublicState::Playing { frames: 4800, elapsed_frames: 2400 }), 1);
    assert_eq!(timer_tenths(&PublicState::Playing { frames: 4800, elapsed_frames: 2399 }), 0);
    assert_eq!(timer_tenths(&PublicState::Empty), 0);
}

#[test]
fn controls_labels_follow_state() {
    let paused = Controls::from_state(&PublicState::RecordingPaused { draft_frames: MIN_COMMIT_FRAMES });
    assert_eq!(paused.record_label, "Resume recording");
    assert!(paused.play_enabled);
    let playing = Controls::from_state(&PublicState::Playing { frames: 1000, elapsed_frames: 0 });
    assert_eq!(playing.play_label, "Stop comparison playback");
    let shut = Controls::from_state(&PublicState::Shutdown);
    assert!(!shut.record_enabled && !shut.play_enabled);
}

#[test]
fn latest_snapshot_is_taken_once() {
    let mut core = new_core();
    let snapshot = snapshots(&core.drain_events()).remove(0);
    let mut latest = LatestSnapshot::new();
    latest.publish(snapshot.clone());
    assert_eq!(latest.take(), Some(snapshot));
    assert_eq!(latest.take(), None);
}
