use studiobridge::comparison::{
    Action, ActionResult, AudioDriver, ComparisonEngine, DriverCall, FakeAudioDriver,
    PublicState, StreamToken, MAX_FRAMES, MIN_COMMIT_FRAMES, TOTAL_SAMPLE_BYTES,
};

fn bits(value: f32, count: usize) -> Vec<u32> {
    vec![value.to_bits(); count]
}

fn recording() -> (ComparisonEngine<FakeAudioDriver>, StreamToken) {
    let mut engine = ComparisonEngine::new_simulated(FakeAudioDriver::default(), 7);
    assert_eq!(engine.handle(1, Action::ToggleRecord), ActionResult::Transitioned);
    let token = engine.active_token().unwrap();
    (engine, token)
}

fn ready(frames: usize) -> ComparisonEngine<FakeAudioDriver> {
    let (mut engine, token) = recording();
    engine.accept_capture(token, &bits(0.25, frames));
    assert_eq!(engine.handle(2, Action::TogglePlay), ActionResult::Transitioned);
    assert_eq!(engine.handle(3, Action::TogglePlay), ActionResult::Transitioned);
    engine
}

fn all_zero(samples: &[u32]) -> bool {
    samples.iter().all(|sample| f32::from_bits(*sample) == 0.0)
}

#[test]
fn fixed_storage_is_exactly_two_slots() {
    let engine = ComparisonEngine::new_simulated(FakeAudioDriver::default(), 1);
    assert_eq!(engine.storage_bytes(), TOTAL_SAMPLE_BYTES);
    assert_eq!(TOTAL_SAMPLE_BYTES, 3_840_000);
}

#[test]
fn record_pause_resume_preserves_cursor() {
    let (mut engine, token) = recording();
    engine.accept_capture(token, &bits(0.1, 400));
    assert_eq!(engine.handle(2, Action::ToggleRecord), ActionResult::Transitioned);
    assert_eq!(engine.state(), PublicState::RecordingPaused { draft_frames: 400 });
    assert_eq!(engine.handle(3, Action::ToggleRecord), ActionResult::Transitioned);
    assert_eq!(engine.state(), PublicState::Recording { draft_frames: 400 });
}

#[test]
fn paused_capture_can_commit_directly_to_playback() {
    let (mut engine, token) = recording();
    engine.accept_capture(token, &bits(0.1, MIN_COMMIT_FRAMES));
    engine.handle(2, Action::ToggleRecord);
    assert_eq!(engine.handle(3, Action::TogglePlay), ActionResult::Transitioned);
    assert!(matches!(engine.state(), PublicState::Playing { .. }));
    assert_eq!(engine.driver().active_stream_count(), 1);
}

#[test]
fn too_short_draft_does_not_replace_prior_clip() {
    let mut engine = ready(MIN_COMMIT_FRAMES);
    assert_eq!(engine.handle(4, Action::ToggleRecord), ActionResult::Transitioned);
    let token = engine.active_token().unwrap();
    engine.accept_capture(token, &bits(0.9, MIN_COMMIT_FRAMES - 1));
    assert!(matches!(engine.handle(5, Action::TogglePlay), ActionResult::Rejected(_)));
    assert_eq!(engine.handle(6, Action::Cancel), ActionResult::Transitioned);
    assert_eq!(engine.state(), PublicState::Ready { frames: MIN_COMMIT_FRAMES });
}

#[test]
fn too_short_draft_rejection_names_the_minimum() {
    let (mut engine, token) = recording();
    engine.accept_capture(token, &bits(0.9, 10));
    assert_eq!(
        engine.handle(2, Action::TogglePlay),
        ActionResult::Rejected("comparison requires at least 960 frames".to_string())
    );
}

#[test]
fn commit_swaps_slots_and_scrubs_displaced_clip() {
    let mut engine = ready(MIN_COMMIT_FRAMES);
    let old = engine.committed_slot().unwrap();
    engine.handle(4, Action::ToggleRecord);
    let token = engine.active_token().unwrap();
    engine.accept_capture(token, &bits(0.8, MIN_COMMIT_FRAMES + 5));
    engine.handle(5, Action::TogglePlay);
    assert_ne!(engine.committed_slot(), Some(old));
    assert_eq!(engine.slot_frames(old), 0);
    assert!(all_zero(engine.slot_samples(old)));
}

#[test]
fn cap_auto_commits_exactly_480000_frames() {
    let (mut engine, token) = recording();
    engine.accept_capture(token, &bits(0.2, MAX_FRAMES + 100));
    assert_eq!(engine.state(), PublicState::Ready { frames: MAX_FRAMES });
    assert_eq!(engine.driver().active_stream_count(), 0);
}

#[test]
fn samples_are_sanitized_without_exposing_values_in_diagnostics() {
    let (mut engine, token) = recording();
    let input = [f32::NAN, f32::INFINITY, -2.0, 2.0, 0.5, -0.25, f32::NEG_INFINITY, -0.0];
    let input: Vec<u32> = input.iter().map(|sample| sample.to_bits()).collect();
    engine.accept_capture(token, &input);
    assert_eq!(engine.diagnostics().non_finite_samples, 3);
    let stored: Vec<f32> = engine.slot_samples(engine.draft_slot())[..8]
        .iter()
        .map(|bits| f32::from_bits(*bits))
        .collect();
    assert_eq!(stored, vec![0.0, 0.0, -1.0, 1.0, 0.5, -0.25, 0.0, -0.0]);
}

#[test]
fn playback_wraps_at_committed_length() {
    let mut engine = ready(MIN_COMMIT_FRAMES);
    engine.handle(4, Action::TogglePlay);
    let token = engine.active_token().unwrap();
    let mut output = vec![0u32; MIN_COMMIT_FRAMES + 3];
    engine.render_playback(token, &mut output).unwrap();
    assert_eq!(engine.playback_cursor(), 3);
    assert!(output.iter().all(|sample| f32::from_bits(*sample) == 0.25));
}

#[test]
fn stale_playback_callback_renders_silence() {
    let mut engine = ready(MIN_COMMIT_FRAMES);
    engine.handle(4, Action::TogglePlay);
    let token = engine.active_token().unwrap();
    engine.handle(5, Action::TogglePlay);
    let mut output = bits(0.5, 16);
    let result = engine.render_playback(token, &mut output);
    assert!(result.is_err());
    assert_eq!(result.unwrap_err().message(), "stale playback callback");
    assert!(all_zero(&output));
    assert_eq!(engine.diagnostics().stale_callbacks, 1);
}

#[test]
fn endpoint_loss_scrubs_draft_retains_committed_and_invalidates_callback() {
    let mut engine = ready(MIN_COMMIT_FRAMES);
    engine.handle(4, Action::ToggleRecord);
    let stale = engine.active_token().unwrap();
    engine.accept_capture(stale, &bits(0.7, MIN_COMMIT_FRAMES));
    engine.set_unavailable(8, "endpoint disappeared");
    assert_eq!(
        engine.state(),
        PublicState::Unavailable { reason: "endpoint disappeared".into() }
    );
    assert_eq!(engine.slot_frames(engine.draft_slot()), 0);
    engine.accept_capture(stale, &bits(1.0, 1));
    assert_eq!(engine.diagnostics().stale_callbacks, 1);
    engine.set_available(9);
    assert_eq!(engine.state(), PublicState::Ready { frames: MIN_COMMIT_FRAMES });
}

#[test]
fn stale_endpoint_events_cannot_mutate_state_revision_or_stream() {
    let (mut engine, token) = recording();
    let revision = engine.revision();
    engine.set_unavailable(6, "stale loss");
    engine.set_available(7);
    assert!(matches!(engine.state(), PublicState::Recording { .. }));
    assert_eq!(engine.revision(), revision);
    assert_eq!(engine.driver().active_stream_count(), 1);
    engine.accept_capture(token, &bits(0.5, 1));
    assert_eq!(engine.diagnostics().stale_callbacks, 0);

    engine.set_unavailable(8, "current loss");
    let unavailable_revision = engine.revision();
    engine.set_available(8);
    assert!(matches!(engine.state(), PublicState::Unavailable { .. }));
    assert_eq!(engine.revision(), unavailable_revision);
    assert_eq!(engine.driver().active_stream_count(), 0);
    engine.set_available(9);
    assert_eq!(engine.state(), PublicState::Empty);
}

#[test]
fn duplicate_and_stale_sequences_are_ignored() {
    let mut engine = ComparisonEngine::new_simulated(FakeAudioDriver::default(), 1);
    assert_eq!(engine.handle(10, Action::ToggleRecord), ActionResult::Transitioned);
    assert_eq!(engine.handle(10, Action::ToggleRecord), ActionResult::IgnoredDuplicate);
    assert_eq!(engine.handle(9, Action::TogglePlay), ActionResult::IgnoredDuplicate);
    assert!(matches!(engine.state(), PublicState::Recording { .. }));
}

#[test]
fn start_failure_leaves_prior_state_and_no_active_stream() {
    let mut driver = FakeAudioDriver::default();
    driver.fail_next(DriverCall::BeginCapture);
    let mut engine = ComparisonEngine::new_simulated(driver, 1);
    assert_eq!(
        engine.handle(1, Action::ToggleRecord),
        ActionResult::Rejected("simulated BeginCapture failure".to_string())
    );
    assert_eq!(engine.state(), PublicState::Empty);
    assert_eq!(engine.driver().active_stream_count(), 0);
}

#[test]
fn playback_start_failure_keeps_new_commit_ready() {
    let (mut engine, token) = recording();
    engine.accept_capture(token, &bits(0.3, MIN_COMMIT_FRAMES));
    engine.arm_driver_failure(DriverCall::BeginPlayback);
    assert!(matches!(engine.handle(2, Action::TogglePlay), ActionResult::Rejected(_)));
    assert_eq!(engine.state(), PublicState::Ready { frames: MIN_COMMIT_FRAMES });
}

#[test]
fn unavailable_rejects_every_ui_action_without_driver_calls() {
    let mut engine =
        ComparisonEngine::new_unavailable(FakeAudioDriver::default(), "not validated", 1);
    for (sequence, action) in [
        Action::ToggleRecord,
        Action::TogglePlay,
        Action::Cancel,
        Action::WorkspaceExited,
    ]
    .into_iter()
    .enumerate()
    {
        assert_eq!(
            engine.handle(sequence as u64 + 1, action),
            ActionResult::Rejected("not validated".into())
        );
    }
    assert!(engine.driver().calls().is_empty());
}

#[test]
fn shut_down_engine_rejects_actions() {
    let mut engine = ComparisonEngine::new_simulated(FakeAudioDriver::default(), 1);
    engine.shutdown();
    assert_eq!(
        engine.handle(1, Action::ToggleRecord),
        ActionResult::Rejected("comparison worker has shut down".to_string())
    );
}

#[test]
fn stream_error_fails_closed_and_rejects_stale_error() {
    let (mut engine, stale) = recording();
    engine.stream_error(stale, "capture failed");
    assert!(matches!(engine.state(), PublicState::Unavailable { .. }));
    let revision = engine.revision();
    engine.stream_error(stale, "late error");
    assert_eq!(engine.revision(), revision);
    assert_eq!(engine.diagnostics().stale_callbacks, 1);
}

#[test]
fn workspace_exit_cancels_capture_and_stops_playback_but_retains_clip() {
    let mut engine = ready(MIN_COMMIT_FRAMES);
    engine.handle(4, Action::TogglePlay);
    assert_eq!(engine.handle(5, Action::WorkspaceExited), ActionResult::Transitioned);
    assert_eq!(engine.state(), PublicState::Ready { frames: MIN_COMMIT_FRAMES });
    engine.handle(6, Action::ToggleRecord);
    assert_eq!(engine.handle(7, Action::WorkspaceExited), ActionResult::Transitioned);
    assert_eq!(engine.state(), PublicState::Ready { frames: MIN_COMMIT_FRAMES });
}

#[test]
fn playing_to_recording_stops_playback_before_capture() {
    let mut engine = ready(MIN_COMMIT_FRAMES);
    engine.handle(4, Action::TogglePlay);
    assert_eq!(engine.handle(5, Action::ToggleRecord), ActionResult::Transitioned);
    assert!(matches!(engine.state(), PublicState::Recording { draft_frames: 0 }));
    assert_eq!(engine.driver().active_stream_count(), 1);
    let calls = engine.driver().calls();
    assert_eq!(&calls[calls.len() - 2..], &[DriverCall::StopStream, DriverCall::BeginCapture]);
}

#[test]
fn cancel_without_prior_clip_scrubs_draft_and_returns_empty() {
    let (mut engine, token) = recording();
    engine.accept_capture(token, &bits(0.5, MIN_COMMIT_FRAMES));
    assert_eq!(engine.handle(2, Action::Cancel), ActionResult::Transitioned);
    assert_eq!(engine.state(), PublicState::Empty);
    assert!(all_zero(engine.slot_samples(engine.draft_slot())));
    engine.accept_capture(token, &bits(1.0, 1));
    assert_eq!(engine.diagnostics().stale_callbacks, 1);
}

#[test]
fn shutdown_is_idempotent_stops_stream_and_scrubs_both_slots() {
    let mut engine = ready(MIN_COMMIT_FRAMES);
    engine.handle(4, Action::TogglePlay);
    engine.shutdown();
    engine.shutdown();
    assert_eq!(engine.state(), PublicState::Shutdown);
    assert_eq!(engine.driver().active_stream_count(), 0);
    assert!(engine.buffers_are_scrubbed());
    assert_eq!(engine.slot_frames(0), 0);
    assert_eq!(engine.slot_frames(1), 0);
    assert_eq!(
        engine.driver().calls().iter().filter(|call| **call == DriverCall::Shutdown).count(),
        1
    );
}

#[test]
fn fake_stop_failure_is_sticky_until_emergency_deactivation() {
    let mut driver = FakeAudioDriver::default();
    let token = driver.begin_capture(1).unwrap();
    driver.fail_next(DriverCall::StopStream);
    assert!(driver.stop_stream(token).is_err());
    assert_eq!(driver.active_stream_count(), 1);
    driver.deactivate_all();
    assert_eq!(driver.active_stream_count(), 0);
}

#[test]
fn fake_driver_refuses_overlapping_streams() {
    let mut driver = FakeAudioDriver::default();
    let token = driver.begin_capture(1).unwrap();
    assert_eq!(token.callback_epoch(), 1);
    let refused = driver.begin_playback_loop(2).unwrap_err();
    assert_eq!(refused.message(), "fake driver refuses overlapping streams");
    assert_eq!(driver.active_stream_count(), 0);
    assert!(driver.pause_capture(token).is_err());
    let next = driver.begin_capture(3).unwrap();
    assert!(driver.pause_capture(next).is_ok());
    assert!(driver.resume_capture(next).is_ok());
    assert_eq!(driver.calls().len(), 6);
}

#[test]
fn an_armed_begin_failure_fails_once_with_no_stream_left() {
    let mut driver = FakeAudioDriver::default();
    let token = driver.begin_capture(1).unwrap();
    driver.fail_next(DriverCall::BeginPlayback);
    let error = driver.begin_playback_loop(2).unwrap_err();
    assert_eq!(error.message(), "simulated BeginPlayback failure");
    assert_eq!(driver.active_stream_count(), 0);
    assert!(driver.stop_stream(token).is_err());
    assert!(driver.begin_playback_loop(4).is_ok());
    assert_eq!(
        driver.calls(),
        &[
            DriverCall::BeginCapture,
            DriverCall::BeginPlayback,
            DriverCall::StopStream,
            DriverCall::BeginPlayback
        ]
    );
}

#[test]
fn stop_failure_during_cancel_fails_closed_and_scrubs_draft() {
    let (mut engine, token) = recording();
    engine.accept_capture(token, &bits(0.5, MIN_COMMIT_FRAMES));
    engine.arm_driver_failure(DriverCall::StopStream);
    let result = engine.handle(2, Action::Cancel);
    assert_eq!(
        result,
        ActionResult::Rejected("stream stop failed: simulated StopStream failure".to_string())
    );
    assert!(matches!(engine.state(), PublicState::Unavailable { .. }));
    assert_eq!(engine.driver().active_stream_count(), 0);
    assert_eq!(engine.slot_frames(engine.draft_slot()), 0);
    assert!(all_zero(engine.slot_samples(engine.draft_slot())));
}

#[test]
fn stop_failure_during_record_to_play_does_not_commit_or_overlap() {
    let (mut engine, token) = recording();
    engine.accept_capture(token, &bits(0.5, MIN_COMMIT_FRAMES));
    engine.arm_driver_failure(DriverCall::StopStream);
    assert!(matches!(engine.handle(2, Action::TogglePlay), ActionResult::Rejected(_)));
    assert!(matches!(engine.state(), PublicState::Unavailable { .. }));
    assert_eq!(engine.committed_slot(), None);
    assert_eq!(engine.driver().active_stream_count(), 0);
}

#[test]
fn stop_failure_during_play_to_record_does_not_overlap() {
    let mut engine = ready(MIN_COMMIT_FRAMES);
    engine.handle(4, Action::TogglePlay);
    engine.arm_driver_failure(DriverCall::StopStream);
    assert!(matches!(engine.handle(5, Action::ToggleRecord), ActionResult::Rejected(_)));
    assert!(matches!(engine.state(), PublicState::Unavailable { .. }));
    assert_eq!(engine.driver().active_stream_count(), 0);
    assert_eq!(
        engine.committed_slot().map(|slot| engine.slot_frames(slot)),
        Some(MIN_COMMIT_FRAMES)
    );
}

#[test]
fn stop_failure_at_capture_cap_never_auto_commits() {
    let (mut engine, token) = recording();
    engine.arm_driver_failure(DriverCall::StopStream);
    engine.accept_capture(token, &bits(0.5, MAX_FRAMES));
    assert!(matches!(engine.state(), PublicState::Unavailable { .. }));
    assert_eq!(engine.committed_slot(), None);
    assert_eq!(engine.driver().active_stream_count(), 0);
    assert_eq!(engine.slot_frames(engine.draft_slot()), 0);
}

#[test]
fn endpoint_loss_uses_infallible_teardown_even_when_stop_would_fail() {
    let (mut engine, _) = recording();
    engine.arm_driver_failure(DriverCall::StopStream);
    engine.set_unavailable(8, "endpoint lost");
    assert!(matches!(engine.state(), PublicState::Unavailable { .. }));
    assert_eq!(engine.driver().active_stream_count(), 0);
    assert!(engine.driver().calls().contains(&DriverCall::DeactivateAll));
}

#[test]
fn stop_failure_requires_a_fresh_endpoint_generation_to_recover() {
    let (mut engine, _) = recording();
    engine.arm_driver_failure(DriverCall::StopStream);
    let _ = engine.handle(2, Action::Cancel);
    let revision = engine.revision();
    engine.set_available(7);
    assert!(matches!(engine.state(), PublicState::Unavailable { .. }));
    assert_eq!(engine.revision(), revision);
    engine.set_available(8);
    assert_eq!(engine.state(), PublicState::Empty);
}

#[test]
fn pause_failure_reason_names_the_driver_error() {
    let (mut engine, _) = recording();
    engine.arm_driver_failure(DriverCall::PauseCapture);
    assert_eq!(
        engine.handle(2, Action::ToggleRecord),
        ActionResult::Rejected("capture pause failed: simulated PauseCapture failure".to_string())
    );
    assert_eq!(
        engine.state(),
        PublicState::Unavailable {
            reason: "capture pause failed: simulated PauseCapture failure".to_string()
        }
    );
}

#[test]
fn deterministic_command_sequences_never_overlap_streams_or_grow_storage() {
    for mask in 0_u16..256 {
        let mut engine = ComparisonEngine::new_simulated(FakeAudioDriver::default(), 1);
        for step in 0..8 {
            let action = if mask & (1 << step) == 0 {
                Action::ToggleRecord
            } else {
                Action::TogglePlay
            };
            let _ = engine.handle(step + 1, action);
            if matches!(engine.state(), PublicState::Recording { .. }) {
                let token = engine.active_token().unwrap();
                engine.accept_capture(token, &bits(0.1, MIN_COMMIT_FRAMES));
            }
            assert!(engine.driver().active_stream_count() <= 1);
            assert_eq!(engine.storage_bytes(), TOTAL_SAMPLE_BYTES);
        }
        engine.shutdown();
        assert_eq!(engine.driver().active_stream_count(), 0);
    }
}

#[test]
fn failed_stream_calls_report_why_and_keep_the_stream() {
    let mut driver = FakeAudioDriver::default();
    let token = driver.begin_capture(1).unwrap();
    driver.fail_next(DriverCall::PauseCapture);
    assert_eq!(driver.pause_capture(token).unwrap_err().message(), "simulated PauseCapture failure");
    assert_eq!(driver.active_stream_count(), 1);
    assert!(driver.pause_capture(token).is_ok());
    assert_eq!(driver.pause_capture(token).unwrap_err().message(), "capture stream is not active");
    driver.fail_next(DriverCall::StopStream);
    assert_eq!(driver.resume_capture(token).map_err(|e| e.message()), Ok(()));
    assert_eq!(driver.resume_capture(token).unwrap_err().message(), "capture stream is not paused");
    assert_eq!(driver.stop_stream(token).unwrap_err().message(), "simulated StopStream failure");
    assert_eq!(driver.active_stream_count(), 1);
    let stale = driver.begin_playback_loop(9).unwrap_err();
    assert_eq!(stale.message(), "fake driver refuses overlapping streams");
    let other = driver.begin_capture(2).unwrap();
    assert_eq!(driver.stop_stream(token).unwrap_err().message(), "stream token is stale");
    assert_eq!(driver.active_stream_count(), 1);
    assert!(driver.stop_stream(other).is_ok());
    assert_eq!(driver.active_stream_count(), 0);
}

#[test]
fn every_fake_driver_call_is_logged_once_in_call_order() {
    let mut driver = FakeAudioDriver::default();
    assert!(driver.calls().is_empty());
    let token = driver.begin_capture(1).unwrap();
    driver.fail_next(DriverCall::PauseCapture);
    assert!(driver.pause_capture(token).is_err());
    assert!(driver.pause_capture(token).is_ok());
    assert!(driver.resume_capture(token).is_ok());
    assert!(driver.begin_playback_loop(2).is_err());
    assert!(driver.stop_stream(token).is_err());
    driver.deactivate_all();
    driver.shutdown();
    assert_eq!(
        driver.calls(),
        &[
            DriverCall::BeginCapture,
            DriverCall::PauseCapture,
            DriverCall::PauseCapture,
            DriverCall::ResumeCapture,
            DriverCall::BeginPlayback,
            DriverCall::StopStream,
            DriverCall::DeactivateAll,
            DriverCall::Shutdown
        ]
    );
}
