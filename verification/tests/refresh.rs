use studiobridge::client::{DaemonErrorKind, RuntimeHealth};
use studiobridge::desktop::{
    hotkey_mute_target, mute_hotkey_absent_status, next_personal_device, parse_hotkey_action,
    personal_device_too_few_status, HotkeyAction, PreferredDefaultReadback, RefreshStatus,
};
use studiobridge::model::{BridgeError, MixerDeviceChoice, MuteState};
use studiobridge::profile::disconnected_mixer;
use studiobridge::refresh::{note_preferred_default, refresh_outcome};

fn health(ok: bool) -> RuntimeHealth {
    RuntimeHealth {
        ok,
        studio_mode: "mock".into(),
        mixer_mode: "pipeweaver".into(),
        hardware_writes_enabled: false,
        link_control_enabled: false,
        dsp_write_modules: vec![],
        dsp_write_active_module: None,
        dsp_write_lease_seconds: None,
    }
}

fn pending(requires_profile_readback: bool) -> RefreshStatus {
    RefreshStatus {
        status: "Volume updated".into(),
        alert: false,
        failure_context: "Volume change was not confirmed".into(),
        requires_profile_readback,
        preferred_default: None,
    }
}

#[test]
fn a_healthy_refresh_shows_the_modes() {
    let out = refresh_outcome(&Ok(health(true)), None, None, &None);
    assert!(out.ready && out.apply_snapshot && out.apply_profiles);
    assert!(out.failure.is_none());
    assert!(!out.status_alert);
    assert_eq!(out.status_text, "mock + pipeweaver");
    assert!(!out.clear_pending);
}

#[test]
fn failures_show_the_panel_in_the_pending_context() {
    let out = refresh_outcome(&Err(DaemonErrorKind::Offline), None, None, &Some(pending(false)));
    assert!(!out.ready && !out.apply_snapshot);
    let panel = out.failure.unwrap();
    assert_eq!(panel.kind, "offline");
    assert_eq!(out.status_text, "Volume change was not confirmed: daemon offline");
    assert!(out.status_alert);
    assert!(!out.clear_pending);

    let out = refresh_outcome(&Ok(health(false)), None, None, &None);
    assert_eq!(out.failure.unwrap().kind, "not_ready");
    assert_eq!(out.status_text, "Refresh failed: daemon reported not ready");

    let out = refresh_outcome(&Ok(health(true)), Some(DaemonErrorKind::Timeout), None, &None);
    assert!(!out.ready);
    assert_eq!(out.status_text, "Refresh failed: request timed out");
}

#[test]
fn pending_status_is_settled_only_by_an_authoritative_read_back() {
    let out = refresh_outcome(&Ok(health(true)), None, None, &Some(pending(false)));
    assert!(out.clear_pending);
    assert_eq!(out.status_text, "Volume updated");

    let out = refresh_outcome(&Ok(health(true)), None, Some(DaemonErrorKind::Offline), &Some(pending(true)));
    assert!(!out.clear_pending);
    assert!(out.ready && !out.apply_profiles);
    assert!(out.status_alert);
    assert_eq!(
        out.status_text,
        "Mixer profile read-back failed: daemon offline; no profile change is confirmed"
    );

    let out = refresh_outcome(&Ok(health(true)), None, Some(DaemonErrorKind::Offline), &None);
    assert_eq!(out.status_text, "Mixer profile read-back failed: daemon offline");
}

#[test]
fn preferred_default_outcomes_are_noted() {
    let mut status = pending(false);
    note_preferred_default(&mut status, PreferredDefaultReadback::Reject, None);
    assert!(status.alert);
    assert_eq!(
        status.status,
        "Volume change was not confirmed: requested default was not confirmed by read-back; automatic reset preference unchanged"
    );
    let mut status = pending(false);
    note_preferred_default(&mut status, PreferredDefaultReadback::Persist, Some("disk full"));
    assert_eq!(
        status.status,
        "Volume change was not confirmed; current state reloaded, but automatic reset preference save failed: disk full"
    );
    let mut status = pending(false);
    note_preferred_default(&mut status, PreferredDefaultReadback::Persist, None);
    assert_eq!(status, pending(false));
}

#[test]
fn hotkey_actions_are_parsed_and_decided() {
    assert_eq!(parse_hotkey_action("profile:Stream"), HotkeyAction::LoadProfile("Stream".into()));
    assert_eq!(parse_hotkey_action("mute:chat"), HotkeyAction::ToggleMute("chat".into()));
    assert_eq!(parse_hotkey_action("mix:toggle-personal-device"), HotkeyAction::CyclePersonalDevice);
    assert_eq!(parse_hotkey_action("other"), HotkeyAction::Unknown);
    assert_eq!(hotkey_mute_target(MuteState::Unmuted), MuteState::MutedAll);
    assert_eq!(hotkey_mute_target(MuteState::MutedPersonal), MuteState::Unmuted);
    assert!(mute_hotkey_absent_status().alert);
    assert_eq!(
        personal_device_too_few_status().status,
        "Personal Mix device cycling needs at least two outputs"
    );
}

#[test]
fn the_personal_device_cycles_through_the_outputs() {
    let mut m = disconnected_mixer(BridgeError::Backend("x".into()));
    let choice = |id: &str| MixerDeviceChoice { id: id.into(), name: id.into() };
    m.default_outputs = vec![choice("a")];
    assert_eq!(next_personal_device(&m), None);
    m.default_outputs = vec![choice("a"), choice("b"), choice("c")];
    m.default_output = Some("b".into());
    assert_eq!(next_personal_device(&m), Some(2));
    m.default_output = Some("c".into());
    assert_eq!(next_personal_device(&m), Some(0));
    m.default_output = Some("gone".into());
    assert_eq!(next_personal_device(&m), Some(1));
}
