use studiobridge::client::DaemonErrorKind;
use studiobridge::desktop::{
    daemon_write_refusal, default_repair_status, normalize_captured_hotkey, DefaultDeviceRepair,
    channel_detail, daemon_not_ready_status, daemon_status_for_kind, default_mutation_refresh_status,
    default_selection_matches, eq_band_type_name, external_link_url, hotkey_description,
    link_channel_for_source, link_channel_label, merge_pending_refresh_status,
    monitor_connection_recovered, mutation_refresh_status, mute_state_with_target,
    normalize_mute_action, parse_eq_band_type, preferred_default_readback,
    preferred_default_repair, profile_mutation_refresh_status, should_preserve_drawer_window_size,
    should_start_in_background, source_name_available, DspSelection, PreferredDefaultReadback,
    RefreshCoordinator, RefreshStatus,
};
use studiobridge::dsp::{DspWriteModule, EqualizerBandType};
use studiobridge::model::{
    AppSnapshot, BackendStatus, HeadphoneOutputMode, HeadphoneState, LinkChannel, MicrophoneState,
    MixerChannel, MixerDeviceChoice, MixerSnapshot, MixerSourceKind, MuteState, StudioIdentity,
    StudioSnapshot,
};

fn take_refresh_status(
    coordinator: &mut RefreshCoordinator,
    generation: u64,
) -> Option<Option<RefreshStatus>> {
    coordinator.take_pending_status(generation)
}

fn settle_refresh_status(
    coordinator: &mut RefreshCoordinator,
    generation: u64,
    health_ready: bool,
    snapshot_ready: bool,
    profiles_ready: bool,
) -> Option<RefreshStatus> {
    coordinator
        .settle_pending_status(generation, health_ready, snapshot_ready, profiles_ready)
        .expect("test generation should remain current")
}

fn default_snapshot(input: Option<&str>, output: Option<&str>) -> AppSnapshot {
    AppSnapshot {
        studio: StudioSnapshot {
            identity: StudioIdentity {
                status: BackendStatus::Mock,
                error: None,
                product: "test".into(),
                serial: None,
                firmware: None,
                usb_port: "test".into(),
                driverless_mode: true,
            },
            microphone: MicrophoneState { gain_db: 0, phantom_power: false, muted: false },
            headphones: HeadphoneState {
                volume: 0,
                mic_monitor: 0,
                muted: false,
                channels_linked: false,
                output_mode: HeadphoneOutputMode::LineLevel,
                mic_output_gain_tenths_db: 0,
            },
            linked_applications: Vec::new(),
        },
        mixer: MixerSnapshot {
            status: BackendStatus::Mock,
            error: None,
            engine: "test".into(),
            channels: Vec::new(),
            targets: Vec::new(),
            routes: Vec::new(),
            applications: Vec::new(),
            default_input: input.map(str::to_owned),
            default_output: output.map(str::to_owned),
            default_inputs: Vec::new(),
            default_outputs: Vec::new(),
            physical_outputs: Vec::new(),
            physical_inputs: Vec::new(),
            link_outputs: Vec::new(),
            copy_outputs: Vec::new(),
        },
    }
}

#[test]
fn automatic_default_reset_only_restores_an_available_explicit_preference() {
    let choices = vec![
        MixerDeviceChoice { id: "headphones".into(), name: "Headphones".into() },
        MixerDeviceChoice { id: "system".into(), name: "System".into() },
    ];

    assert_eq!(
        preferred_default_repair(true, Some("headphones"), Some("system"), &choices),
        Some("headphones".into())
    );
    assert_eq!(preferred_default_repair(false, Some("headphones"), Some("system"), &choices), None);
    assert_eq!(preferred_default_repair(true, None, Some("system"), &choices), None);
    assert_eq!(
        preferred_default_repair(true, Some("headphones"), Some("headphones"), &choices),
        None
    );
    assert_eq!(
        preferred_default_repair(true, Some("disconnected"), Some("system"), &choices),
        None
    );
}

#[test]
fn header_links_are_limited_to_fixed_https_destinations() {
    assert_eq!(external_link_url("project"), Some("https://github.com/dilllxd/StudioBridge"));
    assert_eq!(external_link_url("support"), Some("https://github.com/dilllxd/StudioBridge/issues"));
    assert_eq!(external_link_url("https://example.com"), None);
    assert_eq!(external_link_url("unknown"), None);
}

#[test]
fn source_mute_actions_match_beacn_targets() {
    assert_eq!(normalize_mute_action("all"), "all");
    assert_eq!(normalize_mute_action("personal"), "personal");
    assert_eq!(normalize_mute_action("audience"), "audience");
    assert_eq!(normalize_mute_action("unsupported"), "audience");

    assert_eq!(mute_state_with_target(MuteState::Unmuted, "all", true), MuteState::MutedAll);
    assert_eq!(mute_state_with_target(MuteState::MutedPersonal, "audience", true), MuteState::MutedAll);
    assert_eq!(mute_state_with_target(MuteState::MutedAll, "personal", false), MuteState::MutedAudience);
    assert_eq!(mute_state_with_target(MuteState::MutedAudience, "audience", false), MuteState::Unmuted);
}

#[test]
fn source_detail_matches_beacn_compact_application_rows() {
    let mut channel = MixerChannel {
        id: "chat".into(),
        meter_id: "chat".into(),
        name: "Chat".into(),
        colour: "#42c9c6".into(),
        personal_volume: 50,
        audience_volume: 50,
        mute_state: MuteState::Unmuted,
        applications: Vec::new(),
        source_kind: MixerSourceKind::Virtual,
        volumes_linked: true,
        attached_devices: Vec::new(),
    };

    assert_eq!(channel_detail(&channel), "");
    channel.applications = vec!["Discord".into(), "Teams".into()];
    assert_eq!(channel_detail(&channel), "Discord\nTeams");
}

#[test]
fn physical_source_detail_names_the_input() {
    let channel = MixerChannel {
        id: "mic".into(),
        meter_id: "mic".into(),
        name: "Mic".into(),
        colour: "#ffffff".into(),
        personal_volume: 50,
        audience_volume: 50,
        mute_state: MuteState::Unmuted,
        applications: Vec::new(),
        source_kind: MixerSourceKind::Physical,
        volumes_linked: true,
        attached_devices: Vec::new(),
    };
    assert_eq!(channel_detail(&channel), "Physical input");
}

#[test]
fn add_source_menu_disables_existing_names_case_insensitively() {
    let source_names = "Mic\nGame\nLink In";
    assert!(!source_name_available("Mic", source_names));
    assert!(!source_name_available("game", source_names));
    assert!(!source_name_available("LINK IN", source_names));
    assert!(source_name_available("Aux 1", source_names));
    assert!(source_name_available("Link 2 In", source_names));
}

#[test]
fn source_names_follow_line_endings() {
    assert!(!source_name_available("mic", "Game\r\nMic\r\n"));
    assert!(source_name_available("", "Game\n"));
    assert!(!source_name_available("", "Game\n\nMic"));
    assert!(source_name_available("anything", ""));
}

#[test]
fn application_chips_use_compact_beacn_destinations() {
    assert_eq!(link_channel_label(LinkChannel::System), "System");
    assert_eq!(link_channel_label(LinkChannel::Link4), "Link 4");
    assert_eq!(link_channel_for_source("System"), 0);
    assert_eq!(link_channel_for_source("Link In"), 1);
    assert_eq!(link_channel_for_source("Link 2 In"), 2);
    assert_eq!(link_channel_for_source("BEACN Link4"), 4);
    assert_eq!(link_channel_for_source("Chat"), -1);
}

#[test]
fn daemon_failures_have_deterministic_category_specific_copy() {
    let cases = [
        (DaemonErrorKind::Offline, "offline", "DAEMON IS OFFLINE"),
        (DaemonErrorKind::Timeout, "timeout", "DID NOT RESPOND"),
        (DaemonErrorKind::HttpStatus(503), "http", "REJECTED THE REQUEST"),
        (DaemonErrorKind::InvalidResponse, "invalid_response", "RESPONSE IS INVALID"),
        (DaemonErrorKind::Transport, "transport", "CONNECTION FAILED"),
    ];

    for (kind, expected_kind, title_fragment) in cases {
        let status = daemon_status_for_kind(kind, "Refresh failed");
        assert_eq!(status.kind, expected_kind);
        assert!(status.title.contains(title_fragment));
        assert!(status.status.starts_with("Refresh failed:"));
        assert!(!status.detail.is_empty());
    }
    assert!(daemon_status_for_kind(DaemonErrorKind::HttpStatus(503), "Refresh failed")
        .status
        .ends_with("HTTP 503"));
}

#[test]
fn http_failure_detail_names_the_status() {
    let status = daemon_status_for_kind(DaemonErrorKind::HttpStatus(404), "Load");
    assert_eq!(status.status, "Load: daemon returned HTTP 404");
    assert_eq!(
        status.detail,
        "The local daemon returned HTTP 404. Existing read-only data remains available; retry after checking the daemon status."
    );
    assert_eq!(daemon_status_for_kind(DaemonErrorKind::Offline, "Load").status, "Load: daemon offline");
}

#[test]
fn accepted_mutations_only_report_request_acceptance_and_readback() {
    let status = mutation_refresh_status("Volume update", &Ok(()));
    assert_eq!(status.status, "Volume update request accepted; current state reloaded");
    assert!(!status.alert);
    assert!(!status.status.contains("succeeded"));
    assert!(!status.status.contains("confirmed"));
}

#[test]
fn failed_mutations_report_ambiguity() {
    let timeout = mutation_refresh_status("Volume update", &Err(DaemonErrorKind::Timeout));
    assert!(timeout.alert);
    assert_eq!(
        timeout.status,
        "Volume update was not confirmed: request timed out; result was ambiguous, so current state was reloaded"
    );
    let offline = mutation_refresh_status("Volume update", &Err(DaemonErrorKind::Offline));
    assert_eq!(
        offline.status,
        "Volume update was not confirmed: daemon offline; current state was reloaded"
    );
    assert_eq!(offline.failure_context, "Volume update was not confirmed");
}

#[test]
fn stale_refresh_cannot_claim_or_consume_a_newer_mutation_status() {
    let mut coordinator = RefreshCoordinator::new();
    let older = coordinator.begin(Some(mutation_refresh_status("Older volume update", &Ok(()))));
    let newer = coordinator.begin(Some(mutation_refresh_status("Newer mute update", &Ok(()))));

    assert!(take_refresh_status(&mut coordinator, older).is_none());
    let status = take_refresh_status(&mut coordinator, newer)
        .expect("newest refresh should be current")
        .expect("newest mutation status should remain pending");
    assert!(status.status.starts_with("Newer mute update"));
}

#[test]
fn newer_plain_refresh_carries_forward_an_unreported_mutation_failure() {
    let mut coordinator = RefreshCoordinator::new();
    let failed_mutation = coordinator.begin(Some(RefreshStatus {
        status: "Volume update was not confirmed: request timed out; result was ambiguous, so current state was reloaded".into(),
        alert: true,
        failure_context: "Volume update was not confirmed".into(),
        requires_profile_readback: false,
        preferred_default: None,
    }));
    let reconnect_refresh = coordinator.begin(None);

    assert!(take_refresh_status(&mut coordinator, failed_mutation).is_none());
    let status = take_refresh_status(&mut coordinator, reconnect_refresh)
        .expect("reconnect refresh should be current")
        .expect("mutation failure must survive until authoritative read-back");
    assert!(status.alert);
    assert!(status.status.contains("was not confirmed"));
    assert!(status.status.contains("ambiguous"));
}

#[test]
fn mutation_status_is_consumed_once_by_the_current_authoritative_refresh() {
    let mut coordinator = RefreshCoordinator::new();
    let mutation = coordinator.begin(Some(mutation_refresh_status("Output device update", &Ok(()))));

    assert!(take_refresh_status(&mut coordinator, mutation)
        .expect("mutation refresh should be current")
        .is_some());
    assert!(matches!(take_refresh_status(&mut coordinator, mutation), Some(None)));

    let later_refresh = coordinator.begin(None);
    assert!(matches!(take_refresh_status(&mut coordinator, later_refresh), Some(None)));
}

#[test]
fn ordinary_mutation_status_survives_failed_readback_until_reconnect() {
    let mut coordinator = RefreshCoordinator::new();
    let failed = coordinator.begin(Some(mutation_refresh_status("Mute update", &Ok(()))));
    assert!(settle_refresh_status(&mut coordinator, failed, false, false, false).is_some());

    let reconnect = coordinator.begin(None);
    assert!(settle_refresh_status(&mut coordinator, reconnect, true, true, false).is_some());
    assert!(matches!(take_refresh_status(&mut coordinator, reconnect), Some(None)));
}

#[test]
fn profile_mutation_waits_for_profile_readback_after_reconnect() {
    let mut coordinator = RefreshCoordinator::new();
    let failed = coordinator.begin(Some(profile_mutation_refresh_status("Mixer profile save", &Ok(()))));
    assert!(settle_refresh_status(&mut coordinator, failed, true, true, false).is_some());

    let reconnect = coordinator.begin(None);
    assert!(settle_refresh_status(&mut coordinator, reconnect, true, true, true).is_some());
    assert!(matches!(take_refresh_status(&mut coordinator, reconnect), Some(None)));
}

#[test]
fn preferred_default_mismatch_is_authoritative_and_settles_without_persisting() {
    let snapshot = default_snapshot(None, Some("speakers"));
    assert_eq!(
        preferred_default_readback(true, Some(&snapshot), false, "headphones"),
        PreferredDefaultReadback::Reject
    );
    let mut coordinator = RefreshCoordinator::new();
    let mismatch = coordinator.begin(Some(default_mutation_refresh_status(
        "Default playback device update",
        &Ok(()),
        false,
        "headphones",
    )));
    let status = settle_refresh_status(&mut coordinator, mismatch, true, true, true)
        .expect("mismatch should still produce one terminal status");
    assert!(status.preferred_default.is_some());
    assert!(matches!(take_refresh_status(&mut coordinator, mismatch), Some(None)));
}

#[test]
fn preferred_default_survives_failed_health_then_persists_once_on_match() {
    let snapshot = default_snapshot(None, Some("headphones"));
    assert_eq!(
        preferred_default_readback(false, Some(&snapshot), false, "headphones"),
        PreferredDefaultReadback::Retain
    );
    assert_eq!(
        preferred_default_readback(true, None, false, "headphones"),
        PreferredDefaultReadback::Retain
    );
    let mut coordinator = RefreshCoordinator::new();
    let failed = coordinator.begin(Some(default_mutation_refresh_status(
        "Default playback device update",
        &Ok(()),
        false,
        "headphones",
    )));
    assert!(settle_refresh_status(&mut coordinator, failed, false, true, true).is_some());

    let reconnect = coordinator.begin(None);
    assert_eq!(
        preferred_default_readback(true, Some(&snapshot), false, "headphones"),
        PreferredDefaultReadback::Persist
    );
    assert!(settle_refresh_status(&mut coordinator, reconnect, true, true, true).is_some());
    assert!(matches!(take_refresh_status(&mut coordinator, reconnect), Some(None)));
}

#[test]
fn unreported_alert_is_not_replaced_by_a_newer_success() {
    let alert = RefreshStatus {
        status: "Volume update was not confirmed: request timed out".into(),
        alert: true,
        failure_context: "Volume update was not confirmed".into(),
        requires_profile_readback: false,
        preferred_default: None,
    };
    let success = profile_mutation_refresh_status("Mixer profile save", &Ok(()));
    let merged = merge_pending_refresh_status(alert, success);
    assert!(merged.alert);
    assert!(merged.status.contains("Volume update was not confirmed"));
    assert!(merged.requires_profile_readback);
}

#[test]
fn monitor_result_started_before_a_refresh_cannot_overwrite_it() {
    let mut coordinator = RefreshCoordinator::new();
    let stale_success = coordinator
        .monitor_generation()
        .expect("idle coordinator should allow a monitor request");
    let failed_refresh = coordinator.begin(None);

    assert!(!coordinator.is_current(stale_success));
    assert!(coordinator.mark_applied(failed_refresh));

    let accepted_success = coordinator
        .monitor_generation()
        .expect("monitor should resume after failed refresh is presented");
    assert_eq!(accepted_success, failed_refresh);
    assert!(monitor_connection_recovered(true, false));
    assert!(!monitor_connection_recovered(true, true));
}

#[test]
fn monitor_cannot_start_while_a_full_refresh_is_in_flight() {
    let mut coordinator = RefreshCoordinator::new();
    let refresh_generation = coordinator.begin(None);
    assert!(coordinator.monitor_generation().is_none());
    assert!(coordinator.mark_applied(refresh_generation));
    assert_eq!(coordinator.monitor_generation(), Some(refresh_generation));
}

#[test]
fn profile_mutations_require_profile_list_readback() {
    let status = profile_mutation_refresh_status("Mixer profile save", &Ok(()));
    assert!(status.requires_profile_readback);
    assert_eq!(status.preferred_default, None);
}

#[test]
fn preferred_defaults_are_only_staged_for_matching_readback() {
    let status = default_mutation_refresh_status(
        "Default playback device update",
        &Ok(()),
        false,
        "headphones",
    );
    assert_eq!(status.preferred_default, Some((false, "headphones".into())));
    assert!(default_selection_matches(Some("headphones"), "headphones"));
    assert!(!default_selection_matches(Some("system"), "headphones"));
    assert!(!default_selection_matches(None, "headphones"));
}

#[test]
fn daemon_not_ready_never_reuses_ready_banner_copy() {
    let status = daemon_not_ready_status("Refresh failed");
    assert_eq!(status.kind, "not_ready");
    assert!(status.title.contains("NOT READY"));
    assert!(!status.title.ends_with("IS READY"));
    assert!(status.status.contains("reported not ready"));
}

#[test]
fn drawer_keeps_window_size_only_when_restored() {
    assert!(should_preserve_drawer_window_size(false, false));
    assert!(!should_preserve_drawer_window_size(true, false));
    assert!(!should_preserve_drawer_window_size(false, true));
}

#[test]
fn background_start_requires_tray() {
    assert!(should_start_in_background(true, true));
    assert!(!should_start_in_background(true, false));
    assert!(!should_start_in_background(false, true));
}

#[test]
fn hotkey_descriptions_are_readable() {
    assert_eq!(hotkey_description("profile:Streaming"), "Load mixer profile Streaming");
    assert_eq!(hotkey_description("mute:Game"), "Toggle mute for Game");
    assert_eq!(hotkey_description("mix:toggle-personal-device"), "Toggle Personal Mix device");
    assert_eq!(hotkey_description("mix:next-profile"), "mix next profile");
}

#[test]
fn eq_band_types_round_trip_except_unset() {
    for band in [
        EqualizerBandType::LowPass,
        EqualizerBandType::HighPass,
        EqualizerBandType::Notch,
        EqualizerBandType::Bell,
        EqualizerBandType::LowShelf,
        EqualizerBandType::HighShelf,
    ] {
        assert_eq!(parse_eq_band_type(eq_band_type_name(band)), Some(band));
    }
    assert_eq!(eq_band_type_name(EqualizerBandType::NotSet), "not_set");
    assert_eq!(parse_eq_band_type("not_set"), None);
    assert_eq!(parse_eq_band_type("unknown"), None);
}

#[test]
fn dsp_selection_parses_module_names() {
    assert_eq!(DspSelection::parse("compressor").module(), DspWriteModule::Compressor);
    assert_eq!(DspSelection::parse("noise_suppression").as_str(), "noise_suppression");
    assert_eq!(DspSelection::parse("anything"), DspSelection::HeadphoneEqualizer);
    assert_eq!(DspSelection::default(), DspSelection::NoiseSuppression);
}

#[test]
fn repair_status_names_the_restored_devices() {
    let repair = |input: Option<&str>, output: Option<&str>| DefaultDeviceRepair {
        input: input.map(str::to_string),
        output: output.map(str::to_string),
    };
    assert_eq!(
        default_repair_status(&repair(Some("mic"), Some("headphones"))).as_deref(),
        Some("Preferred recording and playback devices restored")
    );
    assert_eq!(
        default_repair_status(&repair(Some("mic"), None)).as_deref(),
        Some("Preferred recording device restored")
    );
    assert_eq!(
        default_repair_status(&repair(None, Some("headphones"))).as_deref(),
        Some("Preferred playback device restored")
    );
    assert_eq!(default_repair_status(&repair(None, None)), None);
}

#[test]
fn writes_are_refused_while_the_daemon_is_not_ready() {
    assert_eq!(daemon_write_refusal(true, "Volume change"), None);
    assert_eq!(
        daemon_write_refusal(false, "Volume change").as_deref(),
        Some("Volume change was not attempted: daemon is not ready")
    );
}

#[test]
fn captured_hotkeys_list_modifiers_in_beacn_order() {
    assert_eq!(
        normalize_captured_hotkey(Some("F9"), true, true, true, false).as_deref(),
        Some("ctrl + shift + alt + F9")
    );
    assert_eq!(
        normalize_captured_hotkey(Some("1"), true, false, true, false).as_deref(),
        Some("ctrl + shift + 1")
    );
    assert_eq!(normalize_captured_hotkey(Some("escape"), false, false, false, false).as_deref(), Some("escape"));
    assert_eq!(
        normalize_captured_hotkey(Some("A"), false, false, false, true).as_deref(),
        Some("super + A")
    );
    assert_eq!(normalize_captured_hotkey(None, true, false, false, false), None);
}
