use studiobridge::daemon::{
    check_arm_request, check_microphone_dsp_update, dsp_editing_backends_supported,
    next_profile_name, status_code_for, validate_profile_name, ProfileFile,
    DSP_WRITE_ACKNOWLEDGEMENT,
};
use studiobridge::model::{BackendStatus, BridgeError};
use studiobridge::profile::disconnected_mixer;

fn invalid_message(error: BridgeError) -> String {
    match error {
        BridgeError::InvalidValue(message) => message,
        other => panic!("expected an invalid value, got {other:?}"),
    }
}

#[test]
fn dsp_editing_accepts_only_complete_real_or_mock_backend_pairs() {
    assert!(dsp_editing_backends_supported("beacn", "pipeweaver"));
    assert!(dsp_editing_backends_supported("mock", "mock"));
    assert!(!dsp_editing_backends_supported("beacn", "mock"));
    assert!(!dsp_editing_backends_supported("mock", "pipeweaver"));
}

#[test]
fn profile_names_match_beacn_numbering() {
    assert_eq!(
        next_profile_name("New Profile", &["Default Profile"], false),
        "New Profile"
    );
    assert_eq!(
        next_profile_name("New Profile", &["New Profile", "New Profile 1"], false),
        "New Profile 2"
    );
    assert_eq!(
        next_profile_name("Streaming", &["Streaming", "Streaming (1)"], true),
        "Streaming (2)"
    );
}

#[test]
fn headphone_equalizer_writes_require_explicit_subwoofer_state() {
    let error = check_microphone_dsp_update(Some("headphone_equalizer"), false).unwrap_err();
    assert!(invalid_message(error).contains("explicit subwoofer state"));
    assert!(check_microphone_dsp_update(Some("headphone_equalizer"), true).is_ok());
    assert!(check_microphone_dsp_update(Some("equalizer"), false).is_ok());
    assert!(check_microphone_dsp_update(None, false).is_ok());
}

#[test]
fn parenthesized_numbering_is_used_even_when_the_base_is_free() {
    assert_eq!(next_profile_name("Streaming", &[], true), "Streaming (1)");
}

#[test]
fn numbered_names_keep_to_sixty_four_characters() {
    let base = "x".repeat(64);
    let name = next_profile_name(&base, &[base.as_str()], false);
    assert_eq!(name.chars().count(), 64);
    assert_eq!(name, format!("{} 1", "x".repeat(62)));
}

#[test]
fn profile_names_are_validated_after_trimming() {
    assert!(validate_profile_name("  Streaming  ").is_ok());
    assert_eq!(
        invalid_message(validate_profile_name("   ").unwrap_err()),
        "profile name must contain 1 to 64 characters"
    );
    assert!(validate_profile_name(&"a".repeat(64)).is_ok());
    assert!(validate_profile_name(&"a".repeat(65)).is_err());
}

#[test]
fn arm_requests_are_checked_in_order() {
    assert_eq!(
        invalid_message(check_arm_request("yes", 60, false, "mock", "mock").unwrap_err()),
        "DSP editing acknowledgement did not match"
    );
    assert_eq!(
        invalid_message(
            check_arm_request(DSP_WRITE_ACKNOWLEDGEMENT, 29, false, "mock", "mock").unwrap_err()
        ),
        "DSP lease must be between 30 and 300 seconds"
    );
    assert!(check_arm_request(DSP_WRITE_ACKNOWLEDGEMENT, 301, false, "mock", "mock").is_err());
    assert_eq!(
        invalid_message(
            check_arm_request(DSP_WRITE_ACKNOWLEDGEMENT, 60, true, "mock", "mock").unwrap_err()
        ),
        "in-app DSP leases require general hardware writes to remain disabled"
    );
    match check_arm_request(DSP_WRITE_ACKNOWLEDGEMENT, 60, false, "beacn", "mock") {
        Err(BridgeError::BackendUnavailable(message)) => assert_eq!(
            message,
            "DSP editing requires either the real BEACN/PipeWeaver pair or the isolated mock/mock simulation"
        ),
        other => panic!("unexpected {other:?}"),
    }
    assert!(check_arm_request(DSP_WRITE_ACKNOWLEDGEMENT, 30, false, "mock", "mock").is_ok());
    assert!(check_arm_request(DSP_WRITE_ACKNOWLEDGEMENT, 300, false, "beacn", "pipeweaver").is_ok());
}

#[test]
fn errors_map_to_http_status_codes() {
    assert_eq!(status_code_for(&BridgeError::InvalidValue("x".into())), 400);
    assert_eq!(status_code_for(&BridgeError::BackendUnavailable("x".into())), 503);
    assert_eq!(status_code_for(&BridgeError::Backend("x".into())), 502);
}

fn mixer() -> studiobridge::model::MixerSnapshot {
    disconnected_mixer(BridgeError::BackendUnavailable("offline".into()))
}

#[test]
fn saved_profiles_can_be_listed_activated_duplicated_and_deleted() {
    let mut file = ProfileFile::new();
    assert!(file.list().profiles.is_empty());

    file.save("Streaming".into(), mixer()).unwrap();
    assert_eq!(file.active.as_deref(), Some("Streaming"));
    let created = file.create(mixer());
    assert_eq!(created, "New Profile");
    assert_eq!(file.active.as_deref(), Some("New Profile"));
    assert_eq!(file.create(mixer()), "New Profile 1");

    let copy = file.duplicate("Streaming").unwrap();
    assert_eq!(copy, "Streaming (1)");
    assert_eq!(file.active.as_deref(), Some("New Profile 1"));
    assert_eq!(
        invalid_message(file.duplicate("Missing").unwrap_err()),
        "unknown mixer profile: Missing"
    );

    file.set_active("Streaming").unwrap();
    let listed = file.list();
    let names: Vec<&str> = listed.profiles.iter().map(|p| p.name.as_str()).collect();
    assert_eq!(names, ["Streaming", "New Profile", "New Profile 1", "Streaming (1)"]);
    assert!(listed.profiles[0].active);
    assert!(!listed.profiles[1].active);
    assert_eq!(file.find("New Profile 1"), Some(2));
    assert!(file.get("Streaming (1)").is_some());
    assert!(file.get("Nope").is_none());

    file.delete("Streaming").unwrap();
    assert_eq!(file.active, None);
    assert_eq!(file.profiles.len(), 3);
    assert!(file.delete("Streaming").is_err());
    assert!(file.set_active("Streaming").is_err());
}

#[test]
fn saving_an_existing_name_replaces_its_mixer_in_place() {
    let mut file = ProfileFile::new();
    file.save("A".into(), mixer()).unwrap();
    file.save("B".into(), mixer()).unwrap();
    let mut changed = mixer();
    changed.engine = "changed".into();
    changed.status = BackendStatus::Mock;
    file.save("A".into(), changed).unwrap();
    assert_eq!(file.profiles.len(), 2);
    assert_eq!(file.profiles[0].name, "A");
    assert_eq!(file.get("A").unwrap().engine, "changed");
    assert_eq!(file.active.as_deref(), Some("A"));
    assert!(file.save("   ".into(), mixer()).is_err());
    assert_eq!(file.profiles.len(), 2);
}

#[test]
fn numbered_names_are_reported_free_until_all_are_taken() {
    let mut file = ProfileFile::new();
    assert!(file.numbered_name_free("New Profile", false));
    file.save("Stream (1)".into(), mixer()).unwrap();
    assert!(file.numbered_name_free("Stream", true));
    assert!(file.numbered_name_free("x", false));
}

#[test]
fn a_numbered_name_is_free_while_fewer_than_ten_thousand_are_taken() {
    let mut taken: Vec<String> = vec!["Mix".into()];
    for i in 1..=40 {
        taken.push(format!("Mix {i}"));
    }
    let refs: Vec<&str> = taken.iter().map(|s| s.as_str()).collect();
    assert_eq!(next_profile_name("Mix", &refs, false), "Mix 41");
    let long = "L".repeat(70);
    let first = next_profile_name(&long, &[], true);
    assert_eq!(first, format!("{} (1)", "L".repeat(60)));
    assert_eq!(next_profile_name(&long, &[first.as_str()], true), format!("{} (2)", "L".repeat(60)));
}

#[test]
fn a_duplicated_profile_holds_the_same_mixer() {
    let mut file = ProfileFile::new();
    let mut saved = mixer();
    saved.engine = "PipeWeaver".into();
    saved.default_input = Some("mic".into());
    saved.routes = vec![studiobridge::model::MixerRoute { source_id: "a".into(), target_id: "b".into() }];
    file.save("Live".into(), saved.clone()).unwrap();
    let copy = file.duplicate("Live").unwrap();
    assert_eq!(file.get(&copy), Some(&saved));
    assert_eq!(file.get("Live"), Some(&saved));
}
