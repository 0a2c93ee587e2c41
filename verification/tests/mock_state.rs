use studiobridge::mock_state::{
    mock_create_source, mock_remove_source, mock_set_default_input, mock_set_default_output,
    mock_set_application_route, mock_set_link_assignment, mock_set_microphone, mock_set_mute,
    mock_set_route,
    mock_set_source_order, mock_set_target_volume, mock_set_volume, mock_set_volume_linked,
};
use studiobridge::model::{
    BridgeError, LinkChannel, LinkedApplication, MixBus, MixerApplication, MixerChannel,
    MixerDeviceChoice, MixerRoute, MixerSnapshot, MixerSourceKind, MixerTarget, MuteState,
    SetMicrophoneRequest, StudioSnapshot,
};
use studiobridge::profile::{disconnected_mixer, disconnected_studio};

fn message(error: BridgeError) -> String {
    match error {
        BridgeError::InvalidValue(message) => message,
        other => panic!("expected an invalid value, got {other:?}"),
    }
}

fn channel(id: &str, name: &str) -> MixerChannel {
    MixerChannel {
        id: id.into(),
        meter_id: format!("meter-{id}"),
        name: name.into(),
        colour: "#ffffff".into(),
        personal_volume: 50,
        audience_volume: 50,
        mute_state: MuteState::Unmuted,
        applications: vec![],
        source_kind: MixerSourceKind::Physical,
        volumes_linked: true,
        attached_devices: vec![],
    }
}

fn target(id: &str, mix: MixBus) -> MixerTarget {
    MixerTarget {
        id: id.into(),
        meter_id: format!("meter-{id}"),
        name: id.into(),
        mix,
        volume: 80,
        muted: false,
        attached_devices: vec![],
    }
}

fn route(source: &str, target: &str) -> MixerRoute {
    MixerRoute { source_id: source.into(), target_id: target.into() }
}

fn mixer() -> MixerSnapshot {
    let mut s = disconnected_mixer(BridgeError::BackendUnavailable("mock".into()));
    s.channels = vec![channel("system", "System"), channel("game", "Game"), channel("chat", "Chat")];
    s.targets = vec![target("headphones", MixBus::Personal), target("vod-track", MixBus::Audience)];
    s.routes = vec![route("system", "headphones"), route("game", "headphones")];
    s.applications = vec![MixerApplication {
        process: "discord".into(),
        name: "Discord".into(),
        title: None,
        channel_id: Some("game".into()),
    }];
    s.default_inputs = vec![MixerDeviceChoice { id: "chat".into(), name: "Chat".into() }];
    s.default_outputs = vec![MixerDeviceChoice { id: "system".into(), name: "System".into() }];
    s
}

fn studio() -> StudioSnapshot {
    let mut s = disconnected_studio(BridgeError::BackendUnavailable("mock".into()));
    s.linked_applications = vec![
        LinkedApplication { name: "Game".into(), channel: LinkChannel::System },
        LinkedApplication { name: "Chat".into(), channel: LinkChannel::Link1 },
    ];
    s
}

#[test]
fn volumes_mutes_and_links_change_only_the_named_channel() {
    let mut s = mixer();
    mock_set_volume(&mut s, "game", MixBus::Audience, 41).unwrap();
    mock_set_volume_linked(&mut s, "game", false).unwrap();
    mock_set_mute(&mut s, "game", MuteState::MutedPersonal).unwrap();
    assert_eq!(s.channels[1].audience_volume, 41);
    assert_eq!(s.channels[1].personal_volume, 50);
    assert!(!s.channels[1].volumes_linked);
    assert_eq!(s.channels[1].mute_state, MuteState::MutedPersonal);
    assert_eq!(s.channels[0], channel("system", "System"));

    let before = s.clone();
    assert_eq!(
        message(mock_set_volume(&mut s, "game", MixBus::Personal, 101).unwrap_err()),
        "volume must be between 0 and 100"
    );
    assert_eq!(
        message(mock_set_mute(&mut s, "nope", MuteState::MutedAll).unwrap_err()),
        "unknown channel: nope"
    );
    assert_eq!(s, before);
}

#[test]
fn target_volumes_and_default_devices_are_checked() {
    let mut s = mixer();
    mock_set_target_volume(&mut s, "vod-track", 83).unwrap();
    assert_eq!(s.targets[1].volume, 83);
    assert_eq!(
        message(mock_set_target_volume(&mut s, "nowhere", 10).unwrap_err()),
        "unknown target: nowhere"
    );
    mock_set_default_input(&mut s, "chat").unwrap();
    mock_set_default_output(&mut s, "system").unwrap();
    assert_eq!(s.default_input.as_deref(), Some("chat"));
    assert_eq!(s.default_output.as_deref(), Some("system"));
    assert_eq!(
        message(mock_set_default_input(&mut s, "system").unwrap_err()),
        "unknown default input: system"
    );
    assert_eq!(
        message(mock_set_default_output(&mut s, "chat").unwrap_err()),
        "unknown default output: chat"
    );
}

#[test]
fn routes_are_added_once_and_removed_exactly() {
    let mut s = mixer();
    mock_set_route(&mut s, "chat", "headphones", true).unwrap();
    assert_eq!(s.routes.len(), 3);
    assert_eq!(s.routes[2], route("chat", "headphones"));
    mock_set_route(&mut s, "chat", "headphones", true).unwrap();
    assert_eq!(s.routes.len(), 3);
    mock_set_route(&mut s, "game", "headphones", false).unwrap();
    assert_eq!(s.routes, vec![route("system", "headphones"), route("chat", "headphones")]);
    assert_eq!(
        message(mock_set_route(&mut s, "ghost", "headphones", true).unwrap_err()),
        "unknown source channel: ghost"
    );
    assert_eq!(
        message(mock_set_route(&mut s, "chat", "nowhere", true).unwrap_err()),
        "unknown target: nowhere"
    );
}

#[test]
fn mixer_sources_can_be_added_reordered_and_removed() {
    let mut s = mixer();
    mock_create_source(&mut s, "  Aux 1 ").unwrap();
    let aux = s.channels.last().unwrap().clone();
    assert_eq!(aux.id, "aux-1");
    assert_eq!(aux.name, "Aux 1");
    assert_eq!(aux.meter_id, "mock-source-aux-1");
    assert_eq!(aux.colour, "#54c6c0");
    assert_eq!((aux.personal_volume, aux.audience_volume), (72, 68));
    assert_eq!(aux.source_kind, MixerSourceKind::Virtual);

    mock_set_source_order(&mut s, "aux-1", 1).unwrap();
    assert_eq!(s.channels[1].id, "aux-1");
    mock_set_source_order(&mut s, "aux-1", 99).unwrap();
    assert_eq!(s.channels.last().unwrap().id, "aux-1");

    assert_eq!(
        message(mock_create_source(&mut s, "aux 1").unwrap_err()),
        "source already exists: aux 1"
    );
    assert_eq!(
        message(mock_create_source(&mut s, "   ").unwrap_err()),
        "source name must contain 1 to 64 characters"
    );

    mock_remove_source(&mut s, "game").unwrap();
    assert!(!s.channels.iter().any(|c| c.id == "game"));
    assert!(!s.routes.iter().any(|r| r.source_id == "game"));
    assert_eq!(s.applications[0].channel_id, None);
    assert_eq!(
        message(mock_remove_source(&mut s, "game").unwrap_err()),
        "unknown source channel: game"
    );
}

#[test]
fn invalid_gain_is_rejected() {
    let mut s = studio();
    let before = s.clone();
    let error = mock_set_microphone(
        &mut s,
        SetMicrophoneRequest { gain_db: Some(70), phantom_power: Some(true), muted: None },
    )
    .unwrap_err();
    assert!(message(error).contains("0 and 69"));
    assert_eq!(s, before);
    mock_set_microphone(
        &mut s,
        SetMicrophoneRequest { gain_db: Some(69), phantom_power: None, muted: Some(true) },
    )
    .unwrap();
    assert_eq!(s.microphone.gain_db, 69);
    assert!(!s.microphone.phantom_power);
    assert!(s.microphone.muted);
}

#[test]
fn link_assignments_name_a_known_application() {
    let mut s = studio();
    mock_set_link_assignment(&mut s, "Game", LinkChannel::Link3).unwrap();
    assert_eq!(s.linked_applications[0].channel, LinkChannel::Link3);
    assert_eq!(s.linked_applications[1].channel, LinkChannel::Link1);
    assert_eq!(
        message(mock_set_link_assignment(&mut s, "Music", LinkChannel::Link2).unwrap_err()),
        "unknown application: Music"
    );
}

#[test]
fn application_routes_move_the_name_between_sources() {
    let mut s = mixer();
    s.channels[1].applications = vec!["Steam".into(), "Discord".into(), "Game".into(), "Discord".into()];
    mock_set_application_route(&mut s, "discord", "Discord", Some("chat")).unwrap();
    assert_eq!(s.applications[0].channel_id.as_deref(), Some("chat"));
    assert_eq!(s.channels[2].applications, vec!["Discord".to_string()]);
    assert_eq!(s.channels[1].applications, vec!["Steam".to_string(), "Game".to_string()]);

    mock_set_application_route(&mut s, "discord", "Discord", Some("game")).unwrap();
    assert_eq!(
        s.channels[1].applications,
        vec!["Discord".to_string(), "Game".to_string(), "Steam".to_string()]
    );
    assert!(s.channels[2].applications.is_empty());

    mock_set_application_route(&mut s, "discord", "Discord", None).unwrap();
    assert_eq!(s.applications[0].channel_id, None);
    assert_eq!(s.channels[1].applications, vec!["Game".to_string(), "Steam".to_string()]);

    let before = s.clone();
    assert_eq!(
        message(mock_set_application_route(&mut s, "discord", "Discord", Some("nowhere")).unwrap_err()),
        "unknown channel: nowhere"
    );
    assert_eq!(
        message(mock_set_application_route(&mut s, "obs", "OBS", Some("game")).unwrap_err()),
        "unknown mixer application: obs/OBS"
    );
    assert_eq!(s, before);
}

#[test]
fn the_mock_mixer_starts_with_its_fixture() {
    let mixer = studiobridge::mock_state::mock_mixer_snapshot();
    assert_eq!(mixer.channels.len(), 7);
    let ids: Vec<&str> = mixer.channels.iter().map(|c| c.id.as_str()).collect();
    assert_eq!(ids, ["microphone", "chat", "music", "browser", "game", "system", "link-in"]);
    let game = &mixer.channels[4];
    assert_eq!(game.meter_id, "mock-source-game");
    assert_eq!(game.source_kind, studiobridge::model::MixerSourceKind::Physical);
    assert_eq!(game.applications, vec!["Game".to_string(), "Steam".to_string()]);
    assert_eq!(mixer.channels[1].source_kind, studiobridge::model::MixerSourceKind::Virtual);
    assert_eq!((mixer.channels[1].personal_volume, mixer.channels[1].audience_volume), (72, 68));
    assert_eq!(mixer.targets.len(), 4);
    assert_eq!(mixer.targets[0].volume, 62);
    assert_eq!(mixer.routes.len(), 2);
    assert_eq!(mixer.default_input.as_deref(), Some("voice-chat-mic"));
    assert_eq!(mixer.default_output.as_deref(), Some("headphones"));
    assert_eq!(mixer.applications[0].channel_id.as_deref(), Some("chat"));
}

#[test]
fn the_mock_studio_starts_with_its_fixture() {
    let studio = studiobridge::mock_state::mock_studio_snapshot();
    assert_eq!(studio.identity.serial.as_deref(), Some("MOCK-STUDIO-001"));
    assert_eq!(studio.microphone.gain_db, 48);
    assert_eq!(studio.headphones.volume, 62);
    assert_eq!(studio.linked_applications.len(), 3);
    assert_eq!(studio.linked_applications[2].name, "Browser");
}
