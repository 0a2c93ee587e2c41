use studiobridge::model::{
    BackendStatus, BridgeError, MixBus, MixerChannel, MixerDeviceChoice,
    MixerPhysicalDeviceDescriptor, MixerRoute, MixerSnapshot, MixerSourceKind, MixerTarget,
    MuteState,
};
use studiobridge::profile::{
    current_channel_for_desired, disconnected_mixer, disconnected_studio, first_match_index,
    mixer_channels_match, physical_device_matches, valid_mixer_colour, validate_mixer_profile,
};

fn channel(id: &str, name: &str, kind: MixerSourceKind) -> MixerChannel {
    MixerChannel {
        id: id.into(),
        meter_id: format!("meter-{id}"),
        name: name.into(),
        colour: "#ffffff".into(),
        personal_volume: 50,
        audience_volume: 50,
        mute_state: MuteState::Unmuted,
        applications: vec![],
        source_kind: kind,
        volumes_linked: true,
        attached_devices: vec![],
    }
}

fn target(id: &str, mix: MixBus) -> MixerTarget {
    MixerTarget {
        id: id.into(),
        meter_id: format!("meter-{id}"),
        name: id.into(),
        mix,
        volume: 80,
        muted: false,
        attached_devices: vec![],
    }
}

fn mixer() -> MixerSnapshot {
    let mut s = disconnected_mixer(BridgeError::BackendUnavailable("offline".into()));
    s.status = BackendStatus::Mock;
    s.channels = vec![
        channel("system", "System", MixerSourceKind::Physical),
        channel("game", "Game", MixerSourceKind::Physical),
        channel("chat", "Chat", MixerSourceKind::Virtual),
    ];
    s.targets = vec![target("headphones", MixBus::Personal), target("vod-track", MixBus::Audience)];
    s.routes = vec![MixerRoute { source_id: "system".into(), target_id: "headphones".into() }];
    s.default_inputs = vec![MixerDeviceChoice { id: "chat".into(), name: "Chat".into() }];
    s
}

fn rejection(desired: &MixerSnapshot, current: &MixerSnapshot) -> String {
    match validate_mixer_profile(desired, current) {
        Err(BridgeError::InvalidValue(message)) => message,
        other => panic!("expected a rejected profile, got {other:?}"),
    }
}

#[test]
fn the_current_mixer_is_a_valid_profile_for_itself() {
    let current = mixer();
    assert_eq!(validate_mixer_profile(&current, &current), Ok(()));
}

#[test]
fn invalid_profile_is_rejected_before_any_mixer_mutation() {
    let current = mixer();
    let mut invalid = current.clone();
    invalid.channels[0].attached_devices = vec![MixerPhysicalDeviceDescriptor {
        name: Some("alsa_input.missing".into()),
        description: Some("Missing input".into()),
    }];
    let message = rejection(&invalid, &current);
    assert!(message.contains("physical input is unavailable"));
    assert_eq!(message, "profile physical input is unavailable: System");
}

#[test]
fn source_problems_are_named() {
    let current = mixer();
    let mut desired = current.clone();
    desired.channels[1].colour = "#12345".into();
    assert_eq!(rejection(&desired, &current), "profile source has an invalid colour: Game");

    let mut desired = current.clone();
    desired.channels[2].personal_volume = 101;
    assert_eq!(rejection(&desired, &current), "profile source volume is outside 0 to 100: Chat");

    let mut desired = current.clone();
    desired.channels.push(channel("game", "Other", MixerSourceKind::Virtual));
    assert_eq!(rejection(&desired, &current), "profile contains duplicate source id: game");

    let mut desired = current.clone();
    desired.channels.push(channel("mic", "Microphone", MixerSourceKind::Physical));
    assert_eq!(rejection(&desired, &current), "profile physical source is unavailable: Microphone");

    let mut desired = current.clone();
    desired.channels[2].name = "   ".into();
    assert_eq!(
        rejection(&desired, &current),
        "profile source names must contain 1 to 64 characters"
    );
}

#[test]
fn target_route_and_default_problems_are_named() {
    let current = mixer();
    let mut desired = current.clone();
    desired.targets.push(target("ghost", MixBus::Audience));
    assert_eq!(rejection(&desired, &current), "profile target is unavailable: ghost");

    let mut desired = current.clone();
    desired.routes.push(MixerRoute { source_id: "chat".into(), target_id: "nowhere".into() });
    assert_eq!(
        rejection(&desired, &current),
        "profile route references an unavailable endpoint: chat -> nowhere"
    );

    let mut desired = current.clone();
    desired.default_input = Some("ghost-input".into());
    assert_eq!(rejection(&desired, &current), "profile default input is unavailable: ghost-input");

    let mut with_default = current.clone();
    with_default.default_input = Some("chat".into());
    assert_eq!(
        rejection(&current, &with_default),
        "profile would require clearing the default input, which PipeWeaver does not support"
    );
}

#[test]
fn colours_are_three_or_six_hex_digits() {
    assert!(valid_mixer_colour("#abc"));
    assert!(valid_mixer_colour("A1B2C3"));
    assert!(!valid_mixer_colour("#abcd"));
    assert!(!valid_mixer_colour("#ggg"));
    assert!(!valid_mixer_colour(""));
    assert!(!valid_mixer_colour("#"));
}

#[test]
fn sources_match_by_meter_id_or_virtual_name() {
    let virtual_chat = channel("chat", "Chat", MixerSourceKind::Virtual);
    let mut renamed = channel("chat-2", "CHAT", MixerSourceKind::Virtual);
    renamed.meter_id = "other".into();
    assert!(mixer_channels_match(&virtual_chat, &renamed));

    let physical = channel("system", "System", MixerSourceKind::Physical);
    let mut other = channel("line", "System", MixerSourceKind::Physical);
    other.meter_id = "line-meter".into();
    assert!(!mixer_channels_match(&physical, &other));
    let mut same_meter = other.clone();
    same_meter.meter_id = physical.meter_id.clone();
    assert!(mixer_channels_match(&physical, &same_meter));
    assert!(!mixer_channels_match(&physical, &virtual_chat));

    let current = mixer().channels;
    assert_eq!(first_match_index(&renamed, &current), Some(2));
    assert_eq!(current_channel_for_desired(&renamed, &current).unwrap().id, "chat");
    assert!(current_channel_for_desired(&other, &current).is_none());
}

#[test]
fn devices_match_by_node_name_then_description() {
    let named = |name: &str, description: &str| MixerPhysicalDeviceDescriptor {
        name: Some(name.into()),
        description: Some(description.into()),
    };
    assert!(physical_device_matches(&named("a", "x"), &named("a", "y")));
    assert!(!physical_device_matches(&named("a", "x"), &named("b", "x")));
    let described = MixerPhysicalDeviceDescriptor { name: None, description: Some("x".into()) };
    assert!(physical_device_matches(&described, &named("b", "x")));
    let empty = MixerPhysicalDeviceDescriptor { name: None, description: None };
    assert!(!physical_device_matches(&empty, &empty));
}

#[test]
fn disconnected_snapshots_carry_the_error_text() {
    let mixer = disconnected_mixer(BridgeError::BackendUnavailable("PipeWeaver is offline".into()));
    assert_eq!(mixer.status, BackendStatus::Error);
    assert_eq!(mixer.error.as_deref(), Some("backend unavailable: PipeWeaver is offline"));
    assert_eq!(mixer.engine, "PipeWeaver");
    let studio = disconnected_studio(BridgeError::Backend("usb".into()));
    assert_eq!(studio.identity.error.as_deref(), Some("backend error: usb"));
    assert_eq!(studio.identity.product, "BEACN Studio");
}
