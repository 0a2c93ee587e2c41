use studiobridge::model::{
    AppSnapshot, BridgeError, LinkChannel, LinkedApplication, MixBus, MixerApplication,
    MixerChannel, MixerDeviceChoice, MixerLinkOutputAssignment, MixerPhysicalDeviceChoice,
    MixerPhysicalDeviceDescriptor, MixerRoute, MixerSourceKind,
    MixerTarget, MuteState,
};
use studiobridge::profile::{disconnected_mixer, disconnected_studio};
use studiobridge::view::snapshot_view;

fn channel(id: &str, name: &str) -> MixerChannel {
    MixerChannel {
        id: id.into(),
        meter_id: format!("m-{id}"),
        name: name.into(),
        colour: "#fff".into(),
        personal_volume: 50,
        audience_volume: 50,
        mute_state: MuteState::Unmuted,
        applications: vec![],
        source_kind: MixerSourceKind::Virtual,
        volumes_linked: true,
        attached_devices: vec![],
    }
}

fn target(id: &str, name: &str) -> MixerTarget {
    MixerTarget {
        id: id.into(),
        meter_id: format!("m-{id}"),
        name: name.into(),
        mix: MixBus::Audience,
        volume: 100,
        muted: false,
        attached_devices: vec![],
    }
}

fn snapshot() -> AppSnapshot {
    let mut mixer = disconnected_mixer(BridgeError::Backend("x".into()));
    mixer.channels = vec![channel("game", "Game"), channel("chat", "Chat")];
    mixer.targets = vec![
        target("custom", "Custom"),
        target("vod", "VOD Track"),
        target("phones", "Headphones"),
    ];
    mixer.routes = vec![MixerRoute { source_id: "chat".into(), target_id: "phones".into() }];
    mixer.applications = vec![
        MixerApplication { process: "d".into(), name: "Discord".into(), title: None, channel_id: Some("chat".into()) },
        MixerApplication { process: "s".into(), name: "Spotify".into(), title: None, channel_id: Some("gone".into()) },
        MixerApplication { process: "f".into(), name: "Firefox".into(), title: None, channel_id: None },
    ];
    mixer.link_outputs = vec![MixerLinkOutputAssignment {
        slot: 2,
        node_id: 77,
        name: "Link 2 Out".into(),
        target_id: Some("vod".into()),
    }];
    mixer.default_inputs = vec![
        MixerDeviceChoice { id: "a".into(), name: "A".into() },
        MixerDeviceChoice { id: "b".into(), name: "B".into() },
    ];
    mixer.default_input = Some("b".into());
    mixer.default_output = Some("nowhere".into());
    let mut studio = disconnected_studio(BridgeError::Backend("x".into()));
    studio.linked_applications = vec![
        LinkedApplication { name: "Game".into(), channel: LinkChannel::Link3 },
        LinkedApplication { name: "Steam".into(), channel: LinkChannel::System },
    ];
    AppSnapshot { studio, mixer }
}

#[test]
fn targets_are_shown_in_display_order_and_the_grid_follows_it() {
    let view = snapshot_view(&snapshot(), &["Stream".to_string()]);
    assert_eq!(view.target_order, vec![2, 1, 0]);
    assert_eq!(view.routes.len(), 6);
    let first = &view.routes[0];
    assert_eq!((first.source_id.as_str(), first.target_id.as_str(), first.row, first.column), ("game", "phones", 0, 0));
    assert!(!first.enabled);
    assert!(view.routes[1].enabled);
    assert_eq!(view.routes[1].source_id, "chat");
    assert_eq!(view.routes[5].target_id, "custom");
    assert!(view.routes.iter().filter(|cell| cell.enabled).count() == 1);
}

#[test]
fn link_rows_cover_the_four_slots() {
    let view = snapshot_view(&snapshot(), &[]);
    assert_eq!(view.link_outputs.len(), 4);
    let labels: Vec<&str> = view.link_outputs.iter().map(|row| row.label.as_str()).collect();
    assert_eq!(labels, ["Link Out", "Link 2 Out", "Link 3 Out", "Link 4 Out"]);
    assert!(!view.link_outputs[0].available);
    assert_eq!(view.link_outputs[0].node_id, None);
    assert!(view.link_outputs[1].available);
    assert_eq!(view.link_outputs[1].node_id, Some(77));
    assert_eq!(view.link_outputs[1].target_index, 2);
    assert_eq!(view.link_outputs[3].target_index, 0);
}

#[test]
fn applications_devices_and_hotkeys_are_placed() {
    let view = snapshot_view(&snapshot(), &["Stream".to_string(), "Chill".to_string()]);
    assert_eq!(view.application_columns, vec![2, 0, 0]);
    assert_eq!(view.link_application_columns, vec![3, 0]);
    assert_eq!(view.default_input_index, Some(1));
    assert_eq!(view.default_output_index, None);
    let rows: Vec<(&str, &str, &str)> = view
        .hotkeys
        .iter()
        .map(|row| (row.section.as_str(), row.label.as_str(), row.action.as_str()))
        .collect();
    assert_eq!(
        rows,
        [
            ("MIX DEVICES", "Toggle Personal Mix Device", "mix:toggle-personal-device"),
            ("MIXER PROFILES", "Stream", "profile:Stream"),
            ("", "Chill", "profile:Chill"),
            ("MUTES", "Game - Mute", "mute:game"),
            ("", "Chat - Mute", "mute:chat"),
        ]
    );
}

#[test]
fn source_rows_follow_the_channels() {
    let mut s = snapshot();
    s.mixer.channels[0].colour = "#12abEF".into();
    s.mixer.channels[0].mute_state = MuteState::MutedPersonal;
    s.mixer.channels[0].applications = vec!["Game A".into(), "Game B".into()];
    s.mixer.channels[1].colour = "fff".into();
    s.mixer.channels[1].source_kind = MixerSourceKind::Physical;
    s.mixer.channels[1].mute_state = MuteState::MutedAll;
    s.mixer.channels[1].attached_devices = vec![
        MixerPhysicalDeviceDescriptor { name: Some("none".into()), description: None },
        MixerPhysicalDeviceDescriptor { name: Some("mic".into()), description: None },
    ];
    s.mixer.physical_inputs = vec![
        MixerPhysicalDeviceChoice {
            node_id: 1,
            name: "Other".into(),
            descriptor: MixerPhysicalDeviceDescriptor { name: Some("other".into()), description: None },
        },
        MixerPhysicalDeviceChoice {
            node_id: 2,
            name: "Mic".into(),
            descriptor: MixerPhysicalDeviceDescriptor { name: Some("mic".into()), description: None },
        },
    ];
    let view = snapshot_view(&s, &[]);
    assert_eq!(view.target_order.len(), 3);
    assert_eq!(view.sources.len(), 2);
    let game = &view.sources[0];
    assert_eq!(game.channel_id, "game");
    assert_eq!(game.meter_id, "m-game");
    assert_eq!(game.name, "Game");
    assert_eq!(game.detail, "Game A\nGame B");
    assert_eq!(game.colour, 0xff12_abef);
    assert!(game.personal_muted);
    assert!(!game.audience_muted);
    assert!(!game.physical);
    assert_eq!(game.input_device_index, None);
    let chat = &view.sources[1];
    assert_eq!(chat.detail, "Physical input");
    assert_eq!(chat.colour, 0xff58_d5cb);
    assert!(chat.personal_muted && chat.audience_muted);
    assert!(chat.physical);
    assert_eq!(chat.input_device_index, Some(1));
}

#[test]
fn source_colours_are_read_as_hexadecimal_after_a_hash() {
    let mut s = snapshot();
    let cases = [
        ("#+ff", 0xff00_00ffu32),
        ("#", 0xff58_d5cb),
        ("#+", 0xff58_d5cb),
        ("#ffffffff", 0xffff_ffff),
        ("#1ffffffff", 0xff58_d5cb),
        ("#12g4", 0xff58_d5cb),
        ("#ABCDEF", 0xffab_cdef),
    ];
    for (text, expected) in cases {
        s.mixer.channels[0].colour = text.into();
        assert_eq!(snapshot_view(&s, &[]).sources[0].colour, expected, "{text}");
    }
}
