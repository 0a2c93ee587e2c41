use studiobridge::model::{
    BridgeError, MixBus, MixerApplication, MixerChannel, MixerDeviceChoice, MixerRoute,
    MixerSnapshot, MixerSourceKind, MixerTarget, MuteState,
};
use studiobridge::mock_state::{
    mock_create_source, mock_remove_source, mock_set_application_route, mock_set_default_input,
    mock_set_mute, mock_set_route,
    mock_set_source_order, mock_set_target_volume, mock_set_volume, mock_set_volume_linked,
};
use studiobridge::profile::disconnected_mixer;
use studiobridge::reconcile::{
    plan_routing_pass, plan_settings_pass, plan_source_pass, settings_inputs_resolvable,
    MixerCommand,
};

fn channel(id: &str, name: &str, kind: MixerSourceKind) -> MixerChannel {
    MixerChannel {
        id: id.into(),
        meter_id: format!("meter-{id}"),
        name: name.into(),
        colour: "#ffffff".into(),
        personal_volume: 50,
        audience_volume: 40,
        mute_state: MuteState::Unmuted,
        applications: vec![],
        source_kind: kind,
        volumes_linked: true,
        attached_devices: vec![],
    }
}

fn target(id: &str, mix: MixBus) -> MixerTarget {
    MixerTarget {
        id: id.into(),
        meter_id: format!("meter-{id}"),
        name: id.into(),
        mix,
        volume: 80,
        muted: false,
        attached_devices: vec![],
    }
}

fn route(source: &str, target: &str) -> MixerRoute {
    MixerRoute { source_id: source.into(), target_id: target.into() }
}

fn mixer() -> MixerSnapshot {
    let mut s = disconnected_mixer(BridgeError::BackendUnavailable("mock".into()));
    s.channels = vec![
        channel("system", "System", MixerSourceKind::Physical),
        channel("game", "Game", MixerSourceKind::Physical),
        channel("chat", "Chat", MixerSourceKind::Virtual),
    ];
    s.targets = vec![target("headphones", MixBus::Personal), target("vod-track", MixBus::Audience)];
    s.routes = vec![route("system", "headphones"), route("game", "headphones")];
    s.applications = vec![MixerApplication {
        process: "discord".into(),
        name: "Discord".into(),
        title: None,
        channel_id: Some("game".into()),
    }];
    s.default_inputs = vec![MixerDeviceChoice { id: "chat".into(), name: "Chat".into() }];
    s
}

#[test]
fn source_pass_removes_then_renames_then_creates() {
    let current = mixer();
    let mut desired = current.clone();
    desired.channels = vec![
        channel("system", "System", MixerSourceKind::Physical),
        channel("game", "Games", MixerSourceKind::Physical),
        channel("aux-1", "Aux 1", MixerSourceKind::Virtual),
    ];
    assert_eq!(
        plan_source_pass(&desired, &current),
        vec![
            MixerCommand::RemoveSource { source_id: "chat".into() },
            MixerCommand::SetSourceName { source_id: "game".into(), name: "Games".into() },
            MixerCommand::CreateSource { name: "Aux 1".into() },
        ]
    );
    assert!(plan_source_pass(&current, &current).is_empty());
}

#[test]
fn settings_pass_restores_every_source_and_target_setting_in_profile_order() {
    let mut current = mixer();
    current.channels.truncate(1);
    current.targets.truncate(1);
    let mut desired = current.clone();
    desired.channels[0].personal_volume = 13;
    desired.channels[0].mute_state = MuteState::MutedPersonal;
    desired.targets[0].volume = 17;
    desired.targets[0].muted = true;
    assert!(settings_inputs_resolvable(&desired, &current));
    let (commands, error) = plan_settings_pass(&desired, &current);
    assert_eq!(error, None);
    assert_eq!(
        commands,
        vec![
            MixerCommand::SetSourceOrder { source_id: "system".into(), position: 0 },
            MixerCommand::SetSourceColour { source_id: "system".into(), colour: "#ffffff".into() },
            MixerCommand::SetVolume { channel_id: "system".into(), mix: MixBus::Personal, volume: 13 },
            MixerCommand::SetVolume { channel_id: "system".into(), mix: MixBus::Audience, volume: 40 },
            MixerCommand::SetVolumeLinked { channel_id: "system".into(), linked: true },
            MixerCommand::SetMute { channel_id: "system".into(), state: MuteState::MutedPersonal },
            MixerCommand::SetSourceDevice { channel_id: "system".into(), device_node_id: None },
            MixerCommand::SetTargetVolume { target_id: "headphones".into(), volume: 17 },
            MixerCommand::SetTargetMute { target_id: "headphones".into(), muted: true },
            MixerCommand::SetTargetDevice { target_id: "headphones".into(), device_node_id: None },
        ]
    );
}

#[test]
fn settings_pass_stops_at_a_source_missing_after_reconciliation() {
    let mut current = mixer();
    current.channels.truncate(1);
    current.targets.clear();
    let mut desired = current.clone();
    desired.channels.push(channel("aux-1", "Aux 1", MixerSourceKind::Virtual));
    let (commands, error) = plan_settings_pass(&desired, &current);
    assert_eq!(commands.len(), 7);
    assert_eq!(
        error,
        Some(BridgeError::Backend(
            "profile source was not available after reconciliation: Aux 1".into()
        ))
    );
}

#[test]
fn routing_pass_sets_only_differing_routes_then_applications_then_defaults() {
    let current = mixer();
    let mut desired = current.clone();
    desired.routes = vec![route("system", "headphones"), route("chat", "vod-track")];
    desired.applications[0].channel_id = Some("chat".into());
    desired.default_input = Some("chat".into());
    assert_eq!(
        plan_routing_pass(&desired, &current),
        vec![
            MixerCommand::SetRoute {
                source_id: "game".into(),
                target_id: "headphones".into(),
                enabled: false,
            },
            MixerCommand::SetRoute {
                source_id: "chat".into(),
                target_id: "vod-track".into(),
                enabled: true,
            },
            MixerCommand::SetApplicationRoute {
                process: "discord".into(),
                name: "Discord".into(),
                channel_id: Some("chat".into()),
            },
            MixerCommand::SetDefaultInput { device_id: "chat".into() },
        ]
    );
}

#[test]
fn routing_pass_applied_to_the_mock_restores_routes_applications_and_defaults() {
    let current = mixer();
    let mut desired = current.clone();
    desired.routes = vec![route("chat", "vod-track"), route("system", "headphones"), route("chat", "headphones")];
    desired.applications[0].channel_id = Some("chat".into());
    desired.default_input = Some("chat".into());
    let mut state = current.clone();
    for command in plan_routing_pass(&desired, &current) {
        match command {
            MixerCommand::SetRoute { source_id, target_id, enabled } => {
                mock_set_route(&mut state, &source_id, &target_id, enabled).unwrap()
            }
            MixerCommand::SetApplicationRoute { process, name, channel_id } => {
                mock_set_application_route(&mut state, &process, &name, channel_id.as_deref()).unwrap()
            }
            MixerCommand::SetDefaultInput { device_id } => {
                mock_set_default_input(&mut state, &device_id).unwrap()
            }
            other => panic!("unexpected command {other:?}"),
        }
    }
    assert_eq!(state.applications[0].channel_id.as_deref(), Some("chat"));
    assert_eq!(state.default_input.as_deref(), Some("chat"));
    let mut pairs = state
        .routes
        .iter()
        .map(|r| (r.source_id.clone(), r.target_id.clone()))
        .collect::<Vec<_>>();
    pairs.sort();
    let mut wanted = desired
        .routes
        .iter()
        .map(|r| (r.source_id.clone(), r.target_id.clone()))
        .collect::<Vec<_>>();
    wanted.sort();
    assert_eq!(pairs, wanted);
}

#[test]
fn settings_pass_applied_to_the_mock_restores_target_volumes() {
    let current = mixer();
    let mut desired = current.clone();
    desired.targets = vec![target("vod-track", MixBus::Audience), target("headphones", MixBus::Personal)];
    desired.targets[0].volume = 5;
    desired.targets[1].volume = 95;
    let (commands, error) = plan_settings_pass(&desired, &current);
    assert_eq!(error, None);
    let mut state = current.clone();
    for command in commands {
        if let MixerCommand::SetTargetVolume { target_id, volume } = command {
            mock_set_target_volume(&mut state, &target_id, volume).unwrap();
        }
    }
    assert_eq!(state.targets[0].id, "headphones");
    assert_eq!(state.targets[0].volume, 95);
    assert_eq!(state.targets[1].volume, 5);
}

#[test]
fn settings_pass_applied_to_the_mock_restores_source_levels() {
    let current = mixer();
    let mut desired = current.clone();
    desired.channels[1].personal_volume = 7;
    desired.channels[1].audience_volume = 9;
    desired.channels[1].volumes_linked = false;
    desired.channels[1].mute_state = MuteState::MutedAudience;
    let (commands, error) = plan_settings_pass(&desired, &current);
    assert_eq!(error, None);
    let mut state = current.clone();
    for command in commands {
        match command {
            MixerCommand::SetVolume { channel_id, mix, volume } => {
                mock_set_volume(&mut state, &channel_id, mix, volume).unwrap()
            }
            MixerCommand::SetVolumeLinked { channel_id, linked } => {
                mock_set_volume_linked(&mut state, &channel_id, linked).unwrap()
            }
            MixerCommand::SetMute { channel_id, state: mute } => {
                mock_set_mute(&mut state, &channel_id, mute).unwrap()
            }
            _ => {}
        }
    }
    assert_eq!(state.channels[1].personal_volume, 7);
    assert_eq!(state.channels[1].audience_volume, 9);
    assert!(!state.channels[1].volumes_linked);
    assert_eq!(state.channels[1].mute_state, MuteState::MutedAudience);
    assert_eq!(state.channels[0], current.channels[0]);
}

#[test]
fn settings_pass_applied_to_the_mock_restores_source_order() {
    let current = mixer();
    let mut desired = current.clone();
    desired.channels = vec![current.channels[2].clone(), current.channels[0].clone(), current.channels[1].clone()];
    let (commands, error) = plan_settings_pass(&desired, &current);
    assert_eq!(error, None);
    let mut state = current.clone();
    for command in commands {
        if let MixerCommand::SetSourceOrder { source_id, position } = command {
            mock_set_source_order(&mut state, &source_id, position).unwrap();
        }
    }
    let ids: Vec<&str> = state.channels.iter().map(|c| c.id.as_str()).collect();
    assert_eq!(ids, ["chat", "system", "game"]);
}

#[test]
fn source_pass_applied_to_the_mock_leaves_the_kept_and_created_sources() {
    let current = mixer();
    let mut desired = current.clone();
    desired.channels = vec![
        channel("system", "System", MixerSourceKind::Physical),
        channel("game", "Game", MixerSourceKind::Physical),
        channel("aux-1", "Aux 1", MixerSourceKind::Virtual),
    ];
    let mut state = current.clone();
    for command in plan_source_pass(&desired, &current) {
        match command {
            MixerCommand::RemoveSource { source_id } => mock_remove_source(&mut state, &source_id).unwrap(),
            MixerCommand::CreateSource { name } => mock_create_source(&mut state, &name).unwrap(),
            other => panic!("unexpected command {other:?}"),
        }
    }
    let ids: Vec<&str> = state.channels.iter().map(|c| c.id.as_str()).collect();
    assert_eq!(ids, ["system", "game", "aux-1"]);
}
