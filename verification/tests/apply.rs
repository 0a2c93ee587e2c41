use studiobridge::apply::{ApplyAction, ApplyEvent, ApplyStage, ProfileApplication};
use studiobridge::model::{
    BridgeError, MixBus, MixerChannel, MixerRoute, MixerSnapshot, MixerSourceKind, MixerTarget,
    MuteState,
};
use studiobridge::profile::disconnected_mixer;
use studiobridge::reconcile::MixerCommand;

fn channel(id: &str, name: &str, kind: MixerSourceKind) -> MixerChannel {
    MixerChannel {
        id: id.into(),
        meter_id: format!("meter-{id}"),
        name: name.into(),
        colour: "#ffffff".into(),
        personal_volume: 50,
        audience_volume: 40,
        mute_state: MuteState::Unmuted,
        applications: vec![],
        source_kind: kind,
        volumes_linked: true,
        attached_devices: vec![],
    }
}

fn mixer() -> MixerSnapshot {
    let mut s = disconnected_mixer(BridgeError::BackendUnavailable("mock".into()));
    s.channels = vec![channel("game", "Game", MixerSourceKind::Physical), channel("chat", "Chat", MixerSourceKind::Virtual)];
    s.targets = vec![MixerTarget {
        id: "headphones".into(),
        meter_id: "meter-headphones".into(),
        name: "Headphones".into(),
        mix: MixBus::Personal,
        volume: 80,
        muted: false,
        attached_devices: vec![],
    }];
    s.routes = vec![MixerRoute { source_id: "game".into(), target_id: "headphones".into() }];
    s
}

fn commands(action: ApplyAction) -> Vec<MixerCommand> {
    match action {
        ApplyAction::Run(commands) => commands,
        _ => panic!("expected commands"),
    }
}

#[test]
fn a_profile_is_validated_then_applied_pass_by_pass() {
    let current = mixer();
    let mut desired = current.clone();
    desired.channels[1].personal_volume = 10;
    desired.routes.clear();
    let (mut app, action) = ProfileApplication::start(desired);
    assert!(matches!(action, ApplyAction::ReadSnapshot));
    assert_eq!(app.stage(), ApplyStage::ReadingForValidation);
    assert!(commands(app.step(ApplyEvent::Snapshot(current.clone()))).is_empty());
    assert!(matches!(app.step(ApplyEvent::CommandsRan), ApplyAction::ReadSnapshot));
    let settings = commands(app.step(ApplyEvent::Snapshot(current.clone())));
    assert!(settings.contains(&MixerCommand::SetVolume {
        channel_id: "chat".into(),
        mix: MixBus::Personal,
        volume: 10
    }));
    assert!(matches!(app.step(ApplyEvent::CommandsRan), ApplyAction::ReadSnapshot));
    let routing = commands(app.step(ApplyEvent::Snapshot(current)));
    assert_eq!(
        routing,
        vec![MixerCommand::SetRoute {
            source_id: "game".into(),
            target_id: "headphones".into(),
            enabled: false
        }]
    );
    assert!(matches!(app.step(ApplyEvent::CommandsRan), ApplyAction::Finish(Ok(()))));
    assert_eq!(app.stage(), ApplyStage::Finished);
}

#[test]
fn an_invalid_profile_runs_no_command() {
    let current = mixer();
    let mut desired = current.clone();
    desired.channels[1].personal_volume = 101;
    let (mut app, _) = ProfileApplication::start(desired);
    match app.step(ApplyEvent::Snapshot(current)) {
        ApplyAction::Finish(Err(BridgeError::InvalidValue(_))) => {}
        _ => panic!("expected a validation error"),
    }
    assert_eq!(app.stage(), ApplyStage::Finished);
}

#[test]
fn a_failure_ends_the_application_with_its_error() {
    let current = mixer();
    let (mut app, _) = ProfileApplication::start(current.clone());
    app.step(ApplyEvent::Snapshot(current));
    match app.step(ApplyEvent::Failed(BridgeError::Backend("boom".into()))) {
        ApplyAction::Finish(Err(BridgeError::Backend(m))) => assert_eq!(m, "boom"),
        _ => panic!("expected the failure"),
    }
}

#[test]
fn a_source_missing_after_the_source_pass_ends_after_the_settings_commands() {
    let current = mixer();
    let (mut app, _) = ProfileApplication::start(current.clone());
    app.step(ApplyEvent::Snapshot(current.clone()));
    app.step(ApplyEvent::CommandsRan);
    let mut after = current.clone();
    after.channels.truncate(1);
    app.step(ApplyEvent::Snapshot(after));
    match app.step(ApplyEvent::CommandsRan) {
        ApplyAction::Finish(Err(BridgeError::Backend(m))) => {
            assert_eq!(m, "profile source was not available after reconciliation: Chat")
        }
        _ => panic!("expected the missing source"),
    }
}
