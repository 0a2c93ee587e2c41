use studiobridge::model::{
    BridgeError, MixBus, MixerPhysicalDeviceChoice, MixerPhysicalDeviceDescriptor, MixerTarget,
    MuteState,
};
use studiobridge::pipeweaver::{link_output_assignments, mute_targets, parse_device_id};

#[test]
fn mute_states_map_to_personal_and_audience_targets() {
    assert_eq!(mute_targets(MuteState::Unmuted), (false, false));
    assert_eq!(mute_targets(MuteState::MutedAll), (true, true));
    assert_eq!(mute_targets(MuteState::MutedAudience), (false, true));
    assert_eq!(mute_targets(MuteState::MutedPersonal), (true, false));
}

#[test]
fn device_ids_are_ulids() {
    assert_eq!(parse_device_id("00000000000000000000000001").unwrap(), 1);
    assert_eq!(parse_device_id("0000000000000000000000000A").unwrap(), 10);
    match parse_device_id("not-a-ulid") {
        Err(BridgeError::InvalidValue(message)) => {
            assert_eq!(message, "invalid PipeWeaver device id: not-a-ulid")
        }
        other => panic!("unexpected {other:?}"),
    }
}

fn descriptor(name: &str, description: &str) -> MixerPhysicalDeviceDescriptor {
    MixerPhysicalDeviceDescriptor {
        name: Some(name.into()),
        description: Some(description.into()),
    }
}

fn output(node_id: u32, name: &str, description: &str) -> MixerPhysicalDeviceChoice {
    MixerPhysicalDeviceChoice {
        node_id,
        name: name.into(),
        descriptor: descriptor(name, description),
    }
}

fn target(id: &str, attached: Vec<MixerPhysicalDeviceDescriptor>) -> MixerTarget {
    MixerTarget {
        id: id.into(),
        meter_id: id.into(),
        name: id.into(),
        mix: MixBus::Personal,
        volume: 100,
        muted: false,
        attached_devices: attached,
    }
}

#[test]
fn link_outputs_are_listed_in_slot_order_with_their_targets() {
    let outputs = vec![
        output(7, "alsa_output.beacn_studio.line1", "BEACN Studio Line 1"),
        output(3, "alsa_output.other", "Speakers"),
        output(5, "alsa_output.beacn_studio.line4", "BEACN Studio Line 4"),
    ];
    let targets = vec![
        target("speakers", vec![]),
        target(
            "stream",
            vec![descriptor("alsa_output.beacn_studio.line4", "BEACN Studio Line 4")],
        ),
    ];
    let assignments = link_output_assignments(&targets, &outputs);
    assert_eq!(assignments.len(), 2);
    assert_eq!(assignments[0].slot, 1);
    assert_eq!(assignments[0].node_id, 5);
    assert_eq!(assignments[0].name, "Link Out");
    assert_eq!(assignments[0].target_id.as_deref(), Some("stream"));
    assert_eq!(assignments[1].slot, 4);
    assert_eq!(assignments[1].node_id, 7);
    assert_eq!(assignments[1].name, "Link 4 Out");
    assert_eq!(assignments[1].target_id, None);
}

#[test]
fn outputs_without_beacn_are_never_link_outputs() {
    let outputs = vec![output(1, "line4", "Line 4")];
    assert!(link_output_assignments(&[], &outputs).is_empty());
}

#[test]
fn device_ids_decode_crockford_digits_in_either_case() {
    assert_eq!(parse_device_id("7ZZZZZZZZZZZZZZZZZZZZZZZZZ").unwrap(), u128::MAX);
    assert_eq!(parse_device_id("7zzzzzzzzzzzzzzzzzzzzzzzzz").unwrap(), u128::MAX);
    assert_eq!(parse_device_id("80000000000000000000000000").unwrap(), 0);
    assert_eq!(
        parse_device_id("2D9RW50MA499CMAGHM6DD42DTP").unwrap(),
        0x4d4e385051444a59454234335a413756
    );
    assert!(parse_device_id("0000000000000000000000000U").is_err());
    assert!(parse_device_id("000000000000000000000000001").is_err());
}
