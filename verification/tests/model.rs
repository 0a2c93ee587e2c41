use studiobridge::model::{
    beacn_link_output_slot, BridgeError, MixerCopyOutputAssignment, MixerPhysicalDeviceDescriptor,
};

#[test]
fn maps_alsa_ucm_line_order_to_beacn_link_slots() {
    for (line, slot) in [(4, 1), (3, 2), (2, 3), (1, 4)] {
        let descriptor = MixerPhysicalDeviceDescriptor {
            name: Some(format!("alsa_output.usb-BEACN_Studio__Line{line}__sink")),
            description: Some(format!("BEACN Studio Line{line}")),
        };
        assert_eq!(beacn_link_output_slot("", &descriptor), Some(slot));
    }
}

#[test]
fn rejects_non_beacn_and_non_link_outputs() {
    let unrelated = MixerPhysicalDeviceDescriptor {
        name: Some("alsa_output.interface_line4".into()),
        description: Some("Interface Line 4".into()),
    };
    let headphones = MixerPhysicalDeviceDescriptor {
        name: Some("alsa_output.beacn_studio_headphones".into()),
        description: Some("BEACN Studio Headphones".into()),
    };
    assert_eq!(beacn_link_output_slot("", &unrelated), None);
    assert_eq!(beacn_link_output_slot("", &headphones), None);
}

#[test]
fn link_slot_reads_the_node_name_too() {
    let bare = MixerPhysicalDeviceDescriptor { name: None, description: None };
    assert_eq!(beacn_link_output_slot("BEACN Link 2", &bare), Some(2));
    assert_eq!(beacn_link_output_slot("", &bare), None);
}

#[test]
fn legacy_copy_output_absence_is_distinct_from_explicit_nothing() {
    let legacy: Vec<MixerCopyOutputAssignment> = Vec::new();
    let explicit = vec![MixerCopyOutputAssignment { target_id: "voice-chat-mic".into(), output: None }];
    assert!(legacy.is_empty());
    assert_eq!(
        explicit,
        vec![MixerCopyOutputAssignment { target_id: "voice-chat-mic".into(), output: None }]
    );
}

#[test]
fn bridge_errors_name_their_category() {
    assert_eq!(BridgeError::InvalidValue("x".into()).message(), "invalid value: x");
    assert_eq!(BridgeError::BackendUnavailable("y".into()).message(), "backend unavailable: y");
    assert_eq!(BridgeError::Backend("z".into()).message(), "backend error: z");
}
