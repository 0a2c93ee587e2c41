use std::time::Duration;

use studiobridge::dsp::DspWriteModule;
use studiobridge::model::BridgeError;
use studiobridge::write_gate::{heartbeat_write_result, DspWriteGate, WritePolicy, LINK_HEARTBEAT};

fn nanos(duration: Duration) -> u64 {
    duration.as_nanos() as u64
}

#[test]
fn dsp_write_gate_is_exclusive_and_can_be_disarmed() {
    let mut gate = DspWriteGate::new();
    gate.arm_exclusive(DspWriteModule::Equalizer, nanos(Duration::from_secs(60))).unwrap();
    assert_eq!(gate.enabled_module().unwrap(), Some(DspWriteModule::Equalizer));

    gate.arm_exclusive(DspWriteModule::Compressor, nanos(Duration::from_secs(60))).unwrap();
    assert_eq!(gate.enabled_module().unwrap(), Some(DspWriteModule::Compressor));

    gate.disarm().unwrap();
    assert_eq!(gate.enabled_module().unwrap(), None);
}

#[test]
fn dsp_write_gate_expires() {
    let mut gate = DspWriteGate::new();
    gate.arm_exclusive(DspWriteModule::Equalizer, nanos(Duration::ZERO)).unwrap();
    assert_eq!(gate.enabled_module().unwrap(), None);
}

#[test]
fn lease_remaining_time_is_measured_from_arming() {
    let mut gate = DspWriteGate::new();
    gate.arm_exclusive_at(DspWriteModule::Expander, 1_000, 500);
    assert_eq!(gate.active_lease_at(1_200), Some((DspWriteModule::Expander, 300)));
    assert_eq!(gate.active_lease_at(1_500), None);
    assert_eq!(gate.active_lease_at(1_200), None);
}

#[test]
fn link_heartbeat_is_a_zero_payload_companion_packet() {
    assert_eq!(LINK_HEARTBEAT, [0x00, 0x00, 0x00, 0xAC]);
}

#[test]
fn short_heartbeat_writes_are_errors() {
    assert_eq!(heartbeat_write_result(4), Ok(()));
    assert_eq!(
        heartbeat_write_result(2),
        Err(BridgeError::Backend("short Link heartbeat write: 2/4 bytes".into()))
    );
}

#[test]
fn write_gate_rejects_requests_before_usb_access() {
    let policy = WritePolicy { allow_writes: false, link_control_enabled: false, enabled_dsp_writes: Vec::new() };
    let error = policy.ensure_writes_enabled().unwrap_err();
    assert!(error.message().contains("hardware writes are disabled"));
}

#[test]
fn link_gate_is_independent_from_general_hardware_writes() {
    let policy = WritePolicy { allow_writes: false, link_control_enabled: false, enabled_dsp_writes: Vec::new() };
    let error = policy.ensure_link_control_enabled().unwrap_err();
    assert!(error.message().contains("Link control is disabled"));
    let link_only = WritePolicy { allow_writes: false, link_control_enabled: true, enabled_dsp_writes: Vec::new() };
    assert!(link_only.ensure_link_control_enabled().is_ok());
    assert!(link_only.ensure_writes_enabled().is_err());
}

#[test]
fn dsp_write_gates_are_module_scoped() {
    let policy = WritePolicy {
        allow_writes: false,
        link_control_enabled: false,
        enabled_dsp_writes: vec![DspWriteModule::HeadphoneEqualizer],
    };
    let mut gate = DspWriteGate::new();
    policy.ensure_dsp_write_enabled(&mut gate, DspWriteModule::HeadphoneEqualizer).unwrap();
    let error = policy.ensure_dsp_write_enabled(&mut gate, DspWriteModule::Equalizer).unwrap_err();
    assert!(error.message().contains("equalizer writes are disabled"));
    gate.arm_exclusive(DspWriteModule::Equalizer, nanos(Duration::from_secs(60))).unwrap();
    assert!(policy.ensure_dsp_write_enabled(&mut gate, DspWriteModule::Equalizer).is_ok());
}

#[test]
fn the_live_lease_reports_its_remaining_nanoseconds() {
    let mut gate = DspWriteGate::new();
    gate.arm_exclusive(DspWriteModule::Expander, nanos(Duration::from_secs(60))).unwrap();
    let (module, remaining) = gate.active_lease().unwrap().unwrap();
    assert_eq!(module, DspWriteModule::Expander);
    assert!(remaining > 0 && remaining <= 60_000_000_000);
    gate.disarm().unwrap();
    assert_eq!(gate.active_lease().unwrap(), None);
}
