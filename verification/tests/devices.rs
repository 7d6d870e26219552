//! Tests of the device descriptors and of the resonator-coupled device's
//! structural validation.

use roqoqo_iqm::circuit::{Circuit, Operation};
use roqoqo_iqm::devices::{
    AdonisDevice, DemoDevice, DenebDevice, IqmDevice, ResonatorFreeDevice,
};

/// An angle in radians, converted to the vendor's unit of turns and
/// carried as an IEEE-754 bit pattern.
fn turns(radians: f64) -> u64 {
    (radians / (2.0 * std::f64::consts::PI)).to_bits()
}

#[test]
fn test_validate_circuit_passes() {
    let device = DenebDevice::new();
    let mut circuit = Circuit::new();

    circuit.push(Operation::DefinitionBit { name: "ro".to_string(), length: 6, is_output: true });
    circuit.push(Operation::InputBit { name: "ro".to_string(), index: 2, value: true });
    circuit.push(Operation::RotateXY { qubit: 5, theta_turns: turns(0.5), phi_turns: turns(0.2) });
    circuit.push(Operation::RotateXY { qubit: 3, theta_turns: turns(0.5), phi_turns: turns(0.2) });
    circuit.push(Operation::SingleExcitationStore { qubit: 5, mode: 0 });
    circuit.push(Operation::CZQubitResonator { qubit: 3, mode: 0 });
    circuit.push(Operation::SingleExcitationLoad { qubit: 5, mode: 0 });
    circuit.push(Operation::RotateXY { qubit: 5, theta_turns: turns(0.5), phi_turns: turns(0.2) });

    let ok = device.validate_circuit(&circuit);
    assert!(ok.is_ok());
}

#[test]
fn test_validate_circuit_multiple_store() {
    let device = DenebDevice::new();
    let mut circuit = Circuit::new();

    circuit.push(Operation::RotateXY { qubit: 5, theta_turns: turns(0.5), phi_turns: turns(0.2) });
    circuit.push(Operation::SingleExcitationStore { qubit: 5, mode: 0 });
    circuit.push(Operation::RotateXY { qubit: 3, theta_turns: turns(0.5), phi_turns: turns(0.3) });
    circuit.push(Operation::SingleExcitationStore { qubit: 5, mode: 0 });
    circuit.push(Operation::RotateXY { qubit: 3, theta_turns: turns(0.5), phi_turns: turns(0.3) });

    let err = device.validate_circuit(&circuit);
    assert!(err.is_err());
}

#[test]
fn test_validate_circuit_multiple_load() {
    let device = DenebDevice::new();
    let mut circuit = Circuit::new();

    circuit.push(Operation::RotateXY { qubit: 5, theta_turns: turns(0.5), phi_turns: turns(0.5) });
    circuit.push(Operation::SingleExcitationStore { qubit: 5, mode: 0 });
    circuit.push(Operation::RotateXY { qubit: 3, theta_turns: turns(0.5), phi_turns: turns(0.3) });
    circuit.push(Operation::SingleExcitationLoad { qubit: 5, mode: 0 });
    circuit.push(Operation::RotateXY { qubit: 3, theta_turns: turns(0.5), phi_turns: turns(0.3) });
    circuit.push(Operation::SingleExcitationLoad { qubit: 5, mode: 0 });

    let err = device.validate_circuit(&circuit);
    assert!(err.is_err());
}

#[test]
fn test_validate_circuit_invalid_rotation() {
    let device = DenebDevice::new();
    let mut circuit = Circuit::new();

    circuit.push(Operation::RotateXY { qubit: 5, theta_turns: turns(0.5), phi_turns: turns(0.5) });
    circuit.push(Operation::SingleExcitationStore { qubit: 5, mode: 0 });
    circuit.push(Operation::RotateXY { qubit: 5, theta_turns: turns(0.5), phi_turns: turns(0.3) });
    circuit.push(Operation::SingleExcitationLoad { qubit: 5, mode: 0 });

    let err = device.validate_circuit(&circuit);
    assert!(err.is_err());
}

#[test]
fn store_then_load_then_rotate_passes() {
    let device = DenebDevice::new();
    let mut circuit = Circuit::new();

    circuit.push(Operation::SingleExcitationStore { qubit: 2, mode: 0 });
    circuit.push(Operation::SingleExcitationLoad { qubit: 2, mode: 0 });
    circuit.push(Operation::RotateXY { qubit: 2, theta_turns: turns(0.5), phi_turns: turns(0.0) });

    assert!(device.validate_circuit(&circuit).is_ok());
}

#[test]
fn store_then_rotate_then_load_fails() {
    let device = DenebDevice::new();
    let mut circuit = Circuit::new();

    circuit.push(Operation::SingleExcitationStore { qubit: 2, mode: 0 });
    circuit.push(Operation::RotateXY { qubit: 2, theta_turns: turns(0.5), phi_turns: turns(0.0) });
    circuit.push(Operation::SingleExcitationLoad { qubit: 2, mode: 0 });

    assert!(device.validate_circuit(&circuit).is_err());
}

#[test]
fn store_twice_fails() {
    let device = DenebDevice::new();
    let mut circuit = Circuit::new();

    circuit.push(Operation::SingleExcitationStore { qubit: 2, mode: 0 });
    circuit.push(Operation::SingleExcitationStore { qubit: 2, mode: 0 });

    assert!(device.validate_circuit(&circuit).is_err());
}

#[test]
fn device_gate_tables() {
    let deneb = DenebDevice::new();
    assert_eq!(deneb.number_qubits(), 6);
    assert_eq!(deneb.single_qubit_gate_time("RotateXY", 0), Some(1));
    assert_eq!(deneb.single_qubit_gate_time("RotateXY", 6), None);
    assert_eq!(deneb.single_qubit_gate_time("Hadamard", 0), None);
    assert_eq!(deneb.two_qubit_gate_time("CZQubitResonator", 3, 0), Some(1));
    assert_eq!(deneb.two_qubit_gate_time("SingleExcitationLoad", 3, 0), Some(1));
    assert_eq!(deneb.two_qubit_gate_time("SingleExcitationStore", 3, 1), None);
    assert!(deneb.two_qubit_edges().is_empty());

    let adonis = AdonisDevice::new();
    assert_eq!(adonis.number_qubits(), 6);
    assert_eq!(adonis.two_qubit_gate_time("CZQubitResonator", 2, 0), Some(1));
    assert_eq!(adonis.two_qubit_gate_time("SingleExcitationLoad", 5, 0), Some(1));
    assert_eq!(adonis.two_qubit_gate_time("SingleExcitationLoad", 2, 0), None);

    let demo = DemoDevice::new();
    assert_eq!(demo.number_qubits(), 5);
    assert_eq!(demo.two_qubit_gate_time("ControlledPauliZ", 0, 2), Some(1));
    assert_eq!(demo.two_qubit_gate_time("ControlledPauliZ", 2, 0), Some(1));
    assert_eq!(demo.two_qubit_gate_time("ControlledPauliZ", 0, 1), None);
    assert_eq!(demo.two_qubit_edges(), vec![(0, 2), (1, 2), (2, 3), (2, 4)]);

    let free = ResonatorFreeDevice::new();
    assert_eq!(free.number_qubits(), 6);
    assert_eq!(free.two_qubit_gate_time("ControlledPauliZ", 0, 5), Some(1));
    assert_eq!(free.two_qubit_gate_time("ControlledPauliZ", 0, 1), None);
    assert_eq!(free.two_qubit_edges(), vec![(0, 5), (1, 5), (2, 5), (3, 5), (4, 5)]);
}

#[test]
fn device_endpoints() {
    let mut deneb = DenebDevice::new();
    assert_eq!(
        deneb.remote_host(),
        "https://cocos.resonance.meetiqm.com/deneb/jobs".to_string()
    );
    assert_eq!(deneb.name(), "Deneb".to_string());
    deneb.set_endpoint_url("https://example.invalid/jobs".to_string());
    assert_eq!(deneb.remote_host(), "https://example.invalid/jobs".to_string());

    let mut adonis = AdonisDevice::new();
    assert_eq!(
        adonis.remote_host(),
        "https://cocos.resonance.meetiqm.com/adonis/jobs".to_string()
    );
    adonis.set_endpoint_url("https://example.invalid/adonis".to_string());
    assert_eq!(adonis.remote_host(), "https://example.invalid/adonis".to_string());

    let mut demo = DemoDevice::new();
    assert_eq!(demo.remote_host(), "https://demo.qc.iqm.fi/cocos/jobs".to_string());
    demo.set_endpoint_url("https://example.invalid/demo".to_string());
    assert_eq!(demo.remote_host(), "https://example.invalid/demo".to_string());

    let wrapped = IqmDevice::DenebDevice(DenebDevice::new());
    assert_eq!(wrapped.name(), "Deneb".to_string());
    assert_eq!(wrapped.number_qubits(), 6);
}

#[test]
fn rotation_after_load_does_not_taint_next_store() {
    let device = DenebDevice::new();
    let mut circuit = Circuit::new();

    // The rotation happens after the excitation came back, while nothing
    // is held in the resonator; a later store/load pair is legal.
    circuit.push(Operation::SingleExcitationStore { qubit: 1, mode: 0 });
    circuit.push(Operation::SingleExcitationLoad { qubit: 1, mode: 0 });
    circuit.push(Operation::RotateXY { qubit: 1, theta_turns: turns(0.5), phi_turns: turns(0.0) });
    circuit.push(Operation::SingleExcitationStore { qubit: 1, mode: 0 });
    circuit.push(Operation::SingleExcitationLoad { qubit: 1, mode: 0 });

    assert!(device.validate_circuit(&circuit).is_ok());
}
