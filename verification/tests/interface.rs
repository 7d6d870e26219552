//! Tests of the circuit-to-wire-format translation.

use std::f64::consts::PI;

use roqoqo_iqm::circuit::{Circuit, LoopRepetitions, Operation};
use roqoqo_iqm::interface::{call_circuit, call_operation, IqmArgument, IqmCircuit, IqmInstruction};
use roqoqo_iqm::registers::{MeasuredQubitsMap, RegisterRecord};
use roqoqo_iqm::{IqmBackendError, RoqoqoBackendError};

/// An angle in radians, converted to the vendor's unit of turns and
/// carried as an IEEE-754 bit pattern.
fn turns(radians: f64) -> u64 {
    (radians / (2.0 * PI)).to_bits()
}

#[test]
fn test_call_operation_rotate_xy() {
    let operation = Operation::RotateXY { qubit: 1, theta_turns: turns(PI), phi_turns: turns(PI) };
    let expected = IqmInstruction {
        name: "prx".to_string(),
        qubits: vec!["QB2".to_string()],
        args: vec![
            ("angle_t".to_string(), IqmArgument::Number(0.5f64.to_bits())),
            ("phase_t".to_string(), IqmArgument::Number(0.5f64.to_bits())),
        ],
    };
    assert_eq!(call_operation(&operation).unwrap().unwrap(), expected);
}

#[test]
fn test_call_operation_controlled_pauli_z() {
    let operation = Operation::ControlledPauliZ { control: 1, target: 2 };
    let expected = IqmInstruction {
        name: "cz".to_string(),
        qubits: vec!["QB2".to_string(), "QB3".to_string()],
        args: vec![],
    };
    assert_eq!(call_operation(&operation).unwrap().unwrap(), expected);
}

#[test]
fn test_call_operation_cz_qubit_resonator() {
    let operation = Operation::CZQubitResonator { qubit: 1, mode: 0 };
    let expected = IqmInstruction {
        name: "cz".to_string(),
        qubits: vec!["QB2".to_string(), "COMP_R".to_string()],
        args: vec![],
    };
    assert_eq!(call_operation(&operation).unwrap().unwrap(), expected);
}

#[test]
fn test_call_operation_single_excitation_load() {
    let operation = Operation::SingleExcitationLoad { qubit: 5, mode: 0 };
    let expected = IqmInstruction {
        name: "move".to_string(),
        qubits: vec!["QB6".to_string(), "COMP_R".to_string()],
        args: vec![],
    };
    assert_eq!(call_operation(&operation).unwrap().unwrap(), expected);
}

#[test]
fn test_call_operation_single_excitation_store() {
    let operation = Operation::SingleExcitationStore { qubit: 5, mode: 0 };
    let expected = IqmInstruction {
        name: "move".to_string(),
        qubits: vec!["QB6".to_string(), "COMP_R".to_string()],
        args: vec![],
    };
    assert_eq!(call_operation(&operation).unwrap().unwrap(), expected);
}

#[test]
fn test_call_operation_unsupported_cnot() {
    let operation = Operation::TwoQubitGate { hqslang: "CNOT".to_string(), control: 0, target: 1 };
    match call_operation(&operation) {
        Err(RoqoqoBackendError::OperationNotInBackend { .. }) => {}
        _ => panic!("Not the right error"),
    }
}

#[test]
fn test_call_operation_unsupported_rotate_x() {
    let operation = Operation::SingleQubitGate { hqslang: "RotateX".to_string(), qubit: 0 };
    match call_operation(&operation) {
        Err(RoqoqoBackendError::OperationNotInBackend { .. }) => {}
        _ => panic!("Not the right error"),
    }
}

#[test]
fn test_call_operation_unsupported_hadamard() {
    let operation = Operation::SingleQubitGate { hqslang: "Hadamard".to_string(), qubit: 0 };
    match call_operation(&operation) {
        Err(RoqoqoBackendError::OperationNotInBackend { .. }) => {}
        _ => panic!("Not the right error"),
    }
}

#[test]
fn test_call_circuit_single_measurement() {
    let mut circuit = Circuit::new();
    let register_length = 3;
    let readout_name = "ro".to_string();
    circuit.push(Operation::ControlledPauliZ { control: 0, target: 1 });
    circuit.push(Operation::RotateXY { qubit: 0, theta_turns: turns(PI), phi_turns: turns(PI) });
    circuit.push(Operation::DefinitionBit {
        name: readout_name.clone(),
        length: register_length,
        is_output: true,
    });
    circuit.push(Operation::MeasureQubit { qubit: 0, readout: readout_name.clone(), readout_index: 0 });
    circuit.push(Operation::MeasureQubit { qubit: 1, readout: readout_name.clone(), readout_index: 1 });
    let res = call_circuit(&circuit, 2, None, 1).unwrap().0;

    let cz_instruction = IqmInstruction {
        name: "cz".to_string(),
        qubits: vec!["QB1".to_string(), "QB2".to_string()],
        args: vec![],
    };
    let xy_instruction = IqmInstruction {
        name: "prx".to_string(),
        qubits: vec!["QB1".to_string()],
        args: vec![
            ("angle_t".to_string(), IqmArgument::Number(0.5f64.to_bits())),
            ("phase_t".to_string(), IqmArgument::Number(0.5f64.to_bits())),
        ],
    };
    let meas_instruction = IqmInstruction {
        name: "measure".to_string(),
        qubits: vec!["QB1".to_string(), "QB2".to_string()],
        args: vec![("key".to_string(), IqmArgument::Text(readout_name.clone()))],
    };
    let res_expected = IqmCircuit {
        name: String::from("qc_1"),
        instructions: vec![cz_instruction, xy_instruction, meas_instruction],
        metadata: Some(MeasuredQubitsMap {
            entries: vec![RegisterRecord {
                name: readout_name,
                qubits: vec![0, 1],
                length: register_length,
            }],
        }),
    };

    assert_eq!(res, res_expected);
}

#[test]
fn test_call_circuit_single_measurement_load_store() {
    let mut circuit = Circuit::new();
    let register_length = 3;
    let readout_name = "ro".to_string();
    circuit.push(Operation::ControlledPauliZ { control: 0, target: 1 });
    circuit.push(Operation::RotateXY { qubit: 0, theta_turns: turns(PI), phi_turns: turns(PI) });
    circuit.push(Operation::SingleExcitationStore { qubit: 3, mode: 0 });
    circuit.push(Operation::SingleExcitationLoad { qubit: 3, mode: 0 });
    circuit.push(Operation::DefinitionBit {
        name: readout_name.clone(),
        length: register_length,
        is_output: true,
    });
    circuit.push(Operation::MeasureQubit { qubit: 0, readout: readout_name.clone(), readout_index: 0 });
    circuit.push(Operation::MeasureQubit { qubit: 1, readout: readout_name.clone(), readout_index: 1 });
    let res = call_circuit(&circuit, 2, None, 1).unwrap().0;

    let cz_instruction = IqmInstruction {
        name: "cz".to_string(),
        qubits: vec!["QB1".to_string(), "QB2".to_string()],
        args: vec![],
    };
    let xy_instruction = IqmInstruction {
        name: "prx".to_string(),
        qubits: vec!["QB1".to_string()],
        args: vec![
            ("angle_t".to_string(), IqmArgument::Number(0.5f64.to_bits())),
            ("phase_t".to_string(), IqmArgument::Number(0.5f64.to_bits())),
        ],
    };
    let store_instruction = IqmInstruction {
        name: "move".to_string(),
        qubits: vec!["QB4".to_string(), "COMP_R".to_string()],
        args: vec![],
    };
    let load_instruction = IqmInstruction {
        name: "move".to_string(),
        qubits: vec!["QB4".to_string(), "COMP_R".to_string()],
        args: vec![],
    };
    let meas_instruction = IqmInstruction {
        name: "measure".to_string(),
        qubits: vec!["QB1".to_string(), "QB2".to_string()],
        args: vec![("key".to_string(), IqmArgument::Text(readout_name.clone()))],
    };
    let res_expected = IqmCircuit {
        name: String::from("qc_1"),
        instructions: vec![
            cz_instruction,
            xy_instruction,
            store_instruction,
            load_instruction,
            meas_instruction,
        ],
        metadata: Some(MeasuredQubitsMap {
            entries: vec![RegisterRecord {
                name: readout_name,
                qubits: vec![0, 1],
                length: register_length,
            }],
        }),
    };

    assert_eq!(res, res_expected);
}

#[test]
fn test_call_circuit_repeated_measurement_passes() {
    let inner_circuit = vec![Operation::ControlledPauliZ { control: 0, target: 1 }];

    let mut circuit = Circuit::new();
    let register_length = 2;
    let readout_name = "ro".to_string();
    let number_measurements_expected = 100;
    circuit.push(Operation::ControlledPauliZ { control: 0, target: 1 });
    circuit.push(Operation::RotateXY { qubit: 0, theta_turns: turns(PI), phi_turns: turns(PI) });
    circuit.push(Operation::CZQubitResonator { qubit: 1, mode: 0 });
    circuit.push(Operation::SingleExcitationStore { qubit: 5, mode: 0 });
    circuit.push(Operation::SingleExcitationLoad { qubit: 5, mode: 0 });
    circuit.push(Operation::PragmaLoop {
        repetitions: LoopRepetitions::Fixed(3),
        circuit: inner_circuit,
    });
    circuit.push(Operation::DefinitionBit {
        name: readout_name.clone(),
        length: register_length,
        is_output: true,
    });
    circuit.push(Operation::MeasureQubit { qubit: 0, readout: readout_name.clone(), readout_index: 0 });
    circuit.push(Operation::MeasureQubit { qubit: 1, readout: readout_name.clone(), readout_index: 1 });
    circuit.push(Operation::PragmaSetNumberOfMeasurements {
        number_measurements: number_measurements_expected,
        readout: readout_name.clone(),
    });

    let cz_instruction = IqmInstruction {
        name: "cz".to_string(),
        qubits: vec!["QB1".to_string(), "QB2".to_string()],
        args: vec![],
    };
    let xy_instruction = IqmInstruction {
        name: "prx".to_string(),
        qubits: vec!["QB1".to_string()],
        args: vec![
            ("angle_t".to_string(), IqmArgument::Number(0.5f64.to_bits())),
            ("phase_t".to_string(), IqmArgument::Number(0.5f64.to_bits())),
        ],
    };
    let cz_qubit_resonator_instruction = IqmInstruction {
        name: "cz".to_string(),
        qubits: vec!["QB2".to_string(), "COMP_R".to_string()],
        args: vec![],
    };
    let store_instruction = IqmInstruction {
        name: "move".to_string(),
        qubits: vec!["QB6".to_string(), "COMP_R".to_string()],
        args: vec![],
    };
    let load_instruction = IqmInstruction {
        name: "move".to_string(),
        qubits: vec!["QB6".to_string(), "COMP_R".to_string()],
        args: vec![],
    };
    let meas_instruction = IqmInstruction {
        name: "measure".to_string(),
        qubits: vec!["QB1".to_string(), "QB2".to_string()],
        args: vec![("key".to_string(), IqmArgument::Text(readout_name.clone()))],
    };
    let mut instruction_vec = vec![
        cz_instruction.clone(),
        xy_instruction,
        cz_qubit_resonator_instruction,
        store_instruction,
        load_instruction,
    ];
    for _ in 0..3 {
        instruction_vec.push(cz_instruction.clone());
    }
    instruction_vec.push(meas_instruction);

    let res_expected = IqmCircuit {
        name: String::from("qc_1"),
        instructions: instruction_vec,
        metadata: Some(MeasuredQubitsMap {
            entries: vec![RegisterRecord {
                name: readout_name,
                qubits: vec![0, 1],
                length: register_length,
            }],
        }),
    };
    let (res, number_measurements) = call_circuit(&circuit, 2, None, 1).unwrap();

    assert_eq!(res, res_expected);
    assert_eq!(number_measurements, number_measurements_expected);
}

#[test]
fn test_call_circuit_repeated_measurement_error() {
    let number_measurements_1 = 10;
    let number_measurements_2 = 20;

    let mut circuit = Circuit::new();
    circuit.push(Operation::RotateXY { qubit: 2, theta_turns: turns(1.0), phi_turns: turns(1.0) });
    circuit.push(Operation::CZQubitResonator { qubit: 1, mode: 0 });
    circuit.push(Operation::SingleExcitationStore { qubit: 5, mode: 0 });
    circuit.push(Operation::SingleExcitationLoad { qubit: 5, mode: 0 });
    circuit.push(Operation::DefinitionBit { name: "reg1".to_string(), length: 5, is_output: true });
    circuit.push(Operation::DefinitionBit { name: "reg2".to_string(), length: 7, is_output: true });
    circuit.push(Operation::MeasureQubit { qubit: 2, readout: "reg1".to_string(), readout_index: 2 });
    circuit.push(Operation::MeasureQubit { qubit: 3, readout: "reg1".to_string(), readout_index: 3 });
    circuit.push(Operation::MeasureQubit { qubit: 1, readout: "reg2".to_string(), readout_index: 1 });
    circuit.push(Operation::PragmaSetNumberOfMeasurements {
        number_measurements: number_measurements_1,
        readout: "reg1".to_string(),
    });
    circuit.push(Operation::PragmaSetNumberOfMeasurements {
        number_measurements: number_measurements_2,
        readout: "reg2".to_string(),
    });

    let err = call_circuit(&circuit, 6, None, 1);
    assert!(matches!(err, Err(IqmBackendError::InvalidCircuit { .. })));
}

#[test]
fn test_call_circuit_undefined_register_error() {
    let mut circuit = Circuit::new();
    circuit.push(Operation::DefinitionBit { name: "reg1".to_string(), length: 5, is_output: true });
    circuit.push(Operation::RotateXY { qubit: 2, theta_turns: turns(1.0), phi_turns: turns(1.0) });
    circuit.push(Operation::CZQubitResonator { qubit: 1, mode: 0 });
    circuit.push(Operation::SingleExcitationStore { qubit: 5, mode: 0 });
    circuit.push(Operation::SingleExcitationLoad { qubit: 5, mode: 0 });
    circuit.push(Operation::MeasureQubit { qubit: 2, readout: "reg2".to_string(), readout_index: 2 });

    let err = call_circuit(&circuit, 6, None, 1);
    assert!(matches!(err, Err(IqmBackendError::InvalidCircuit { .. })));

    circuit.push(Operation::DefinitionBit { name: "reg1".to_string(), length: 5, is_output: true });
    circuit.push(Operation::RotateXY { qubit: 2, theta_turns: turns(1.0), phi_turns: turns(1.0) });
    circuit.push(Operation::CZQubitResonator { qubit: 1, mode: 0 });
    circuit.push(Operation::SingleExcitationStore { qubit: 5, mode: 0 });
    circuit.push(Operation::SingleExcitationLoad { qubit: 5, mode: 0 });
    circuit.push(Operation::MeasureQubit { qubit: 2, readout: "reg1".to_string(), readout_index: 2 });
    circuit.push(Operation::PragmaSetNumberOfMeasurements {
        number_measurements: 10,
        readout: "reg2".to_string(),
    });

    let err = call_circuit(&circuit, 6, None, 1);
    assert!(matches!(err, Err(IqmBackendError::InvalidCircuit { .. })));
}

#[test]
fn test_symbolic_pragma_loop_error() {
    let inner_circuit = vec![Operation::RotateXY {
        qubit: 2,
        theta_turns: turns(1.0),
        phi_turns: turns(1.0),
    }];

    let mut circuit = Circuit::new();
    circuit.push(Operation::DefinitionBit { name: "reg1".to_string(), length: 5, is_output: true });
    circuit.push(Operation::CZQubitResonator { qubit: 1, mode: 0 });
    circuit.push(Operation::SingleExcitationStore { qubit: 5, mode: 0 });
    circuit.push(Operation::SingleExcitationLoad { qubit: 5, mode: 0 });
    circuit.push(Operation::PragmaLoop {
        repetitions: LoopRepetitions::Symbolic("repetitions".to_string()),
        circuit: inner_circuit,
    });
    circuit.push(Operation::MeasureQubit { qubit: 2, readout: "reg1".to_string(), readout_index: 2 });
    circuit.push(Operation::MeasureQubit { qubit: 2, readout: "reg1".to_string(), readout_index: 2 });

    let err = call_circuit(&circuit, 6, None, 1);
    assert!(matches!(err, Err(IqmBackendError::InvalidCircuit { .. })));
}

#[test]
fn test_qubit_measured_twice_error() {
    let mut circuit = Circuit::new();
    circuit.push(Operation::DefinitionBit { name: "reg1".to_string(), length: 5, is_output: true });
    circuit.push(Operation::RotateXY { qubit: 2, theta_turns: turns(1.0), phi_turns: turns(1.0) });
    circuit.push(Operation::CZQubitResonator { qubit: 1, mode: 0 });
    circuit.push(Operation::SingleExcitationStore { qubit: 5, mode: 0 });
    circuit.push(Operation::SingleExcitationLoad { qubit: 5, mode: 0 });
    circuit.push(Operation::MeasureQubit { qubit: 2, readout: "reg1".to_string(), readout_index: 2 });
    circuit.push(Operation::MeasureQubit { qubit: 2, readout: "reg1".to_string(), readout_index: 2 });

    let err = call_circuit(&circuit, 6, None, 1);
    assert!(matches!(err, Err(IqmBackendError::InvalidCircuit { .. })));
}

#[test]
fn test_call_circuit_repeated_measurements_with_mapping() {
    let mut circuit = Circuit::new();
    circuit.push(Operation::ControlledPauliZ { control: 0, target: 1 });
    circuit.push(Operation::RotateXY { qubit: 0, theta_turns: turns(1.0), phi_turns: turns(1.0) });
    circuit.push(Operation::DefinitionBit { name: "ro".to_string(), length: 2, is_output: true });
    let qubit_mapping = vec![(0, 1), (1, 0)];
    circuit.push(Operation::PragmaRepeatedMeasurement {
        readout: "ro".to_string(),
        number_measurements: 3,
        qubit_mapping: Some(qubit_mapping),
    });

    assert!(call_circuit(&circuit, 2, None, 1).is_ok());
}

#[test]
fn test_fail_multiple_repeated_measurements() {
    let mut circuit = Circuit::new();
    circuit.push(Operation::ControlledPauliZ { control: 0, target: 1 });
    circuit.push(Operation::DefinitionBit { name: "ro".to_string(), length: 2, is_output: true });
    circuit.push(Operation::PragmaSetNumberOfMeasurements {
        number_measurements: 5,
        readout: "ro".to_string(),
    });
    circuit.push(Operation::PragmaRepeatedMeasurement {
        readout: "ro".to_string(),
        number_measurements: 3,
        qubit_mapping: None,
    });

    assert!(call_circuit(&circuit, 2, None, 1).is_err());
}

#[test]
fn test_fail_overlapping_measurements() {
    let mut circuit = Circuit::new();
    circuit.push(Operation::ControlledPauliZ { control: 0, target: 1 });
    circuit.push(Operation::DefinitionBit { name: "ro".to_string(), length: 2, is_output: true });
    circuit.push(Operation::MeasureQubit { qubit: 0, readout: "ro".to_string(), readout_index: 0 });
    circuit.push(Operation::PragmaRepeatedMeasurement {
        readout: "ro".to_string(),
        number_measurements: 3,
        qubit_mapping: None,
    });

    assert!(call_circuit(&circuit, 2, None, 1).is_err());
}

#[test]
fn test_qubit_name_conversion_iqm_to_qoqo() {
    let qubit = String::from("QB2");
    let digit = qubit
        .chars()
        .last()
        .expect("Passed empty qubit name string to conversion function.")
        .to_digit(10)
        .expect("Last digit of qubit name in the IQM format should be a number.");
    let converted_name = digit as usize - 1;

    assert_eq!(converted_name, 1);
}

#[test]
fn measurements_coalesce_on_two_qubit_device() {
    let mut circuit = Circuit::new();
    circuit.push(Operation::ControlledPauliZ { control: 0, target: 1 });
    circuit.push(Operation::DefinitionBit { name: "ro".to_string(), length: 2, is_output: true });
    circuit.push(Operation::MeasureQubit { qubit: 0, readout: "ro".to_string(), readout_index: 0 });
    circuit.push(Operation::MeasureQubit { qubit: 1, readout: "ro".to_string(), readout_index: 1 });

    let (translated, shots) = call_circuit(&circuit, 2, None, 0).unwrap();
    assert_eq!(shots, 1);
    assert_eq!(translated.instructions.len(), 2);
    assert_eq!(translated.instructions[0].name, "cz".to_string());
    assert_eq!(translated.instructions[1].name, "measure".to_string());
    assert_eq!(
        translated.instructions[1].qubits,
        vec!["QB1".to_string(), "QB2".to_string()]
    );
    let map = translated.metadata.unwrap();
    assert_eq!(map.entries.len(), 1);
    assert_eq!(map.entries[0].name, "ro".to_string());
    assert_eq!(map.entries[0].qubits, vec![0, 1]);
    assert_eq!(map.entries[0].length, 2);
}

#[test]
fn loop_translation_flattens_repetitions() {
    let inner_circuit = vec![
        Operation::RotateXY { qubit: 0, theta_turns: turns(0.5), phi_turns: turns(0.0) },
        Operation::ControlledPauliZ { control: 0, target: 1 },
    ];
    let mut circuit = Circuit::new();
    circuit.push(Operation::DefinitionBit { name: "ro".to_string(), length: 2, is_output: true });
    circuit.push(Operation::PragmaLoop {
        repetitions: LoopRepetitions::Fixed(4),
        circuit: inner_circuit,
    });
    circuit.push(Operation::MeasureQubit { qubit: 0, readout: "ro".to_string(), readout_index: 0 });

    let (translated, _) = call_circuit(&circuit, 2, None, 0).unwrap();
    // 4 repetitions of 2 mapped operations, plus the one measurement.
    assert_eq!(translated.instructions.len(), 9);
    for rep in 0..4 {
        assert_eq!(translated.instructions[2 * rep].name, "prx".to_string());
        assert_eq!(translated.instructions[2 * rep + 1].name, "cz".to_string());
    }
    assert_eq!(translated.instructions[8].name, "measure".to_string());
}

#[test]
fn symbolic_loop_emits_nothing() {
    let inner_circuit = vec![Operation::ControlledPauliZ { control: 0, target: 1 }];
    let mut circuit = Circuit::new();
    circuit.push(Operation::DefinitionBit { name: "ro".to_string(), length: 2, is_output: true });
    circuit.push(Operation::PragmaLoop {
        repetitions: LoopRepetitions::Symbolic("n".to_string()),
        circuit: inner_circuit,
    });

    let res = call_circuit(&circuit, 2, None, 0);
    assert!(matches!(res, Err(IqmBackendError::InvalidCircuit { .. })));
}

#[test]
fn mapping_values_follow_ascending_key_order() {
    let mut circuit = Circuit::new();
    circuit.push(Operation::DefinitionBit { name: "ro".to_string(), length: 12, is_output: true });
    // Keys deliberately out of order: the recorded register positions must
    // follow the ascending key order 0, 1, 2.
    let qubit_mapping = vec![(1, 5), (2, 11), (0, 9)];
    circuit.push(Operation::PragmaRepeatedMeasurement {
        readout: "ro".to_string(),
        number_measurements: 3,
        qubit_mapping: Some(qubit_mapping),
    });

    let (translated, shots) = call_circuit(&circuit, 2, None, 0).unwrap();
    assert_eq!(shots, 3);
    let map = translated.metadata.unwrap();
    assert_eq!(map.entries.len(), 1);
    assert_eq!(map.entries[0].qubits, vec![9, 5, 11]);
}

#[test]
fn double_measurement_message_names_the_qubit() {
    let mut circuit = Circuit::new();
    circuit.push(Operation::DefinitionBit { name: "ro".to_string(), length: 5, is_output: true });
    circuit.push(Operation::MeasureQubit { qubit: 3, readout: "ro".to_string(), readout_index: 3 });
    circuit.push(Operation::MeasureQubit { qubit: 3, readout: "ro".to_string(), readout_index: 3 });

    match call_circuit(&circuit, 6, None, 1) {
        Err(IqmBackendError::InvalidCircuit { msg }) => {
            assert_eq!(msg, "Qubit 3 is being measured twice.".to_string());
        }
        other => panic!("expected an invalid-circuit error, got {:?}", other),
    }
}
