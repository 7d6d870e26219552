//! Tests of circuit validation, submission preparation, the polling
//! decisions and result reassembly.

use std::f64::consts::PI;

use roqoqo_iqm::backend::{
    abort_url, architecture_url, bearer_authorization, check_response_status,
    interpret_abort_response, job_url, poll_step, Backend, HeraldingMode, IqmRunRequest,
    IqmRunResult, Metadata, Status,
};
use roqoqo_iqm::circuit::{get_number_qubits, Circuit, Operation};
use roqoqo_iqm::devices::{DenebDevice, IqmDevice};
use roqoqo_iqm::interface::IqmCircuit;
use roqoqo_iqm::registers::{MeasuredQubitsMap, RegisterRecord};
use roqoqo_iqm::results::{results_to_registers, BitRegisters};
use roqoqo_iqm::{IqmBackendError, RoqoqoBackendError};

/// An angle in radians, converted to the vendor's unit of turns and
/// carried as an IEEE-754 bit pattern.
fn turns(radians: f64) -> u64 {
    (radians / (2.0 * PI)).to_bits()
}

/// Builds a ready job response around the given per-circuit results and
/// per-circuit measured qubits maps.
fn create_mock_run_results(
    iqm_results: Vec<(String, Vec<Vec<u8>>)>,
    metadata: Vec<MeasuredQubitsMap>,
) -> IqmRunResult {
    let circuits: Vec<IqmCircuit> = metadata
        .into_iter()
        .enumerate()
        .map(|(index, map)| IqmCircuit {
            name: format!("{}", index),
            instructions: vec![],
            metadata: Some(map),
        })
        .collect();
    let request = IqmRunRequest {
        circuits,
        shots: 1,
        heralding_mode: HeraldingMode::NoHeralding,
    };
    IqmRunResult {
        status: Status::Ready,
        measurements: Some(vec![iqm_results]),
        message: None,
        metadata: Metadata { request },
        warnings: None,
    }
}

#[test]
fn test_get_number_qubits() {
    let mut qc = Circuit::new();

    assert!(get_number_qubits(&qc).is_none());

    qc.push(Operation::RotateXY { qubit: 0, theta_turns: turns(PI), phi_turns: turns(0.0) });
    qc.push(Operation::RotateXY { qubit: 2, theta_turns: turns(PI), phi_turns: turns(0.0) });
    qc.push(Operation::RotateXY { qubit: 6, theta_turns: turns(PI), phi_turns: turns(0.0) });
    qc.push(Operation::DefinitionBit { name: "my_reg".to_string(), length: 2, is_output: true });
    qc.push(Operation::PragmaRepeatedMeasurement {
        readout: "my_reg".to_string(),
        number_measurements: 10,
        qubit_mapping: None,
    });

    assert_eq!(get_number_qubits(&qc), Some(7));
}

#[test]
fn test_results_to_registers() {
    let iqm_results = vec![
        ("reg1".to_string(), vec![vec![0, 1, 0], vec![1, 1, 0]]),
        ("reg2".to_string(), vec![vec![1, 1], vec![1, 0]]),
    ];

    let map_1 = MeasuredQubitsMap {
        entries: vec![RegisterRecord { name: "reg1".to_string(), qubits: vec![0, 2, 4], length: 5 }],
    };
    let map_2 = MeasuredQubitsMap {
        entries: vec![RegisterRecord { name: "reg2".to_string(), qubits: vec![1, 2], length: 3 }],
    };

    let expected = BitRegisters {
        entries: vec![
            (
                "reg1".to_string(),
                vec![
                    vec![false, false, true, false, false],
                    vec![true, false, true, false, false],
                ],
            ),
            (
                "reg2".to_string(),
                vec![vec![false, true, true], vec![false, true, false]],
            ),
        ],
    };

    let results = create_mock_run_results(iqm_results, vec![map_1, map_2]);
    let bit_registers = results_to_registers(results, String::new()).unwrap();
    assert_eq!(bit_registers, expected);
}

#[test]
fn test_submit_batch() {}

#[test]
fn backend_requires_access_token() {
    let device = IqmDevice::DenebDevice(DenebDevice::new());
    let err = Backend::new(device, None);
    assert!(matches!(err, Err(RoqoqoBackendError::MissingAuthentification { .. })));

    let device = IqmDevice::DenebDevice(DenebDevice::new());
    let ok = Backend::new(device, Some("dummy_access_token".to_string()));
    assert!(ok.is_ok());
}

#[test]
fn test_overwrite_number_measurements() {
    let mut circuit = Circuit::new();
    circuit.push(Operation::CZQubitResonator { qubit: 0, mode: 1 });
    circuit.push(Operation::DefinitionBit { name: "ro".to_string(), length: 3, is_output: true });
    circuit.push(Operation::PragmaRepeatedMeasurement {
        readout: "ro".to_string(),
        number_measurements: 10,
        qubit_mapping: None,
    });

    let device = IqmDevice::DenebDevice(DenebDevice::new());
    let mut backend = Backend::new(device, Some("dummy_token".to_string())).unwrap();

    assert!(backend.number_measurements_internal.is_none());

    backend._overwrite_number_of_measurements(20);
    assert_eq!(backend.number_measurements_internal.unwrap(), 20);
}

#[test]
fn disconnected_qubits_deneb() {
    let device = IqmDevice::DenebDevice(DenebDevice::new());
    let backend = Backend::new(device, Some("dummy_token".to_string())).unwrap();
    let mut circuit = Circuit::new();

    circuit.push(Operation::CZQubitResonator { qubit: 1, mode: 2 });
    circuit.push(Operation::DefinitionBit { name: "my_reg".to_string(), length: 2, is_output: true });
    circuit.push(Operation::PragmaRepeatedMeasurement {
        readout: "my_reg".to_string(),
        number_measurements: 10,
        qubit_mapping: None,
    });

    let err = backend.validate_circuit(&circuit);
    assert!(matches!(err, Err(IqmBackendError::InvalidCircuit { .. })));
}

#[test]
fn too_many_qubits_deneb() {
    let device = DenebDevice::new();
    let number_qubits = device.number_qubits();
    let backend =
        Backend::new(IqmDevice::DenebDevice(device), Some("dummy_token".to_string())).unwrap();
    let mut circuit = Circuit::new();

    circuit.push(Operation::RotateXY {
        qubit: number_qubits,
        theta_turns: turns(PI),
        phi_turns: turns(0.0),
    });
    circuit.push(Operation::DefinitionBit {
        name: "my_reg".to_string(),
        length: 10,
        is_output: true,
    });
    circuit.push(Operation::PragmaRepeatedMeasurement {
        readout: "my_reg".to_string(),
        number_measurements: 10,
        qubit_mapping: None,
    });

    let err = backend.validate_circuit(&circuit);
    assert!(matches!(err, Err(IqmBackendError::InvalidCircuit { .. })));
}

#[test]
fn double_measurements() {
    let mut circuit = Circuit::new();
    circuit.push(Operation::CZQubitResonator { qubit: 0, mode: 1 });
    circuit.push(Operation::DefinitionBit { name: "ro".to_string(), length: 2, is_output: true });
    circuit.push(Operation::MeasureQubit { qubit: 0, readout: "ro".to_string(), readout_index: 0 });
    circuit.push(Operation::PragmaRepeatedMeasurement {
        readout: "ro".to_string(),
        number_measurements: 10,
        qubit_mapping: None,
    });

    let device = IqmDevice::DenebDevice(DenebDevice::new());
    let backend = Backend::new(device, Some("dummy_token".to_string())).unwrap();

    let err = backend.validate_circuit(&circuit);
    assert!(matches!(err, Err(IqmBackendError::InvalidCircuit { .. })));
}

/// One circuit of the shape the batch tests submit: a rotation, a
/// qubit-resonator gate, one output register, and two measurements.
fn batch_member(register: &str, number_measurements: usize) -> Circuit {
    let mut qc = Circuit::new();
    qc.push(Operation::RotateXY { qubit: 2, theta_turns: turns(1.0), phi_turns: turns(1.0) });
    qc.push(Operation::CZQubitResonator { qubit: 1, mode: 0 });
    qc.push(Operation::DefinitionBit { name: register.to_string(), length: 5, is_output: true });
    qc.push(Operation::MeasureQubit { qubit: 2, readout: register.to_string(), readout_index: 2 });
    qc.push(Operation::MeasureQubit { qubit: 3, readout: register.to_string(), readout_index: 3 });
    qc.push(Operation::PragmaSetNumberOfMeasurements {
        number_measurements,
        readout: register.to_string(),
    });
    qc
}

#[test]
fn batch_same_register_error() {
    let device = IqmDevice::DenebDevice(DenebDevice::new());
    let backend = Backend::new(device, Some("dummy_token".to_string())).unwrap();

    let batch = vec![batch_member("reg1", 10), batch_member("reg1", 10)];
    let err = backend.prepare_run_request(&batch);
    assert!(matches!(err, Err(IqmBackendError::InvalidCircuit { .. })));
}

#[test]
fn batch_different_number_measurements_error() {
    let device = IqmDevice::DenebDevice(DenebDevice::new());
    let backend = Backend::new(device, Some("dummy_token".to_string())).unwrap();

    let batch = vec![batch_member("reg1", 10), batch_member("reg2", 20)];
    let err = backend.prepare_run_request(&batch);
    assert!(matches!(err, Err(IqmBackendError::InvalidCircuit { .. })));
}

#[test]
fn batch_prepares_shared_request() {
    let device = IqmDevice::DenebDevice(DenebDevice::new());
    let backend = Backend::new(device, Some("dummy_token".to_string())).unwrap();

    let batch = vec![batch_member("reg1", 10), batch_member("reg2", 10)];
    let request = backend.prepare_run_request(&batch).unwrap();
    assert_eq!(request.shots, 10);
    assert_eq!(request.circuits.len(), 2);
    assert_eq!(request.circuits[0].name, "qc_0".to_string());
    assert_eq!(request.circuits[1].name, "qc_1".to_string());
    assert_eq!(request.heralding_mode, HeraldingMode::NoHeralding);
}

/// A job response with the given status and no payload beyond it.
fn status_only_result(status: Status, message: Option<String>) -> IqmRunResult {
    IqmRunResult {
        status,
        measurements: if matches!(status, Status::Ready) {
            Some(vec![])
        } else {
            None
        },
        message,
        metadata: Metadata {
            request: IqmRunRequest {
                circuits: vec![],
                shots: 1,
                heralding_mode: HeraldingMode::NoHeralding,
            },
        },
        warnings: None,
    }
}

#[test]
fn polling_returns_after_two_waits() {
    let id = "job-17".to_string();
    let sequence = vec![
        status_only_result(Status::PendingExecution, None),
        status_only_result(Status::PendingExecution, None),
        status_only_result(Status::Ready, None),
    ];

    let mut sleeps = 0;
    let mut payload = None;
    for fetched in sequence {
        match poll_step(fetched, &id) {
            Ok(Some(done)) => {
                payload = Some(done);
                break;
            }
            Ok(None) => {
                sleeps += 1;
            }
            Err(e) => panic!("unexpected polling error: {:?}", e),
        }
    }
    assert_eq!(sleeps, 2);
    assert!(matches!(payload, Some(r) if matches!(r.status, Status::Ready)));
}

#[test]
fn polling_surfaces_job_failure() {
    let id = "job-9".to_string();
    let failed = status_only_result(Status::Failed, Some("calibration drift".to_string()));
    match poll_step(failed, &id) {
        Err(IqmBackendError::JobFailed { id: i, msg }) => {
            assert_eq!(i, "job-9".to_string());
            assert_eq!(msg, "calibration drift".to_string());
        }
        _ => panic!("expected a failed-job error"),
    }
}

#[test]
fn polling_surfaces_job_abortion() {
    let id = "job-3".to_string();
    let aborted = status_only_result(Status::Aborted, None);
    match poll_step(aborted, &id) {
        Err(IqmBackendError::JobAborted { id: i }) => {
            assert_eq!(i, "job-3".to_string());
        }
        _ => panic!("expected an aborted-job error"),
    }
}

#[test]
fn response_status_classification() {
    assert!(check_response_status(200).is_ok());
    assert!(check_response_status(201).is_ok());
    assert!(check_response_status(202).is_ok());
    assert!(matches!(
        check_response_status(404),
        Err(RoqoqoBackendError::NetworkError { .. })
    ));
}

#[test]
fn endpoint_urls_and_header() {
    let host = "https://cocos.resonance.meetiqm.com/deneb/jobs".to_string();
    let id = "abc-123".to_string();
    assert_eq!(
        job_url(&host, &id),
        "https://cocos.resonance.meetiqm.com/deneb/jobs/abc-123".to_string()
    );
    assert_eq!(
        abort_url(&host, &id),
        "https://cocos.resonance.meetiqm.com/deneb/jobs/jobs/abc-123/abort".to_string()
    );
    assert_eq!(
        bearer_authorization(&"token-xyz".to_string()),
        "Bearer token-xyz".to_string()
    );
    assert_eq!(
        architecture_url(&host),
        "https://cocos.resonance.meetiqm.com/deneb/quantum-architecture".to_string()
    );
    assert!(interpret_abort_response(200, "".to_string(), &id).is_ok());
    assert!(matches!(
        interpret_abort_response(409, "already done".to_string(), &id),
        Err(IqmBackendError::JobAbortionFailed { .. })
    ));
}

#[test]
fn reassembly_rejects_unknown_register() {
    let iqm_results = vec![("reg1".to_string(), vec![vec![0, 1]])];
    let map = MeasuredQubitsMap {
        entries: vec![RegisterRecord { name: "other".to_string(), qubits: vec![0, 1], length: 2 }],
    };
    let results = create_mock_run_results(iqm_results, vec![map]);
    let err = results_to_registers(results, "id-1".to_string());
    assert!(matches!(err, Err(IqmBackendError::InvalidResults { .. })));
}

#[test]
fn reassembly_rejects_missing_payload() {
    let mut results = create_mock_run_results(vec![], vec![]);
    results.measurements = None;
    let err = results_to_registers(results, "id-2".to_string());
    assert!(matches!(err, Err(IqmBackendError::EmptyResult { .. })));
}

#[test]
fn reassembly_rejects_missing_metadata() {
    let iqm_results = vec![("reg1".to_string(), vec![vec![0]])];
    let mut results = create_mock_run_results(
        iqm_results,
        vec![MeasuredQubitsMap {
            entries: vec![RegisterRecord { name: "reg1".to_string(), qubits: vec![0], length: 1 }],
        }],
    );
    results.metadata.request.circuits[0].metadata = None;
    let err = results_to_registers(results, "id-3".to_string());
    assert!(matches!(err, Err(IqmBackendError::MetadataError { .. })));
}

#[test]
fn repeated_measurement_register_shorter_than_device_fails() {
    let device = IqmDevice::DenebDevice(DenebDevice::new());
    let backend = Backend::new(device, Some("dummy_token".to_string())).unwrap();
    let mut circuit = Circuit::new();

    circuit.push(Operation::RotateXY { qubit: 0, theta_turns: turns(PI), phi_turns: turns(0.0) });
    circuit.push(Operation::DefinitionBit { name: "ro".to_string(), length: 4, is_output: true });
    circuit.push(Operation::PragmaRepeatedMeasurement {
        readout: "ro".to_string(),
        number_measurements: 10,
        qubit_mapping: None,
    });

    // The device has six qubits; a length-4 register cannot hold a
    // repeated measurement of all of them, whichever qubits the circuit
    // itself touches.
    let err = backend.validate_circuit(&circuit);
    match err {
        Err(IqmBackendError::RegisterTooSmall { name }) => assert_eq!(name, "ro".to_string()),
        other => panic!("expected a too-small-register error, got {:?}", other),
    }
}

#[test]
fn repeated_measurement_register_covering_device_passes() {
    let device = IqmDevice::DenebDevice(DenebDevice::new());
    let backend = Backend::new(device, Some("dummy_token".to_string())).unwrap();
    let mut circuit = Circuit::new();

    circuit.push(Operation::RotateXY { qubit: 0, theta_turns: turns(PI), phi_turns: turns(0.0) });
    circuit.push(Operation::DefinitionBit { name: "ro".to_string(), length: 6, is_output: true });
    circuit.push(Operation::PragmaRepeatedMeasurement {
        readout: "ro".to_string(),
        number_measurements: 10,
        qubit_mapping: None,
    });

    assert!(backend.validate_circuit(&circuit).is_ok());
}

#[test]
fn batch_shared_register_fails_despite_extra_register() {
    let device = IqmDevice::DenebDevice(DenebDevice::new());
    let backend = Backend::new(device, Some("dummy_token".to_string())).unwrap();

    // The second circuit declares a second register of its own, so the
    // batch has as many distinct names as circuits; the shared name must
    // still be rejected.
    let mut second = batch_member("reg1", 10);
    second.push(Operation::DefinitionBit { name: "reg2".to_string(), length: 5, is_output: true });

    let batch = vec![batch_member("reg1", 10), second];
    let err = backend.validate_circuit_batch(&batch);
    assert!(matches!(err, Err(IqmBackendError::InvalidCircuit { .. })));
}
