//! The backend: circuit validation against a device, submission payload
//! construction, and the job-lifecycle decisions of the polling loop.
//!
//! Network transport stays outside this crate; everything here computes on
//! plain values, so a thin client can drive the remote service with it.

use vstd::prelude::*;
use vstd::string::{StrSliceExecFns, StringExecFns};

use crate::circuit::{ops_max_qubit, spec_hqslang, spec_ops_max_qubit, Circuit, Operation};
use crate::devices::{
    spec_deneb_connectivity, spec_deneb_error_matches, spec_device_name, spec_load_store_scan,
    spec_number_qubits, spec_single_qubit_gate_time, spec_two_qubit_gate_time,
    DenebConnectivityError, IqmDevice, LoadStoreViolation,
};
use crate::interface::{spec_call_circuit, CircModel, IqmCircuit, TransError};
use crate::{IqmBackendError, RoqoqoBackendError};

verus! {

/// Status of a submitted job, as the server tracks it.
#[derive(Debug, PartialEq, Clone, Copy)]
pub enum Status {
    /// The job waits for compilation.
    PendingCompilation,
    /// The job waits for execution.
    PendingExecution,
    /// The job finished and its results are available.
    Ready,
    /// The job failed.
    Failed,
    /// The job was aborted.
    Aborted,
}

/// Heralding mode of a submission.
#[derive(Debug, PartialEq, Clone, Copy)]
pub enum HeraldingMode {
    /// No heralding.
    NoHeralding,
    /// Keep only shots whose heralding measurement is all zeros; the
    /// returned shot count may then be smaller than the requested one.
    Zeros,
}

/// Measurement results of one circuit: per register name, one row of
/// per-qubit outcomes for every shot.
pub type CircuitResult = Vec<(String, Vec<Vec<u8>>)>;

/// Measurement results of a whole batch, one entry per circuit.
pub type BatchResult = Vec<CircuitResult>;

/// The request submitted to the execution service.
#[derive(Debug, PartialEq, Clone)]
pub struct IqmRunRequest {
    /// The translated circuits of the batch.
    pub circuits: Vec<IqmCircuit>,
    /// Requested shot count, shared by the whole batch.
    pub shots: u16,
    /// Heralding mode of the submission.
    pub heralding_mode: HeraldingMode,
}

/// Metadata the server echoes with a job: a copy of the original request.
#[derive(Debug, PartialEq, Clone)]
pub struct Metadata {
    /// Copy of the submitted request.
    pub request: IqmRunRequest,
}

/// One polled job response.
#[derive(Debug, PartialEq, Clone)]
pub struct IqmRunResult {
    /// Status of the job.
    pub status: Status,
    /// Measurement results, present once the job is ready.
    pub measurements: Option<BatchResult>,
    /// Failure message, present when the job failed.
    pub message: Option<String>,
    /// Metadata echoed by the server.
    pub metadata: Metadata,
    /// Warnings reported by the device.
    pub warnings: Option<Vec<String>>,
}

/// The backend: a device descriptor, the credential, and an optional
/// caller-side override of the shot count.
#[derive(Debug, PartialEq, Clone)]
pub struct Backend {
    /// The device the backend targets.
    pub device: IqmDevice,
    /// Bearer token used for every call.
    pub access_token: String,
    /// Shot count override; wins over whatever a circuit specifies.
    pub number_measurements_internal: Option<usize>,
}

impl Backend {
    /// Creates a backend for `device`.
    ///
    /// The access token must be supplied here; resolving it from the
    /// caller's environment is the embedding application's job, and a
    /// missing token is a configuration error raised before any network
    /// activity.
    pub fn new(device: IqmDevice, access_token: Option<String>) -> (r: Result<
        Backend,
        RoqoqoBackendError,
    >)
        ensures
            access_token is Some ==> (r matches Ok(b) && b.device == device && b.access_token@
                == access_token->0@ && b.number_measurements_internal is None),
            access_token is None ==> r matches Err(RoqoqoBackendError::MissingAuthentification {
                ..
            }),
    {
        match access_token {
            Some(token) => Ok(
                Backend { device, access_token: token, number_measurements_internal: None },
            ),
            None => Err(
                RoqoqoBackendError::MissingAuthentification {
                    msg: String::from_str(
                        "An access token is required to talk to the execution service.",
                    ),
                },
            ),
        }
    }

    /// Overwrites the number of shots for every submitted circuit.
    ///
    /// This takes precedence over the shot counts the circuits themselves
    /// specify, and so changes the accuracy of the results.
    pub fn _overwrite_number_of_measurements(&mut self, number_measurements: usize)
        ensures
            final(self).number_measurements_internal == Some(number_measurements),
            final(self).device == old(self).device,
            final(self).access_token@ == old(self).access_token@,
    {
        self.number_measurements_internal = Some(number_measurements);
    }
}

/// Whether the generic validator lets an operation of this name pass
/// without a gate-table entry.
pub open spec fn spec_backend_allowed(name: Seq<char>) -> bool {
    ||| name == "PragmaSetNumberOfMeasurements"@
    ||| name == "PragmaRepeatedMeasurement"@
    ||| name == "MeasureQubit"@
    ||| name == "DefinitionBit"@
    ||| name == "InputBit"@
    ||| name == "PragmaGlobalPhase"@
}

/// Whether the device can run one operation; the error names the
/// operation it cannot run.
pub open spec fn spec_backend_check_op(device: IqmDevice, op: Operation) -> Result<
    (),
    Seq<char>,
> {
    match op {
        Operation::RotateXY { qubit, .. } => {
            if !spec_backend_allowed(spec_hqslang(op)) && spec_single_qubit_gate_time(
                device,
                spec_hqslang(op),
                qubit,
            ) is None {
                Err(spec_hqslang(op))
            } else {
                Ok(())
            }
        },
        Operation::SingleQubitGate { qubit, .. } => {
            if !spec_backend_allowed(spec_hqslang(op)) && spec_single_qubit_gate_time(
                device,
                spec_hqslang(op),
                qubit,
            ) is None {
                Err(spec_hqslang(op))
            } else {
                Ok(())
            }
        },
        Operation::ControlledPauliZ { control, target } => {
            if spec_two_qubit_gate_time(device, spec_hqslang(op), control, target) is None {
                Err(spec_hqslang(op))
            } else {
                Ok(())
            }
        },
        Operation::TwoQubitGate { control, target, .. } => {
            if spec_two_qubit_gate_time(device, spec_hqslang(op), control, target) is None {
                Err(spec_hqslang(op))
            } else {
                Ok(())
            }
        },
        Operation::MultiQubitGate { .. } => Err(spec_hqslang(op)),
        _ => {
            if spec_backend_allowed(spec_hqslang(op)) {
                Ok(())
            } else {
                Err(spec_hqslang(op))
            }
        },
    }
}

/// The first gate-availability error of a sequence, if any.
pub open spec fn spec_backend_connectivity(device: IqmDevice, ops: Seq<Operation>) -> Result<
    (),
    Seq<char>,
>
    decreases ops.len(),
{
    if ops.len() == 0 {
        Ok(())
    } else {
        match spec_backend_connectivity(device, ops.drop_last()) {
            Err(e) => Err(e),
            Ok(_) => spec_backend_check_op(device, ops.last()),
        }
    }
}

/// Once the availability scan fails, longer prefixes keep the same error.
pub proof fn lemma_backend_connectivity_error_persists(
    device: IqmDevice,
    ops: Seq<Operation>,
    i: int,
)
    requires
        0 <= i <= ops.len(),
        spec_backend_connectivity(device, ops.take(i)) is Err,
    ensures
        spec_backend_connectivity(device, ops) == spec_backend_connectivity(device, ops.take(i)),
    decreases ops.len() - i,
{
    if i < ops.len() {
        assert(ops.take(i + 1).drop_last() =~= ops.take(i));
        lemma_backend_connectivity_error_persists(device, ops, i + 1);
    } else {
        assert(ops.take(i) =~= ops);
    }
}

impl Backend {
    /// Checks every operation against the device's gate tables: single-,
    /// two- and multi-qubit gates must have a gate-time entry, everything
    /// else must be on the measurement/definition allow-list.
    pub fn validate_circuit_connectivity(&self, circuit: &Circuit) -> (r: Result<
        (),
        RoqoqoBackendError,
    >)
        ensures
            ({
                let conn = spec_backend_connectivity(self.device, circuit.operations@);
                &&& (r is Ok <==> conn is Ok)
                &&& conn is Err ==> (r matches Err(RoqoqoBackendError::OperationNotInBackend {
                    backend,
                    hqslang,
                }) && backend@ == "IQM"@ && hqslang@ == conn->Err_0)
            }),
    {
        let ghost opseq = circuit.operations@;
        let mut i: usize = 0;
        while i < circuit.operations.len()
            invariant
                i <= opseq.len(),
                opseq == circuit.operations@,
                spec_backend_connectivity(self.device, opseq.take(i as int)) is Ok,
            decreases opseq.len() - i,
        {
            proof {
                assert(opseq.take(i + 1 as int).drop_last() =~= opseq.take(i as int));
                assert(opseq.take(i + 1 as int).last() == opseq[i as int]);
            }
            let op = &circuit.operations[i];
            let verdict: Option<String> = match op {
                Operation::RotateXY { qubit, .. } => {
                    let name = op.hqslang();
                    if !is_backend_allowed(&name) && self.device.single_qubit_gate_time(
                        name.as_str(),
                        *qubit,
                    ).is_none() {
                        Some(name)
                    } else {
                        None
                    }
                },
                Operation::SingleQubitGate { qubit, .. } => {
                    let name = op.hqslang();
                    if !is_backend_allowed(&name) && self.device.single_qubit_gate_time(
                        name.as_str(),
                        *qubit,
                    ).is_none() {
                        Some(name)
                    } else {
                        None
                    }
                },
                Operation::ControlledPauliZ { control, target } => {
                    let name = op.hqslang();
                    if self.device.two_qubit_gate_time(name.as_str(), *control, *target).is_none() {
                        Some(name)
                    } else {
                        None
                    }
                },
                Operation::TwoQubitGate { control, target, .. } => {
                    let name = op.hqslang();
                    if self.device.two_qubit_gate_time(name.as_str(), *control, *target).is_none() {
                        Some(name)
                    } else {
                        None
                    }
                },
                Operation::MultiQubitGate { .. } => Some(op.hqslang()),
                _ => {
                    let name = op.hqslang();
                    if is_backend_allowed(&name) {
                        None
                    } else {
                        Some(name)
                    }
                },
            };
            if let Some(name) = verdict {
                proof {
                    lemma_backend_connectivity_error_persists(self.device, opseq, i + 1);
                }
                return Err(
                    RoqoqoBackendError::OperationNotInBackend {
                        backend: String::from_str("IQM"),
                        hqslang: name,
                    },
                );
            }
            i = i + 1;
        }
        proof {
            assert(opseq.take(opseq.len() as int) =~= opseq);
        }
        Ok(())
    }
}

/// Executable counterpart of [`spec_backend_allowed`].
pub fn is_backend_allowed(name: &String) -> (r: bool)
    ensures
        r == spec_backend_allowed(name@),
{
    ||| *name == String::from_str("PragmaSetNumberOfMeasurements")
    ||| *name == String::from_str("PragmaRepeatedMeasurement")
    ||| *name == String::from_str("MeasureQubit")
    ||| *name == String::from_str("DefinitionBit")
    ||| *name == String::from_str("InputBit")
    ||| *name == String::from_str("PragmaGlobalPhase")
}

/// Classifies an HTTP status code of the submission endpoint: only the
/// success codes for created or accepted work pass.
pub fn check_response_status(status_code: u16) -> (r: Result<(), RoqoqoBackendError>)
    ensures
        r is Ok <==> (status_code == 200 || status_code == 201 || status_code == 202),
        r is Err ==> r->Err_0 is NetworkError,
{
    if status_code == 200 || status_code == 201 || status_code == 202 {
        Ok(())
    } else {
        Err(
            RoqoqoBackendError::NetworkError {
                msg: String::from_str("Received an error response from the submission endpoint."),
            },
        )
    }
}

/// The URL a job's status is polled from: the endpoint plus the job ID.
pub fn job_url(remote_host: &String, id: &String) -> (r: String)
    ensures
        r@ == remote_host@ + "/"@ + id@,
{
    let mut url = remote_host.clone();
    url.append("/");
    url.append(id.as_str());
    url
}

/// The URL a job is aborted through.
pub fn abort_url(remote_host: &String, id: &String) -> (r: String)
    ensures
        r@ == remote_host@ + "/jobs/"@ + id@ + "/abort"@,
{
    let mut url = remote_host.clone();
    url.append("/jobs/");
    url.append(id.as_str());
    url.append("/abort");
    url
}

/// The value of the authorization header: the bearer token.
pub fn bearer_authorization(access_token: &String) -> (r: String)
    ensures
        r@ == "Bearer "@ + access_token@,
{
    let mut header = String::from_str("Bearer ");
    header.append(access_token.as_str());
    header
}

/// One decision of the polling loop: what to do with a fetched job
/// response. Ready returns the response, a failed job surfaces the
/// server's message, an aborted one an aborted-job error, and both pending
/// states ask for another wait-and-retry cycle.
pub fn poll_step(result: IqmRunResult, id: &String) -> (r: Result<
    Option<IqmRunResult>,
    IqmBackendError,
>)
    requires
        result.status is Failed ==> result.message is Some,
    ensures
        result.status is Ready ==> (r matches Ok(Some(x)) && x == result),
        result.status is PendingCompilation || result.status is PendingExecution ==> (r matches
        Ok(x) && x is None),
        result.status is Failed ==> (r matches Err(IqmBackendError::JobFailed { id: i, msg })
            && i@ == id@ && msg@ == result.message->0@),
        result.status is Aborted ==> (r matches Err(IqmBackendError::JobAborted { id: i }) && i@
            == id@),
{
    match result.status {
        Status::Ready => Ok(Some(result)),
        Status::Failed => {
            let msg = match result.message {
                Some(m) => m,
                None => String::new(),
            };
            Err(IqmBackendError::JobFailed { id: id.clone(), msg })
        },
        Status::Aborted => Err(IqmBackendError::JobAborted { id: id.clone() }),
        _ => Ok(None),
    }
}

/// The outcome of an abort request: a success status means the job was
/// aborted, anything else surfaces the server's detail message.
pub fn interpret_abort_response(status_code: u16, detail: String, id: &String) -> (r: Result<
    (),
    IqmBackendError,
>)
    ensures
        status_code == 200 ==> r is Ok,
        status_code != 200 ==> (r matches Err(IqmBackendError::JobAbortionFailed { id: i, msg })
            && i@ == id@ && msg@ == detail@),
{
    if status_code == 200 {
        Ok(())
    } else {
        Err(IqmBackendError::JobAbortionFailed { id: id.clone(), msg: detail })
    }
}


/// Declared length of the bit register named `name`: the last declaration
/// wins, and an undeclared register has length zero.
pub open spec fn spec_named_definition_length(ops: Seq<Operation>, name: Seq<char>) -> usize
    decreases ops.len(),
{
    if ops.len() == 0 {
        0
    } else {
        match ops.last() {
            Operation::DefinitionBit { name: n, length, .. } => {
                if n@ == name {
                    length
                } else {
                    spec_named_definition_length(ops.drop_last(), name)
                }
            },
            _ => spec_named_definition_length(ops.drop_last(), name),
        }
    }
}

/// Why a circuit fails validation against a device.
pub ghost enum CircuitValidationError {
    /// The circuit touches no qubit.
    Empty,
    /// The resonator-coupled device rejects an operation.
    DeviceGate(DenebConnectivityError),
    /// The resonator-coupled device rejects the load/store discipline.
    LoadStore(LoadStoreViolation),
    /// A gate without a gate-time entry on the device.
    UnsupportedGate {
        /// Name of the operation.
        hqslang: Seq<char>,
    },
    /// A qubit is measured more than once.
    DoubleMeasurement {
        /// The qubit measured twice.
        qubit: usize,
    },
    /// A repeated measurement overlaps individual measurements.
    OverlappingMeasurements,
    /// The register of a repeated measurement is shorter than the device.
    RegisterTooSmall {
        /// Name of the register.
        name: Seq<char>,
    },
    /// The circuit has no measurement at all.
    NoMeasurement,
}

/// The measured-once scan: collects measured qubits and whether any
/// measurement exists, or fails on the first violation. The register a
/// repeated measurement targets must be at least as long as the device's
/// qubit count; its declaration is looked up in the whole circuit.
pub open spec fn spec_measure_scan(
    ops: Seq<Operation>,
    device_number_qubits: usize,
    full_ops: Seq<Operation>,
) -> Result<(Seq<usize>, bool), CircuitValidationError>
    decreases ops.len(),
{
    if ops.len() == 0 {
        Ok((Seq::empty(), false))
    } else {
        match spec_measure_scan(ops.drop_last(), device_number_qubits, full_ops) {
            Err(e) => Err(e),
            Ok((measured, seen)) => match ops.last() {
                Operation::MeasureQubit { qubit, .. } => {
                    if measured.contains(qubit) {
                        Err(CircuitValidationError::DoubleMeasurement { qubit })
                    } else {
                        Ok((measured.push(qubit), true))
                    }
                },
                Operation::PragmaRepeatedMeasurement { readout, .. } => {
                    if measured.len() > 0 {
                        Err(CircuitValidationError::OverlappingMeasurements)
                    } else if device_number_qubits > spec_named_definition_length(
                        full_ops,
                        readout@,
                    ) {
                        Err(CircuitValidationError::RegisterTooSmall { name: readout@ })
                    } else {
                        Ok(
                            (
                                Seq::new(device_number_qubits as nat, |i: int| i as usize),
                                true,
                            ),
                        )
                    }
                },
                _ => Ok((measured, seen)),
            },
        }
    }
}

/// Once the measured-once scan fails, longer prefixes keep the same error.
pub proof fn lemma_measure_scan_error_persists(
    ops: Seq<Operation>,
    i: int,
    device_number_qubits: usize,
    full_ops: Seq<Operation>,
)
    requires
        0 <= i <= ops.len(),
        spec_measure_scan(ops.take(i), device_number_qubits, full_ops) is Err,
    ensures
        spec_measure_scan(ops, device_number_qubits, full_ops) == spec_measure_scan(
            ops.take(i),
            device_number_qubits,
            full_ops,
        ),
    decreases ops.len() - i,
{
    if i < ops.len() {
        assert(ops.take(i + 1).drop_last() =~= ops.take(i));
        lemma_measure_scan_error_persists(ops, i + 1, device_number_qubits, full_ops);
    } else {
        assert(ops.take(i) =~= ops);
    }
}

/// Whether the device's own structural validator runs instead of the
/// generic gate-table check.
pub open spec fn spec_uses_deneb_validator(device: IqmDevice) -> bool {
    spec_device_name(device) == "Deneb"@ && device is DenebDevice
}

/// The validation verdict for a circuit on a device: non-empty, every
/// gate within the device's capabilities, every qubit measured at most
/// once, and registers of repeated measurements large enough.
pub open spec fn spec_validate_circuit(device: IqmDevice, ops: Seq<Operation>) -> Result<
    (),
    CircuitValidationError,
> {
    if spec_ops_max_qubit(ops) is None {
        Err(CircuitValidationError::Empty)
    } else {
        let device_check: Result<(), CircuitValidationError> = if spec_uses_deneb_validator(
            device,
        ) {
            match spec_deneb_connectivity(ops) {
                Err(e) => Err(CircuitValidationError::DeviceGate(e)),
                Ok(_) => match spec_load_store_scan(ops) {
                    Err(v) => Err(CircuitValidationError::LoadStore(v)),
                    Ok(_) => Ok(()),
                },
            }
        } else {
            match spec_backend_connectivity(device, ops) {
                Err(h) => Err(CircuitValidationError::UnsupportedGate { hqslang: h }),
                Ok(_) => Ok(()),
            }
        };
        match device_check {
            Err(e) => Err(e),
            Ok(_) => match spec_measure_scan(ops, spec_number_qubits(device), ops) {
                Err(e) => Err(e),
                Ok((_, seen)) => if seen {
                    Ok(())
                } else {
                    Err(CircuitValidationError::NoMeasurement)
                },
            },
        }
    }
}

/// Which executable errors may stand for a validation error.
pub open spec fn spec_validation_error_matches(
    e: IqmBackendError,
    m: CircuitValidationError,
) -> bool {
    match m {
        CircuitValidationError::Empty => e is EmptyCircuit,
        CircuitValidationError::DeviceGate(d) => spec_deneb_error_matches(e, d),
        CircuitValidationError::DoubleMeasurement { qubit } => e matches
            IqmBackendError::InvalidCircuit { msg } && msg@ == "Qubit "@
            + crate::labels::spec_decimal(qubit as int) + " is being measured multiple times."@,
        CircuitValidationError::RegisterTooSmall { name } => e matches
            IqmBackendError::RegisterTooSmall { name: n } && n@ == name,
        _ => e is InvalidCircuit,
    }
}

/// Declared length of the bit register named `name` in the circuit; the
/// last declaration wins, and an undeclared register has length zero.
fn named_definition_length(circuit: &Circuit, name: &String) -> (r: usize)
    ensures
        r == spec_named_definition_length(circuit.operations@, name@),
{
    let ghost opseq = circuit.operations@;
    let mut found: usize = 0;
    let mut i: usize = 0;
    while i < circuit.operations.len()
        invariant
            i <= opseq.len(),
            opseq == circuit.operations@,
            found == spec_named_definition_length(opseq.take(i as int), name@),
        decreases opseq.len() - i,
    {
        proof {
            assert(opseq.take(i + 1 as int).drop_last() =~= opseq.take(i as int));
            assert(opseq.take(i + 1 as int).last() == opseq[i as int]);
        }
        match &circuit.operations[i] {
            Operation::DefinitionBit { name: n, length, .. } => {
                if *n == *name {
                    found = *length;
                    proof {
                        assert(spec_named_definition_length(opseq.take(i + 1 as int), name@)
                            == opseq[i as int]->DefinitionBit_length);
                    }
                } else {
                    proof {
                        assert(spec_named_definition_length(opseq.take(i + 1 as int), name@)
                            == spec_named_definition_length(opseq.take(i as int), name@));
                    }
                }
            },
            _ => {
                proof {
                    assert(spec_named_definition_length(opseq.take(i + 1 as int), name@)
                        == spec_named_definition_length(opseq.take(i as int), name@));
                }
            },
        }
        i = i + 1;
    }
    proof {
        assert(opseq.take(opseq.len() as int) =~= opseq);
    }
    found
}

/// Membership test on a list of qubit indices.
fn usizes_contain(values: &Vec<usize>, q: usize) -> (r: bool)
    ensures
        r == values@.contains(q),
{
    let mut i: usize = 0;
    while i < values.len()
        invariant
            i <= values@.len(),
            forall|j: int| 0 <= j < i ==> values@[j] != q,
        decreases values@.len() - i,
    {
        if values[i] == q {
            return true;
        }
        i = i + 1;
    }
    false
}

impl Backend {
    /// Checks that a circuit is well-defined for the backend's device:
    /// it touches at least one qubit, its gates lie within the device's
    /// capabilities (with the resonator-coupled device running its own
    /// structural checks), no qubit is measured twice, and the register a
    /// repeated measurement targets is at least as long as the device's
    /// qubit count.
    pub fn validate_circuit(&self, circuit: &Circuit) -> (r: Result<(), IqmBackendError>)
        ensures
            ({
                let verdict = spec_validate_circuit(self.device, circuit.operations@);
                &&& (r is Ok <==> verdict is Ok)
                &&& verdict is Err ==> r is Err && spec_validation_error_matches(
                    r->Err_0,
                    verdict->Err_0,
                )
            }),
    {
        let ghost opseq = circuit.operations@;
        let max_qubit = ops_max_qubit(&circuit.operations);
        if max_qubit.is_none() {
            return Err(IqmBackendError::EmptyCircuit);
        }
        let device_name = self.device.name();
        let is_deneb = device_name == String::from_str("Deneb");
        match &self.device {
            IqmDevice::DenebDevice(d) => {
                if is_deneb {
                    let deneb_verdict = d.validate_circuit(circuit);
                    if let Err(e) = deneb_verdict {
                        return Err(e);
                    }
                } else {
                    let conn = self.validate_circuit_connectivity(circuit);
                    if let Err(e) = conn {
                        return Err(
                            IqmBackendError::InvalidCircuit {
                                msg: unsupported_gate_message(e),
                            },
                        );
                    }
                }
            },
            _ => {
                let conn = self.validate_circuit_connectivity(circuit);
                if let Err(e) = conn {
                    return Err(
                        IqmBackendError::InvalidCircuit { msg: unsupported_gate_message(e) },
                    );
                }
            },
        }
        let device_number_qubits = self.device.number_qubits();
        let mut measured: Vec<usize> = Vec::new();
        let mut seen_measurement: bool = false;
        let mut i: usize = 0;
        while i < circuit.operations.len()
            invariant
                i <= opseq.len(),
                opseq == circuit.operations@,
                device_number_qubits == spec_number_qubits(self.device),
                spec_ops_max_qubit(opseq) is Some,
                spec_uses_deneb_validator(self.device) ==> spec_deneb_connectivity(opseq) is Ok
                    && spec_load_store_scan(opseq) is Ok,
                !spec_uses_deneb_validator(self.device) ==> spec_backend_connectivity(
                    self.device,
                    opseq,
                ) is Ok,
                spec_measure_scan(opseq.take(i as int), device_number_qubits, opseq) == Ok::<
                    (Seq<usize>, bool),
                    CircuitValidationError,
                >((measured@, seen_measurement)),
            decreases opseq.len() - i,
        {
            proof {
                assert(opseq.take(i + 1 as int).drop_last() =~= opseq.take(i as int));
                assert(opseq.take(i + 1 as int).last() == opseq[i as int]);
            }
            match &circuit.operations[i] {
                Operation::MeasureQubit { qubit, .. } => {
                    if usizes_contain(&measured, *qubit) {
                        proof {
                            lemma_measure_scan_error_persists(
                                opseq,
                                i + 1,
                                device_number_qubits,
                                opseq,
                            );
                        }
                        let mut msg = String::from_str("Qubit ");
                        msg.append(crate::labels::usize_to_string(*qubit).as_str());
                        msg.append(" is being measured multiple times.");
                        return Err(IqmBackendError::InvalidCircuit { msg });
                    }
                    measured.push(*qubit);
                    seen_measurement = true;
                },
                Operation::PragmaRepeatedMeasurement { readout, .. } => {
                    if measured.len() > 0 {
                        proof {
                            lemma_measure_scan_error_persists(
                                opseq,
                                i + 1,
                                device_number_qubits,
                                opseq,
                            );
                        }
                        return Err(
                            IqmBackendError::InvalidCircuit {
                                msg: String::from_str(
                                    "Qubits are being measured more than once: a repeated measurement excludes individual qubit measurements.",
                                ),
                            },
                        );
                    }
                    let register_length = named_definition_length(circuit, readout);
                    if device_number_qubits > register_length {
                        proof {
                            lemma_measure_scan_error_persists(
                                opseq,
                                i + 1,
                                device_number_qubits,
                                opseq,
                            );
                        }
                        return Err(
                            IqmBackendError::RegisterTooSmall { name: readout.clone() },
                        );
                    }
                    let mut full_range: Vec<usize> = Vec::new();
                    let mut t: usize = 0;
                    while t < device_number_qubits
                        invariant
                            t <= device_number_qubits,
                            full_range@.len() == t,
                            forall|k: int| 0 <= k < t ==> #[trigger] full_range@[k] == k as usize,
                        decreases device_number_qubits - t,
                    {
                        full_range.push(t);
                        t = t + 1;
                    }
                    proof {
                        assert(full_range@ =~= Seq::new(
                            device_number_qubits as nat,
                            |k: int| k as usize,
                        ));
                    }
                    measured = full_range;
                    seen_measurement = true;
                },
                _ => {},
            }
            i = i + 1;
        }
        proof {
            assert(opseq.take(opseq.len() as int) =~= opseq);
        }
        if !seen_measurement {
            return Err(
                IqmBackendError::InvalidCircuit {
                    msg: String::from_str(
                        "All circuits submitted need to have at least one measurement instruction.",
                    ),
                },
            );
        }
        Ok(())
    }
}

/// The message a rejected gate produces on the generic validation path.
fn unsupported_gate_message(e: RoqoqoBackendError) -> (r: String) {
    let mut msg = String::from_str("An operation is not available on this backend: ");
    match e {
        RoqoqoBackendError::OperationNotInBackend { hqslang, .. } => {
            msg.append(hqslang.as_str());
        },
        _ => {},
    }
    msg
}


/// Adds a register name to an accumulator of pairwise distinct names.
pub open spec fn spec_add_distinct(acc: Seq<Seq<char>>, name: Seq<char>) -> Seq<Seq<char>> {
    if acc.contains(name) {
        acc
    } else {
        acc.push(name)
    }
}

/// Folds a circuit's output register names into the accumulator.
pub open spec fn spec_collect_registers(acc: Seq<Seq<char>>, ops: Seq<Operation>) -> Seq<
    Seq<char>,
>
    decreases ops.len(),
{
    if ops.len() == 0 {
        acc
    } else {
        let rest = spec_collect_registers(acc, ops.drop_last());
        if ops.last() matches Operation::DefinitionBit { is_output: true, .. } {
            spec_add_distinct(rest, ops.last()->DefinitionBit_name@)
        } else {
            rest
        }
    }
}

/// Why a batch fails validation.
pub ghost enum BatchValidationError {
    /// One circuit of the batch is invalid.
    Circuit(CircuitValidationError),
    /// One circuit declares no output register.
    NoOutputRegister,
    /// Two different circuits declare the same output register.
    DuplicateOutputRegisters,
}

/// Validates the batch circuit by circuit: each circuit must be valid and
/// declare at least one output register, and no output register may be
/// declared by two different circuits. Returns the output-register names
/// of the whole batch, in declaration order.
pub open spec fn spec_batch_fold(device: IqmDevice, circuits: Seq<Circuit>) -> Result<
    Seq<Seq<char>>,
    BatchValidationError,
>
    decreases circuits.len(),
{
    if circuits.len() == 0 {
        Ok(Seq::empty())
    } else {
        match spec_batch_fold(device, circuits.drop_last()) {
            Err(e) => Err(e),
            Ok(acc) => match spec_validate_circuit(device, circuits.last().operations@) {
                Err(e) => Err(BatchValidationError::Circuit(e)),
                Ok(_) => {
                    let local = spec_collect_registers(
                        Seq::empty(),
                        circuits.last().operations@,
                    );
                    if local.len() == 0 {
                        Err(BatchValidationError::NoOutputRegister)
                    } else if exists|w: int|
                        0 <= w < local.len() && acc.contains(#[trigger] local[w]) {
                        Err(BatchValidationError::DuplicateOutputRegisters)
                    } else {
                        Ok(acc + local)
                    }
                },
            },
        }
    }
}

/// Validates the whole batch: every circuit valid, each with an output
/// register, and the circuits' output-register names pairwise disjoint.
pub open spec fn spec_validate_batch(device: IqmDevice, circuits: Seq<Circuit>) -> Result<
    (),
    BatchValidationError,
> {
    match spec_batch_fold(device, circuits) {
        Err(e) => Err(e),
        Ok(_) => Ok(()),
    }
}

/// A name collected from a prefix is collected from the whole circuit.
pub proof fn lemma_collect_prefix_member(ops: Seq<Operation>, j: int, x: Seq<char>)
    requires
        0 <= j <= ops.len(),
        spec_collect_registers(Seq::empty(), ops.take(j)).contains(x),
    ensures
        spec_collect_registers(Seq::empty(), ops).contains(x),
    decreases ops.len() - j,
{
    if j < ops.len() {
        assert(ops.take(j + 1).drop_last() =~= ops.take(j));
        let prev = spec_collect_registers(Seq::empty(), ops.take(j));
        let next = spec_collect_registers(Seq::empty(), ops.take(j + 1));
        assert(next.contains(x)) by {
            if ops.take(j + 1).last() matches Operation::DefinitionBit { is_output: true, .. } {
                let n = ops.take(j + 1).last()->DefinitionBit_name@;
                if prev.contains(n) {
                    assert(next == prev);
                } else {
                    assert(next == prev.push(n));
                    let w = choose|w: int| 0 <= w < prev.len() && prev[w] == x;
                    assert(prev.push(n)[w] == x);
                }
            } else {
                assert(next == prev);
            }
        }
        lemma_collect_prefix_member(ops, j + 1, x);
    } else {
        assert(ops.take(j) =~= ops);
    }
}

/// Once the batch fold fails, longer prefixes keep the same error.
pub proof fn lemma_batch_fold_error_persists(device: IqmDevice, circuits: Seq<Circuit>, i: int)
    requires
        0 <= i <= circuits.len(),
        spec_batch_fold(device, circuits.take(i)) is Err,
    ensures
        spec_batch_fold(device, circuits) == spec_batch_fold(device, circuits.take(i)),
    decreases circuits.len() - i,
{
    if i < circuits.len() {
        assert(circuits.take(i + 1).drop_last() =~= circuits.take(i));
        lemma_batch_fold_error_persists(device, circuits, i + 1);
    } else {
        assert(circuits.take(i) =~= circuits);
    }
}

/// Which executable errors may stand for a batch validation error.
pub open spec fn spec_batch_error_matches(e: IqmBackendError, m: BatchValidationError) -> bool {
    match m {
        BatchValidationError::Circuit(c) => spec_validation_error_matches(e, c),
        BatchValidationError::NoOutputRegister => e is InvalidCircuit,
        BatchValidationError::DuplicateOutputRegisters => e is InvalidCircuit,
    }
}

/// Membership test on a list of register names.
fn names_contain(names: &Vec<String>, name: &String) -> (r: bool)
    ensures
        r == names@.map_values(|n: String| n@).contains(name@),
{
    let ghost models = names@.map_values(|n: String| n@);
    let mut i: usize = 0;
    while i < names.len()
        invariant
            i <= names@.len(),
            models == names@.map_values(|n: String| n@),
            forall|j: int| 0 <= j < i ==> models[j] != name@,
        decreases names@.len() - i,
    {
        if names[i] == *name {
            proof {
                assert(models[i as int] == name@);
            }
            return true;
        }
        i = i + 1;
    }
    proof {
        assert forall|j: int| 0 <= j < models.len() implies models[j] != name@ by {}
    }
    false
}

impl Backend {
    /// Validates a batch for submission: every circuit must be valid for
    /// the device and declare an output register, and no two circuits may
    /// write to the same output register.
    pub fn validate_circuit_batch(&self, circuit_batch: &Vec<Circuit>) -> (r: Result<
        (),
        IqmBackendError,
    >)
        ensures
            ({
                let verdict = spec_validate_batch(self.device, circuit_batch@);
                &&& (r is Ok <==> verdict is Ok)
                &&& verdict is Err ==> r is Err && spec_batch_error_matches(
                    r->Err_0,
                    verdict->Err_0,
                )
            }),
    {
        let ghost batch = circuit_batch@;
        let mut output_registers: Vec<String> = Vec::new();
        proof {
            assert(batch.take(0) =~= Seq::<Circuit>::empty());
            assert(output_registers@.map_values(|n: String| n@) =~= Seq::<Seq<char>>::empty());
        }
        let mut i: usize = 0;
        while i < circuit_batch.len()
            invariant
                i <= batch.len(),
                batch == circuit_batch@,
                spec_batch_fold(self.device, batch.take(i as int)) == Ok::<
                    Seq<Seq<char>>,
                    BatchValidationError,
                >(output_registers@.map_values(|n: String| n@)),
            decreases batch.len() - i,
        {
            proof {
                assert(batch.take(i + 1 as int).drop_last() =~= batch.take(i as int));
                assert(batch.take(i + 1 as int).last() == batch[i as int]);
            }
            let circuit = &circuit_batch[i];
            let circuit_verdict = self.validate_circuit(circuit);
            if let Err(e) = circuit_verdict {
                proof {
                    lemma_batch_fold_error_persists(self.device, batch, i + 1);
                }
                return Err(e);
            }
            let ghost opseq = circuit.operations@;
            let ghost acc0 = output_registers@.map_values(|n: String| n@);
            let mut circuit_registers: Vec<String> = Vec::new();
            proof {
                assert(opseq.take(0) =~= Seq::<Operation>::empty());
                assert(circuit_registers@.map_values(|n: String| n@) =~= Seq::<
                    Seq<char>,
                >::empty());
            }
            let mut j: usize = 0;
            while j < circuit.operations.len()
                invariant
                    j <= opseq.len(),
                    circuit.operations@ == opseq,
                    opseq == batch[i as int].operations@,
                    i < batch.len(),
                    batch == circuit_batch@,
                    spec_validate_circuit(self.device, opseq) is Ok,
                    spec_batch_fold(self.device, batch.take(i as int)) == Ok::<
                        Seq<Seq<char>>,
                        BatchValidationError,
                    >(acc0),
                    output_registers@.map_values(|n: String| n@) == acc0,
                    circuit_registers@.map_values(|n: String| n@) == spec_collect_registers(
                        Seq::empty(),
                        opseq.take(j as int),
                    ),
                    forall|k: int|
                        0 <= k < circuit_registers@.len() ==> !acc0.contains(
                            (#[trigger] circuit_registers@[k])@,
                        ),
                decreases opseq.len() - j,
            {
                proof {
                    assert(opseq.take(j + 1 as int).drop_last() =~= opseq.take(j as int));
                    assert(opseq.take(j + 1 as int).last() == opseq[j as int]);
                }
                match &circuit.operations[j] {
                    Operation::DefinitionBit { name, is_output, .. } => {
                        if *is_output {
                            if !names_contain(&circuit_registers, name) {
                                if names_contain(&output_registers, name) {
                                    proof {
                                        let partial = spec_collect_registers(
                                            Seq::empty(),
                                            opseq.take(j as int),
                                        );
                                        assert(spec_collect_registers(
                                            Seq::empty(),
                                            opseq.take(j + 1 as int),
                                        ).contains(name@)) by {
                                            assert(spec_collect_registers(
                                                Seq::empty(),
                                                opseq.take(j + 1 as int),
                                            ) == partial.push(name@));
                                            assert(partial.push(name@)[partial.len() as int]
                                                == name@);
                                        }
                                        lemma_collect_prefix_member(opseq, j + 1, name@);
                                        let local_full = spec_collect_registers(
                                            Seq::empty(),
                                            opseq,
                                        );
                                        let w = choose|w: int|
                                            0 <= w < local_full.len() && local_full[w] == name@;
                                        assert(acc0.contains(#[trigger] local_full[w]));
                                        assert(batch.take(i + 1 as int).drop_last() =~= batch.take(
                                            i as int,
                                        ));
                                        assert(batch.take(i + 1 as int).last() == batch[i as int]);
                                        assert(spec_batch_fold(
                                            self.device,
                                            batch.take(i + 1 as int),
                                        ) == Err::<Seq<Seq<char>>, BatchValidationError>(
                                            BatchValidationError::DuplicateOutputRegisters,
                                        ));
                                        lemma_batch_fold_error_persists(
                                            self.device,
                                            batch,
                                            i + 1,
                                        );
                                    }
                                    return Err(
                                        IqmBackendError::InvalidCircuit {
                                            msg: String::from_str(
                                                "When submitting a batch of circuits, they need to write to different output registers.",
                                            ),
                                        },
                                    );
                                }
                                circuit_registers.push(name.clone());
                                proof {
                                    assert(circuit_registers@.map_values(|n: String| n@)
                                        =~= spec_collect_registers(
                                        Seq::empty(),
                                        opseq.take(j + 1 as int),
                                    ));
                                }
                            }
                        }
                    },
                    _ => {},
                }
                j = j + 1;
            }
            proof {
                assert(opseq.take(opseq.len() as int) =~= opseq);
            }
            if circuit_registers.len() == 0 {
                proof {
                    lemma_batch_fold_error_persists(self.device, batch, i + 1);
                }
                return Err(
                    IqmBackendError::InvalidCircuit {
                        msg: String::from_str(
                            "Circuits need to write to at least one output register.",
                        ),
                    },
                );
            }
            let ghost local = circuit_registers@.map_values(|n: String| n@);
            proof {
                assert(!(exists|w: int|
                    0 <= w < local.len() && acc0.contains(#[trigger] local[w]))) by {
                    if exists|w: int| 0 <= w < local.len() && acc0.contains(#[trigger] local[w]) {
                        let w = choose|w: int|
                            0 <= w < local.len() && acc0.contains(#[trigger] local[w]);
                        assert(local[w] == circuit_registers@[w]@);
                        assert(!acc0.contains(circuit_registers@[w]@));
                        assert(false);
                    }
                }
                assert(spec_batch_fold(self.device, batch.take(i + 1 as int)) == Ok::<
                    Seq<Seq<char>>,
                    BatchValidationError,
                >(acc0 + local));
                assert(acc0 + local.take(0) =~= acc0);
            }
            let mut t: usize = 0;
            while t < circuit_registers.len()
                invariant
                    t <= circuit_registers@.len(),
                    local == circuit_registers@.map_values(|n: String| n@),
                    output_registers@.map_values(|n: String| n@) == acc0 + local.take(t as int),
                decreases circuit_registers@.len() - t,
            {
                let ghost before = output_registers@.map_values(|n: String| n@);
                let entry = circuit_registers[t].clone();
                proof {
                    assert(entry@ == local[t as int]);
                }
                output_registers.push(entry);
                proof {
                    assert(output_registers@.map_values(|n: String| n@) =~= before.push(
                        local[t as int],
                    ));
                    assert(local.take(t + 1 as int) =~= local.take(t as int).push(
                        local[t as int],
                    ));
                    assert(before.push(local[t as int]) =~= acc0 + local.take(t + 1 as int));
                }
                t = t + 1;
            }
            proof {
                assert(local.take(local.len() as int) =~= local);
            }
            i = i + 1;
        }
        proof {
            assert(batch.take(batch.len() as int) =~= batch);
        }
        Ok(())
    }
}


/// Ghost model of a submission request.
pub ghost struct RunRequestModel {
    /// Models of the translated circuits.
    pub circuits: Seq<CircModel>,
    /// Requested shot count.
    pub shots: u16,
}

/// Translates every circuit of the batch, numbering them by position, and
/// collects the per-circuit shot counts.
pub open spec fn spec_batch_translations(
    circuits: Seq<Circuit>,
    device_number_qubits: usize,
    number_measurements_internal: Option<usize>,
) -> Result<(Seq<CircModel>, Seq<usize>), TransError>
    decreases circuits.len(),
{
    if circuits.len() == 0 {
        Ok((Seq::empty(), Seq::empty()))
    } else {
        match spec_batch_translations(
            circuits.drop_last(),
            device_number_qubits,
            number_measurements_internal,
        ) {
            Err(e) => Err(e),
            Ok((models, shots)) => match spec_call_circuit(
                circuits.last().operations@,
                device_number_qubits,
                number_measurements_internal,
                (circuits.len() - 1) as usize,
            ) {
                Err(e) => Err(e),
                Ok((c, n)) => Ok((models.push(c), shots.push(n))),
            },
        }
    }
}

/// Once one circuit fails to translate, the whole batch does.
pub proof fn lemma_batch_translations_error_persists(
    circuits: Seq<Circuit>,
    i: int,
    device_number_qubits: usize,
    number_measurements_internal: Option<usize>,
)
    requires
        0 <= i <= circuits.len(),
        spec_batch_translations(
            circuits.take(i),
            device_number_qubits,
            number_measurements_internal,
        ) is Err,
        forall|j: int|
            0 <= j < circuits.len() ==> spec_call_circuit(
                (#[trigger] circuits[j]).operations@,
                device_number_qubits,
                number_measurements_internal,
                j as usize,
            ) == spec_call_circuit(
                circuits[j].operations@,
                device_number_qubits,
                number_measurements_internal,
                j as usize,
            ),
    ensures
        spec_batch_translations(circuits, device_number_qubits, number_measurements_internal)
            == spec_batch_translations(
            circuits.take(i),
            device_number_qubits,
            number_measurements_internal,
        ),
    decreases circuits.len() - i,
{
    if i < circuits.len() {
        assert(circuits.take(i + 1).drop_last() =~= circuits.take(i));
        lemma_batch_translations_error_persists(
            circuits,
            i + 1,
            device_number_qubits,
            number_measurements_internal,
        );
    } else {
        assert(circuits.take(i) =~= circuits);
    }
}

/// All shot counts of the batch agree.
pub open spec fn spec_all_shots_equal(shots: Seq<usize>) -> bool {
    forall|i: int| 0 <= i < shots.len() ==> #[trigger] shots[i] == shots[0]
}

/// Why a submission request cannot be built.
pub ghost enum PrepareError {
    /// The batch failed validation.
    Batch(BatchValidationError),
    /// One circuit failed translation.
    Translate(TransError),
    /// The circuits request different shot counts, or the batch is empty.
    MismatchedShots,
}

/// The request a batch submits, or the first reason none can be built.
pub open spec fn spec_prepare_run_request(
    device: IqmDevice,
    number_measurements_internal: Option<usize>,
    circuits: Seq<Circuit>,
) -> Result<RunRequestModel, PrepareError> {
    match spec_validate_batch(device, circuits) {
        Err(e) => Err(PrepareError::Batch(e)),
        Ok(_) => match spec_batch_translations(
            circuits,
            spec_number_qubits(device),
            number_measurements_internal,
        ) {
            Err(e) => Err(PrepareError::Translate(e)),
            Ok((models, shots)) => {
                if shots.len() == 0 || !spec_all_shots_equal(shots) {
                    Err(PrepareError::MismatchedShots)
                } else {
                    Ok(RunRequestModel { circuits: models, shots: shots[0] as u16 })
                }
            },
        },
    }
}

/// Which executable errors may stand for a preparation error.
pub open spec fn spec_prepare_error_matches(e: IqmBackendError, m: PrepareError) -> bool {
    match m {
        PrepareError::Batch(b) => spec_batch_error_matches(e, b),
        PrepareError::Translate(t) => crate::interface::spec_error_matches(e, t),
        PrepareError::MismatchedShots => e is InvalidCircuit,
    }
}

/// A circuit the backend can process: room for 1-based qubit labels.
pub open spec fn spec_circuit_processable(ops: Seq<Operation>) -> bool {
    crate::interface::spec_ops_bounded(ops)
}

impl Backend {
    /// Builds the submission request for a batch: validates the batch,
    /// translates every circuit, and requires one shared shot count. No
    /// heralding is requested. This performs every local check, so a
    /// returned request is ready to be posted to the service.
    pub fn prepare_run_request(&self, circuit_batch: &Vec<Circuit>) -> (r: Result<
        IqmRunRequest,
        IqmBackendError,
    >)
        requires
            forall|i: int|
                0 <= i < circuit_batch@.len() ==> spec_circuit_processable(
                    (#[trigger] circuit_batch@[i]).operations@,
                ),
        ensures
            ({
                let prep = spec_prepare_run_request(
                    self.device,
                    self.number_measurements_internal,
                    circuit_batch@,
                );
                &&& prep matches Ok(m) ==> (r matches Ok(req) && req.circuits@.map_values(
                    |c: IqmCircuit| c@,
                ) == m.circuits && req.shots == m.shots && req.heralding_mode is NoHeralding)
                &&& prep is Err ==> r is Err && spec_prepare_error_matches(
                    r->Err_0,
                    prep->Err_0,
                )
            }),
    {
        let ghost batch = circuit_batch@;
        let batch_verdict = self.validate_circuit_batch(circuit_batch);
        if let Err(e) = batch_verdict {
            return Err(e);
        }
        let device_number_qubits = self.device.number_qubits();
        let mut circuits: Vec<IqmCircuit> = Vec::new();
        let mut shot_counts: Vec<usize> = Vec::new();
        proof {
            assert(batch.take(0) =~= Seq::<Circuit>::empty());
            assert(circuits@.map_values(|c: IqmCircuit| c@) =~= Seq::<CircModel>::empty());
        }
        let mut i: usize = 0;
        while i < circuit_batch.len()
            invariant
                i <= batch.len(),
                batch == circuit_batch@,
                device_number_qubits == spec_number_qubits(self.device),
                spec_validate_batch(self.device, batch) is Ok,
                forall|k: int|
                    0 <= k < batch.len() ==> spec_circuit_processable(
                        (#[trigger] batch[k]).operations@,
                    ),
                shot_counts@.len() == i,
                spec_batch_translations(
                    batch.take(i as int),
                    device_number_qubits,
                    self.number_measurements_internal,
                ) == Ok::<(Seq<CircModel>, Seq<usize>), TransError>(
                    (circuits@.map_values(|c: IqmCircuit| c@), shot_counts@),
                ),
            decreases batch.len() - i,
        {
            proof {
                assert(batch.take(i + 1 as int).drop_last() =~= batch.take(i as int));
                assert(batch.take(i + 1 as int).last() == batch[i as int]);
            }
            let translated = crate::interface::call_circuit(
                &circuit_batch[i],
                device_number_qubits,
                self.number_measurements_internal,
                i,
            );
            match translated {
                Err(e) => {
                    proof {
                        lemma_batch_translations_error_persists(
                            batch,
                            i + 1,
                            device_number_qubits,
                            self.number_measurements_internal,
                        );
                    }
                    return Err(e);
                },
                Ok((iqm_circuit, number_measurements)) => {
                    circuits.push(iqm_circuit);
                    shot_counts.push(number_measurements);
                    proof {
                        assert(circuits@.map_values(|c: IqmCircuit| c@) =~= spec_batch_translations(
                            batch.take(i + 1 as int),
                            device_number_qubits,
                            self.number_measurements_internal,
                        )->Ok_0.0);
                    }
                },
            }
            i = i + 1;
        }
        proof {
            assert(batch.take(batch.len() as int) =~= batch);
        }
        if shot_counts.len() == 0 {
            return Err(
                IqmBackendError::InvalidCircuit {
                    msg: String::from_str(
                        "A circuit batch needs at least one circuit to determine its shot count.",
                    ),
                },
            );
        }
        let first_shots = shot_counts[0];
        let mut t: usize = 1;
        while t < shot_counts.len()
            invariant
                1 <= t <= shot_counts@.len(),
                first_shots == shot_counts@[0],
                batch == circuit_batch@,
                device_number_qubits == spec_number_qubits(self.device),
                spec_validate_batch(self.device, batch) is Ok,
                spec_batch_translations(
                    batch,
                    device_number_qubits,
                    self.number_measurements_internal,
                ) == Ok::<(Seq<CircModel>, Seq<usize>), TransError>(
                    (circuits@.map_values(|c: IqmCircuit| c@), shot_counts@),
                ),
                forall|k: int| 0 <= k < t ==> #[trigger] shot_counts@[k] == shot_counts@[0],
            decreases shot_counts@.len() - t,
        {
            if shot_counts[t] != first_shots {
                return Err(
                    IqmBackendError::InvalidCircuit {
                        msg: String::from_str(
                            "Circuits in the circuit batch have different numbers of measurements, which is not allowed by the backend.",
                        ),
                    },
                );
            }
            t = t + 1;
        }
        #[verifier::truncate]
        let shots: u16 = first_shots as u16;
        Ok(IqmRunRequest { circuits, shots, heralding_mode: HeraldingMode::NoHeralding })
    }
}


/// The text with every occurrence of `jobs` replaced by
/// `quantum-architecture`, scanning left to right.
pub open spec fn spec_architecture_path(s: Seq<char>) -> Seq<char>
    decreases s.len(),
{
    if s.len() < 4 {
        s
    } else if s.subrange(0, 4) == "jobs"@ {
        "quantum-architecture"@ + spec_architecture_path(s.skip(4))
    } else {
        seq![s[0]] + spec_architecture_path(s.skip(1))
    }
}

/// The URL of the device's quantum-architecture endpoint: the job
/// endpoint with its `jobs` path segment rewritten.
pub fn architecture_url(remote_host: &String) -> (r: String)
    ensures
        r@ == spec_architecture_path(remote_host@),
{
    let source = remote_host.as_str();
    let n = source.unicode_len();
    let mut out = String::new();
    proof {
        assert(out@ + source@.skip(0) =~= source@);
    }
    let mut i: usize = 0;
    while i < n
        invariant
            i <= n,
            n == source@.len(),
            source@ == remote_host@,
            spec_architecture_path(remote_host@) == out@ + spec_architecture_path(
                source@.skip(i as int),
            ),
        decreases n - i,
    {
        proof {
            reveal_strlit("jobs");
        }
        let window_matches = if n - i >= 4 {
            source.get_char(i) == 'j' && source.get_char(i + 1) == 'o' && source.get_char(i + 2)
                == 'b' && source.get_char(i + 3) == 's'
        } else {
            false
        };
        let ghost rest = source@.skip(i as int);
        if window_matches {
            proof {
                assert(rest.subrange(0, 4) =~= "jobs"@);
                assert(rest.skip(4) =~= source@.skip(i + 4 as int));
                assert(out@ + ("quantum-architecture"@ + spec_architecture_path(rest.skip(4)))
                    =~= (out@ + "quantum-architecture"@) + spec_architecture_path(rest.skip(4)));
            }
            out.append("quantum-architecture");
            i = i + 4;
        } else {
            proof {
                if rest.len() >= 4 && rest.subrange(0, 4) == "jobs"@ {
                    assert(rest.subrange(0, 4)[0] == source@[i as int]);
                    assert(rest.subrange(0, 4)[1] == source@[i + 1 as int]);
                    assert(rest.subrange(0, 4)[2] == source@[i + 2 as int]);
                    assert(rest.subrange(0, 4)[3] == source@[i + 3 as int]);
                    assert(false);
                }
                assert(rest.drop_first() =~= source@.skip(i + 1 as int));
                assert(source@.subrange(i as int, i + 1 as int) =~= seq![rest[0]]);
                assert(out@ + (seq![rest[0]] + spec_architecture_path(rest.drop_first())) =~= (
                out@ + seq![rest[0]]) + spec_architecture_path(rest.drop_first()));
            }
            let one = source.substring_char(i, i + 1);
            out.append(one);
            i = i + 1;
        }
    }
    proof {
        assert(source@.skip(n as int) =~= Seq::<char>::empty());
        assert(out@ + spec_architecture_path(source@.skip(n as int)) =~= out@);
    }
    out
}

} // verus!
