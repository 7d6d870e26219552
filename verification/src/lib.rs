//! Client-side core for running quantum circuits on IQM hardware.
//!
//! The crate models circuits, devices and the vendor wire format as plain
//! data, and verifies the translation, validation and result-reassembly
//! pipeline that sits between a caller's circuit and the remote execution
//! service.

use vstd::prelude::*;

pub mod circuit;
pub mod labels;
pub mod registers;
pub mod interface;
pub mod devices;
pub mod backend;
pub mod results;

pub use backend::{Backend, IqmRunRequest, IqmRunResult};
pub use devices::{AdonisDevice, DemoDevice, DenebDevice, IqmDevice, ResonatorFreeDevice};
pub use interface::{call_circuit, call_operation, IqmCircuit, IqmInstruction};
pub use registers::MeasuredQubitsMap;
pub use results::results_to_registers;

verus! {

/// Errors produced by the backend pipeline.
#[derive(Debug, Clone, PartialEq)]
pub enum IqmBackendError {
    /// Status of a submitted job is failed.
    JobFailed {
        /// Job ID
        id: String,
        /// Failure message reported by the server
        msg: String,
    },
    /// Status of a submitted job is aborted.
    JobAborted {
        /// Job ID
        id: String,
    },
    /// Abortion of a job has failed.
    JobAbortionFailed {
        /// Job ID
        id: String,
        /// Abort response from the endpoint
        msg: String,
    },
    /// Result returned by the server is empty.
    EmptyResult {
        /// Job ID
        id: String,
    },
    /// Circuit passed to the backend is empty.
    EmptyCircuit,
    /// A qubit is being measured multiple times in the circuit provided.
    QubitMeasuredMultipleTimes {
        /// Message
        msg: String,
    },
    /// Readout register is too small for the number of qubits in the circuit.
    RegisterTooSmall {
        /// Name of the readout register
        name: String,
    },
    /// Circuit passed to the backend is invalid.
    InvalidCircuit {
        /// Message
        msg: String,
    },
    /// Problem with circuit metadata in the results.
    MetadataError {
        /// Message
        msg: String,
    },
    /// Received invalid results from the server.
    InvalidResults {
        /// Message
        msg: String,
    },
    /// Propagation of a backend transport or capability error.
    RoqoqoBackendError(RoqoqoBackendError),
}

/// Transport and capability errors shared with the generic backend layer.
#[derive(Debug, Clone, PartialEq)]
pub enum RoqoqoBackendError {
    /// An operation is not available on the targeted backend.
    OperationNotInBackend {
        /// Name of the backend
        backend: String,
        /// Name of the unsupported operation
        hqslang: String,
    },
    /// A network request failed.
    NetworkError {
        /// Message
        msg: String,
    },
    /// Waiting for a job exceeded the time budget.
    Timeout {
        /// Message
        msg: String,
    },
    /// No access token was available.
    MissingAuthentification {
        /// Message
        msg: String,
    },
    /// A generic error.
    GenericError {
        /// Message
        msg: String,
    },
}

} // verus!
