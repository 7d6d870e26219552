//! Circuit model: the operations a caller can ask the backend to run.
//!
//! Rotation angles are carried as IEEE-754 double bit patterns, already
//! expressed in the vendor's unit of turns (full revolutions). The core never
//! interprets these numbers; it only moves them into the wire-format
//! instructions.

use vstd::prelude::*;

verus! {

/// Repetition count of a loop: either a concrete number or a symbolic
/// expression that only a later parameter substitution could resolve.
#[derive(Debug, PartialEq)]
pub enum LoopRepetitions {
    /// A concrete number of repetitions.
    Fixed(usize),
    /// A symbolic repetition count, named by its expression.
    Symbolic(String),
}

/// One operation of a circuit.
#[derive(Debug, PartialEq)]
pub enum Operation {
    /// Rotation around an axis in the XY-plane. Both angles are in turns,
    /// as IEEE-754 double bit patterns, and are opaque to the core.
    RotateXY {
        /// The qubit the rotation acts on.
        qubit: usize,
        /// Rotation angle, in turns (bit pattern of a double).
        theta_turns: u64,
        /// Axis phase, in turns (bit pattern of a double).
        phi_turns: u64,
    },
    /// Controlled Z gate between two qubits.
    ControlledPauliZ {
        /// Control qubit.
        control: usize,
        /// Target qubit.
        target: usize,
    },
    /// Controlled Z gate between a qubit and a resonator mode.
    CZQubitResonator {
        /// The qubit involved.
        qubit: usize,
        /// The resonator mode involved.
        mode: usize,
    },
    /// Loads an excitation from the resonator back into a qubit.
    SingleExcitationLoad {
        /// The qubit involved.
        qubit: usize,
        /// The resonator mode involved.
        mode: usize,
    },
    /// Stores a qubit's excitation into the resonator.
    SingleExcitationStore {
        /// The qubit involved.
        qubit: usize,
        /// The resonator mode involved.
        mode: usize,
    },
    /// Measurement of a single qubit into one position of a register.
    MeasureQubit {
        /// The measured qubit.
        qubit: usize,
        /// Name of the output register written to.
        readout: String,
        /// Position in the output register written to.
        readout_index: usize,
    },
    /// Fixes the number of shots for the whole circuit.
    PragmaSetNumberOfMeasurements {
        /// The number of shots.
        number_measurements: usize,
        /// Name of the output register the shots are collected in.
        readout: String,
    },
    /// Repeated measurement of all device qubits, or of an explicit mapping.
    PragmaRepeatedMeasurement {
        /// Name of the output register written to.
        readout: String,
        /// The number of shots.
        number_measurements: usize,
        /// Optional map from measured qubit to register position.
        qubit_mapping: Option<Vec<(usize, usize)>>,
    },
    /// Repeats its inner operations a number of times.
    PragmaLoop {
        /// How often the body runs.
        repetitions: LoopRepetitions,
        /// The operations of the loop body.
        circuit: Vec<Operation>,
    },
    /// Declares a classical bit register.
    DefinitionBit {
        /// Name of the register.
        name: String,
        /// Length of the register.
        length: usize,
        /// Whether the register is returned to the caller.
        is_output: bool,
    },
    /// Sets one bit of a classical register to a fixed value.
    InputBit {
        /// Name of the register.
        name: String,
        /// Position in the register.
        index: usize,
        /// The value written.
        value: bool,
    },
    /// Any other operation acting on one qubit, named by its operation name.
    SingleQubitGate {
        /// Operation name.
        hqslang: String,
        /// The qubit the operation acts on.
        qubit: usize,
    },
    /// Any other operation acting on two qubits, named by its operation name.
    TwoQubitGate {
        /// Operation name.
        hqslang: String,
        /// Control qubit.
        control: usize,
        /// Target qubit.
        target: usize,
    },
    /// Any other operation acting on several qubits, named by its operation name.
    MultiQubitGate {
        /// Operation name.
        hqslang: String,
        /// The qubits the operation acts on.
        qubits: Vec<usize>,
    },
    /// Any other pragma, named by its operation name.
    Pragma {
        /// Operation name.
        hqslang: String,
        /// The qubits the pragma mentions, if any.
        qubits: Vec<usize>,
    },
}

/// An ordered sequence of operations.
#[derive(Debug, PartialEq)]
pub struct Circuit {
    /// The operations, in program order.
    pub operations: Vec<Operation>,
}

impl Circuit {
    /// Creates an empty circuit.
    pub fn new() -> (c: Circuit)
        ensures
            c.operations@ =~= Seq::<Operation>::empty(),
    {
        Circuit { operations: Vec::new() }
    }

    /// Appends one operation at the end of the circuit.
    pub fn push(&mut self, op: Operation)
        ensures
            final(self).operations@ == old(self).operations@.push(op),
    {
        self.operations.push(op);
    }
}

/// The operation name the circuit language uses for an operation.
pub open spec fn spec_hqslang(op: Operation) -> Seq<char> {
    match op {
        Operation::RotateXY { .. } => "RotateXY"@,
        Operation::ControlledPauliZ { .. } => "ControlledPauliZ"@,
        Operation::CZQubitResonator { .. } => "CZQubitResonator"@,
        Operation::SingleExcitationLoad { .. } => "SingleExcitationLoad"@,
        Operation::SingleExcitationStore { .. } => "SingleExcitationStore"@,
        Operation::MeasureQubit { .. } => "MeasureQubit"@,
        Operation::PragmaSetNumberOfMeasurements { .. } => "PragmaSetNumberOfMeasurements"@,
        Operation::PragmaRepeatedMeasurement { .. } => "PragmaRepeatedMeasurement"@,
        Operation::PragmaLoop { .. } => "PragmaLoop"@,
        Operation::DefinitionBit { .. } => "DefinitionBit"@,
        Operation::InputBit { .. } => "InputBit"@,
        Operation::SingleQubitGate { hqslang, .. } => hqslang@,
        Operation::TwoQubitGate { hqslang, .. } => hqslang@,
        Operation::MultiQubitGate { hqslang, .. } => hqslang@,
        Operation::Pragma { hqslang, .. } => hqslang@,
    }
}

impl Operation {
    /// Returns the operation name the circuit language uses for this operation.
    pub fn hqslang(&self) -> (r: String)
        ensures
            r@ == spec_hqslang(*self),
    {
        match self {
            Operation::RotateXY { .. } => String::from_str("RotateXY"),
            Operation::ControlledPauliZ { .. } => String::from_str("ControlledPauliZ"),
            Operation::CZQubitResonator { .. } => String::from_str("CZQubitResonator"),
            Operation::SingleExcitationLoad { .. } => String::from_str("SingleExcitationLoad"),
            Operation::SingleExcitationStore { .. } => String::from_str("SingleExcitationStore"),
            Operation::MeasureQubit { .. } => String::from_str("MeasureQubit"),
            Operation::PragmaSetNumberOfMeasurements { .. } => String::from_str(
                "PragmaSetNumberOfMeasurements",
            ),
            Operation::PragmaRepeatedMeasurement { .. } => String::from_str(
                "PragmaRepeatedMeasurement",
            ),
            Operation::PragmaLoop { .. } => String::from_str("PragmaLoop"),
            Operation::DefinitionBit { .. } => String::from_str("DefinitionBit"),
            Operation::InputBit { .. } => String::from_str("InputBit"),
            Operation::SingleQubitGate { hqslang, .. } => hqslang.clone(),
            Operation::TwoQubitGate { hqslang, .. } => hqslang.clone(),
            Operation::MultiQubitGate { hqslang, .. } => hqslang.clone(),
            Operation::Pragma { hqslang, .. } => hqslang.clone(),
        }
    }
}

/// The qubit a single-qubit operation acts on, if the operation is one.
///
/// Resonator operations are not single-qubit operations here: they act on a
/// qubit and the shared resonator mode together.
pub open spec fn spec_single_qubit_target(op: Operation) -> Option<usize> {
    match op {
        Operation::RotateXY { qubit, .. } => Some(qubit),
        Operation::SingleQubitGate { qubit, .. } => Some(qubit),
        _ => None,
    }
}

/// Executable counterpart of [`spec_single_qubit_target`].
pub fn single_qubit_target(op: &Operation) -> (r: Option<usize>)
    ensures
        r == spec_single_qubit_target(*op),
{
    match op {
        Operation::RotateXY { qubit, .. } => Some(*qubit),
        Operation::SingleQubitGate { qubit, .. } => Some(*qubit),
        _ => None,
    }
}

/// The largest qubit index an operation involves, if it involves any.
///
/// Measurement pragmas over all device qubits and register declarations
/// involve no concrete qubit index of their own.
pub open spec fn spec_op_max_qubit(op: Operation) -> Option<usize>
    decreases op,
{
    match op {
        Operation::RotateXY { qubit, .. } => Some(qubit),
        Operation::ControlledPauliZ { control, target } => Some(
            if control >= target {
                control
            } else {
                target
            },
        ),
        Operation::CZQubitResonator { qubit, .. } => Some(qubit),
        Operation::SingleExcitationLoad { qubit, .. } => Some(qubit),
        Operation::SingleExcitationStore { qubit, .. } => Some(qubit),
        Operation::MeasureQubit { qubit, .. } => Some(qubit),
        Operation::PragmaSetNumberOfMeasurements { .. } => None,
        Operation::PragmaRepeatedMeasurement { .. } => None,
        Operation::PragmaLoop { circuit, .. } => spec_ops_max_qubit(circuit@),
        Operation::DefinitionBit { .. } => None,
        Operation::InputBit { .. } => None,
        Operation::SingleQubitGate { qubit, .. } => Some(qubit),
        Operation::TwoQubitGate { control, target, .. } => Some(
            if control >= target {
                control
            } else {
                target
            },
        ),
        Operation::MultiQubitGate { qubits, .. } => spec_max_of(qubits@),
        Operation::Pragma { qubits, .. } => spec_max_of(qubits@),
    }
}

/// The larger of two optional qubit indices.
pub open spec fn spec_max_opt(a: Option<usize>, b: Option<usize>) -> Option<usize> {
    match (a, b) {
        (Some(x), Some(y)) => Some(
            if x >= y {
                x
            } else {
                y
            },
        ),
        (Some(x), None) => Some(x),
        (None, Some(y)) => Some(y),
        (None, None) => None,
    }
}

/// The largest element of a sequence of qubit indices, if it is non-empty.
pub open spec fn spec_max_of(qubits: Seq<usize>) -> Option<usize>
    decreases qubits.len(),
{
    if qubits.len() == 0 {
        None
    } else {
        spec_max_opt(spec_max_of(qubits.drop_last()), Some(qubits.last()))
    }
}

/// The largest qubit index any operation of the sequence involves.
pub open spec fn spec_ops_max_qubit(ops: Seq<Operation>) -> Option<usize>
    decreases ops,
{
    if ops.len() == 0 {
        None
    } else {
        spec_max_opt(spec_ops_max_qubit(ops.drop_last()), spec_op_max_qubit(ops.last()))
    }
}

/// Executable counterpart of [`spec_op_max_qubit`].
pub fn op_max_qubit(op: &Operation) -> (r: Option<usize>)
    ensures
        r == spec_op_max_qubit(*op),
    decreases *op,
{
    match op {
        Operation::RotateXY { qubit, .. } => Some(*qubit),
        Operation::ControlledPauliZ { control, target } => Some(
            if *control >= *target {
                *control
            } else {
                *target
            },
        ),
        Operation::CZQubitResonator { qubit, .. } => Some(*qubit),
        Operation::SingleExcitationLoad { qubit, .. } => Some(*qubit),
        Operation::SingleExcitationStore { qubit, .. } => Some(*qubit),
        Operation::MeasureQubit { qubit, .. } => Some(*qubit),
        Operation::PragmaSetNumberOfMeasurements { .. } => None,
        Operation::PragmaRepeatedMeasurement { .. } => None,
        Operation::PragmaLoop { circuit, .. } => ops_max_qubit(circuit),
        Operation::DefinitionBit { .. } => None,
        Operation::InputBit { .. } => None,
        Operation::SingleQubitGate { qubit, .. } => Some(*qubit),
        Operation::TwoQubitGate { control, target, .. } => Some(
            if *control >= *target {
                *control
            } else {
                *target
            },
        ),
        Operation::MultiQubitGate { qubits, .. } => max_of(qubits),
        Operation::Pragma { qubits, .. } => max_of(qubits),
    }
}

/// Executable counterpart of [`spec_ops_max_qubit`].
pub fn ops_max_qubit(ops: &Vec<Operation>) -> (r: Option<usize>)
    ensures
        r == spec_ops_max_qubit(ops@),
    decreases ops@,
{
    let mut acc: Option<usize> = None;
    let mut i: usize = 0;
    while i < ops.len()
        invariant
            i <= ops.len(),
            acc == spec_ops_max_qubit(ops@.take(i as int)),
        decreases ops@.len() - i,
    {
        proof {
            assert(ops@.take(i + 1 as int).drop_last() =~= ops@.take(i as int));
            assert(ops@.take(i + 1 as int).last() == ops@[i as int]);
        }
        acc = max_opt(acc, op_max_qubit(&ops[i]));
        i = i + 1;
    }
    proof {
        assert(ops@.take(ops@.len() as int) =~= ops@);
    }
    acc
}

/// Executable counterpart of [`spec_max_opt`].
pub fn max_opt(a: Option<usize>, b: Option<usize>) -> (r: Option<usize>)
    ensures
        r == spec_max_opt(a, b),
{
    match (a, b) {
        (Some(x), Some(y)) => Some(
            if x >= y {
                x
            } else {
                y
            },
        ),
        (Some(x), None) => Some(x),
        (None, Some(y)) => Some(y),
        (None, None) => None,
    }
}

/// Executable counterpart of [`spec_max_of`].
pub fn max_of(qubits: &Vec<usize>) -> (r: Option<usize>)
    ensures
        r == spec_max_of(qubits@),
{
    let mut acc: Option<usize> = None;
    let mut i: usize = 0;
    while i < qubits.len()
        invariant
            i <= qubits.len(),
            acc == spec_max_of(qubits@.take(i as int)),
        decreases qubits.len() - i,
    {
        proof {
            assert(qubits@.take(i + 1 as int).drop_last() =~= qubits@.take(i as int));
            assert(qubits@.take(i + 1 as int).last() == qubits@[i as int]);
        }
        acc = max_opt(acc, Some(qubits[i]));
        i = i + 1;
    }
    proof {
        assert(qubits@.take(qubits@.len() as int) =~= qubits@);
    }
    acc
}


/// Number of qubits a circuit touches: one past the largest involved
/// qubit index, or nothing for a circuit that touches no qubit.
pub fn get_number_qubits(circuit: &Circuit) -> (r: Option<usize>)
    requires
        spec_ops_max_qubit(circuit.operations@) matches Some(m) ==> m < usize::MAX,
    ensures
        spec_ops_max_qubit(circuit.operations@) is None ==> r is None,
        spec_ops_max_qubit(circuit.operations@) matches Some(m) ==> r == Some((m + 1) as usize),
{
    match ops_max_qubit(&circuit.operations) {
        None => None,
        Some(m) => Some(m + 1),
    }
}

} // verus!
