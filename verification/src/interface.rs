//! Translation of circuits into the vendor wire format.
//!
//! [`call_operation`] maps one operation to at most one wire instruction;
//! [`call_circuit`] folds a whole circuit, coalescing measurements per
//! output register and bookkeeping the measured qubits map.

use itertools::Itertools;
use vstd::prelude::*;
use vstd::string::StringExecFns;

use crate::circuit::{spec_hqslang, Circuit, LoopRepetitions, Operation};
use crate::labels::{
    all_qubit_labels, qubit_label, resonator_label, spec_all_qubit_labels, spec_qubit_label,
    spec_resonator_label, usize_to_string,
};
use crate::registers::{
    spec_find, spec_upsert, MeasuredQubitsMap, RegModel, RegisterRecord,
};
use crate::{IqmBackendError, RoqoqoBackendError};

verus! {

/// Ghost model of an instruction argument.
pub ghost enum ArgModel {
    /// A numeric argument (IEEE-754 double bit pattern).
    Number(u64),
    /// A text argument.
    Text(Seq<char>),
}

/// Argument value of a wire instruction.
#[derive(Debug, PartialEq, Clone)]
pub enum IqmArgument {
    /// A numeric argument, carried as an IEEE-754 double bit pattern;
    /// rotation angles are in turns.
    Number(u64),
    /// A text argument, used for register names.
    Text(String),
}

impl View for IqmArgument {
    type V = ArgModel;

    open spec fn view(&self) -> ArgModel {
        match self {
            IqmArgument::Number(n) => ArgModel::Number(*n),
            IqmArgument::Text(s) => ArgModel::Text(s@),
        }
    }
}

/// Ghost model of a wire instruction.
pub ghost struct InstrModel {
    /// Instruction name.
    pub name: Seq<char>,
    /// Physical-qubit labels the instruction acts on.
    pub qubits: Seq<Seq<char>>,
    /// Named arguments, in insertion order.
    pub args: Seq<(Seq<char>, ArgModel)>,
}

/// One instruction in the vendor wire format: a gate, a measurement or a
/// barrier, with the physical qubits it acts on and its named arguments.
#[derive(Debug, PartialEq, Clone)]
pub struct IqmInstruction {
    /// Instruction name.
    pub name: String,
    /// Physical-qubit labels the instruction acts on.
    pub qubits: Vec<String>,
    /// Named arguments: gate parameters or measurement register names.
    pub args: Vec<(String, IqmArgument)>,
}

impl View for IqmInstruction {
    type V = InstrModel;

    open spec fn view(&self) -> InstrModel {
        InstrModel {
            name: self.name@,
            qubits: self.qubits@.map_values(|q: String| q@),
            args: self.args@.map_values(|a: (String, IqmArgument)| (a.0@, a.1@)),
        }
    }
}

/// Ghost model of a translated circuit.
pub ghost struct CircModel {
    /// Circuit name within its submission batch.
    pub name: Seq<char>,
    /// The wire instructions, in program order.
    pub instructions: Seq<InstrModel>,
    /// The measured qubits map carried as metadata.
    pub metadata: Option<Seq<RegModel>>,
}

/// A whole circuit in the vendor wire format.
#[derive(Debug, PartialEq, Clone)]
pub struct IqmCircuit {
    /// Name of the circuit within its submission batch.
    pub name: String,
    /// The wire instructions, in program order.
    pub instructions: Vec<IqmInstruction>,
    /// The measured qubits map, carried through the service as opaque
    /// metadata and needed to reassemble results.
    pub metadata: Option<MeasuredQubitsMap>,
}

impl View for IqmCircuit {
    type V = CircModel;

    open spec fn view(&self) -> CircModel {
        CircModel {
            name: self.name@,
            instructions: self.instructions@.map_values(|i: IqmInstruction| i@),
            metadata: if self.metadata is Some {
                Some(self.metadata->0@)
            } else {
                None
            },
        }
    }
}

/// Whether the translator silently drops an operation of this name instead
/// of rejecting it.
pub open spec fn spec_translator_allowed(name: Seq<char>) -> bool {
    ||| name == "PragmaBoostNoise"@
    ||| name == "PragmaStopParallelBlock"@
    ||| name == "PragmaGlobalPhase"@
    ||| name == "InputSymbolic"@
    ||| name == "InputBit"@
    ||| name == "PragmaRepeatedMeasurement"@
    ||| name == "PragmaStartDecompositionBlock"@
    ||| name == "PragmaStopDecompositionBlock"@
}

/// Executable counterpart of [`spec_translator_allowed`].
pub fn is_translator_allowed(name: &String) -> (r: bool)
    ensures
        r == spec_translator_allowed(name@),
{
    ||| *name == String::from_str("PragmaBoostNoise")
    ||| *name == String::from_str("PragmaStopParallelBlock")
    ||| *name == String::from_str("PragmaGlobalPhase")
    ||| *name == String::from_str("InputSymbolic")
    ||| *name == String::from_str("InputBit")
    ||| *name == String::from_str("PragmaRepeatedMeasurement")
    ||| *name == String::from_str("PragmaStartDecompositionBlock")
    ||| *name == String::from_str("PragmaStopDecompositionBlock")
}

/// Whether an operation's own qubit indices leave room for the 1-based
/// labels of the wire format.
pub open spec fn spec_gate_bounded(op: Operation) -> bool {
    match op {
        Operation::RotateXY { qubit, .. } => qubit < usize::MAX,
        Operation::ControlledPauliZ { control, target } => control < usize::MAX && target
            < usize::MAX,
        Operation::CZQubitResonator { qubit, .. } => qubit < usize::MAX,
        Operation::SingleExcitationLoad { qubit, .. } => qubit < usize::MAX,
        Operation::SingleExcitationStore { qubit, .. } => qubit < usize::MAX,
        Operation::MeasureQubit { qubit, .. } => qubit < usize::MAX,
        _ => true,
    }
}

/// [`spec_gate_bounded`], extended one level into loop bodies.
pub open spec fn spec_op_bounded(op: Operation) -> bool {
    spec_gate_bounded(op) && match op {
        Operation::PragmaLoop { circuit, .. } => forall|j: int|
            0 <= j < circuit@.len() ==> spec_gate_bounded(#[trigger] circuit@[j]),
        _ => true,
    }
}

/// All operations of a circuit leave room for 1-based labels.
pub open spec fn spec_ops_bounded(ops: Seq<Operation>) -> bool {
    forall|i: int| 0 <= i < ops.len() ==> spec_op_bounded(#[trigger] ops[i])
}

/// The wire instruction one operation translates to: `Ok(Some(..))` for a
/// mapped gate, `Ok(None)` for a silently dropped operation, and the
/// operation's name as the error for anything the backend cannot run.
pub open spec fn spec_call_operation(op: Operation) -> Result<Option<InstrModel>, Seq<char>> {
    match op {
        Operation::RotateXY { qubit, theta_turns, phi_turns } => Ok(
            Some(
                InstrModel {
                    name: "prx"@,
                    qubits: seq![spec_qubit_label(qubit as int)],
                    args: seq![
                        ("angle_t"@, ArgModel::Number(theta_turns)),
                        ("phase_t"@, ArgModel::Number(phi_turns)),
                    ],
                },
            ),
        ),
        Operation::ControlledPauliZ { control, target } => Ok(
            Some(
                InstrModel {
                    name: "cz"@,
                    qubits: seq![
                        spec_qubit_label(control as int),
                        spec_qubit_label(target as int),
                    ],
                    args: Seq::empty(),
                },
            ),
        ),
        Operation::CZQubitResonator { qubit, .. } => Ok(
            Some(
                InstrModel {
                    name: "cz"@,
                    qubits: seq![spec_qubit_label(qubit as int), spec_resonator_label()],
                    args: Seq::empty(),
                },
            ),
        ),
        Operation::SingleExcitationLoad { qubit, .. } => Ok(
            Some(
                InstrModel {
                    name: "move"@,
                    qubits: seq![spec_qubit_label(qubit as int), spec_resonator_label()],
                    args: Seq::empty(),
                },
            ),
        ),
        Operation::SingleExcitationStore { qubit, .. } => Ok(
            Some(
                InstrModel {
                    name: "move"@,
                    qubits: seq![spec_qubit_label(qubit as int), spec_resonator_label()],
                    args: Seq::empty(),
                },
            ),
        ),
        _ => if spec_translator_allowed(spec_hqslang(op)) {
            Ok(None)
        } else {
            Err(spec_hqslang(op))
        },
    }
}

/// Converts one operation into at most one wire instruction.
///
/// Gate operations map to their vendor instruction; operations on the
/// translator's allow-list are dropped; everything else is rejected with
/// an operation-not-in-backend error naming the operation.
pub fn call_operation(operation: &Operation) -> (r: Result<
    Option<IqmInstruction>,
    RoqoqoBackendError,
>)
    requires
        spec_gate_bounded(*operation),
    ensures
        match spec_call_operation(*operation) {
            Ok(m) => r is Ok && (m is Some <==> r->Ok_0 is Some) && (m is Some
                ==> r->Ok_0->0@ == m->0),
            Err(h) => r matches Err(RoqoqoBackendError::OperationNotInBackend { backend, hqslang })
                && backend@ == "IQM"@ && hqslang@ == h,
        },
{
    match operation {
        Operation::RotateXY { qubit, theta_turns, phi_turns } => {
            let mut args: Vec<(String, IqmArgument)> = Vec::new();
            args.push((String::from_str("angle_t"), IqmArgument::Number(*theta_turns)));
            args.push((String::from_str("phase_t"), IqmArgument::Number(*phi_turns)));
            let mut qubits: Vec<String> = Vec::new();
            qubits.push(qubit_label(*qubit));
            let instr = IqmInstruction { name: String::from_str("prx"), qubits, args };
            proof {
                assert(instr@.qubits =~= spec_call_operation(*operation)->Ok_0->0.qubits);
                assert(instr@.args =~= spec_call_operation(*operation)->Ok_0->0.args);
            }
            Ok(Some(instr))
        },
        Operation::ControlledPauliZ { control, target } => {
            let mut qubits: Vec<String> = Vec::new();
            qubits.push(qubit_label(*control));
            qubits.push(qubit_label(*target));
            let instr = IqmInstruction {
                name: String::from_str("cz"),
                qubits,
                args: Vec::new(),
            };
            proof {
                assert(instr@.qubits =~= spec_call_operation(*operation)->Ok_0->0.qubits);
                assert(instr@.args =~= spec_call_operation(*operation)->Ok_0->0.args);
            }
            Ok(Some(instr))
        },
        Operation::CZQubitResonator { qubit, mode } => {
            let mut qubits: Vec<String> = Vec::new();
            qubits.push(qubit_label(*qubit));
            qubits.push(resonator_label(*mode));
            let instr = IqmInstruction {
                name: String::from_str("cz"),
                qubits,
                args: Vec::new(),
            };
            proof {
                assert(instr@.qubits =~= spec_call_operation(*operation)->Ok_0->0.qubits);
                assert(instr@.args =~= spec_call_operation(*operation)->Ok_0->0.args);
            }
            Ok(Some(instr))
        },
        Operation::SingleExcitationLoad { qubit, mode } => {
            let mut qubits: Vec<String> = Vec::new();
            qubits.push(qubit_label(*qubit));
            qubits.push(resonator_label(*mode));
            let instr = IqmInstruction {
                name: String::from_str("move"),
                qubits,
                args: Vec::new(),
            };
            proof {
                assert(instr@.qubits =~= spec_call_operation(*operation)->Ok_0->0.qubits);
                assert(instr@.args =~= spec_call_operation(*operation)->Ok_0->0.args);
            }
            Ok(Some(instr))
        },
        Operation::SingleExcitationStore { qubit, mode } => {
            let mut qubits: Vec<String> = Vec::new();
            qubits.push(qubit_label(*qubit));
            qubits.push(resonator_label(*mode));
            let instr = IqmInstruction {
                name: String::from_str("move"),
                qubits,
                args: Vec::new(),
            };
            proof {
                assert(instr@.qubits =~= spec_call_operation(*operation)->Ok_0->0.qubits);
                assert(instr@.args =~= spec_call_operation(*operation)->Ok_0->0.args);
            }
            Ok(Some(instr))
        },
        _ => {
            let name = operation.hqslang();
            if is_translator_allowed(&name) {
                Ok(None)
            } else {
                Err(
                    RoqoqoBackendError::OperationNotInBackend {
                        backend: String::from_str("IQM"),
                        hqslang: name,
                    },
                )
            }
        },
    }
}

/// First argument value stored under `key`, if any.
pub open spec fn spec_arg_lookup(args: Seq<(Seq<char>, ArgModel)>, key: Seq<char>) -> Option<
    ArgModel,
>
    decreases args.len(),
{
    if args.len() == 0 {
        None
    } else if args[0].0 == key {
        Some(args[0].1)
    } else {
        spec_arg_lookup(args.drop_first(), key)
    }
}

/// Whether an instruction is the measurement instruction of register `readout`.
pub open spec fn spec_is_measure_match(i: InstrModel, readout: Seq<char>) -> bool {
    i.name == "measure"@ && spec_arg_lookup(i.args, "key"@) == Some(ArgModel::Text(readout))
}

/// Index of the first measurement instruction of `readout` at or after `i`, or -1.
pub open spec fn spec_find_measure_from(instrs: Seq<InstrModel>, readout: Seq<char>, i: int) -> int
    decreases instrs.len() - i,
{
    if i < 0 || i >= instrs.len() {
        -1
    } else if spec_is_measure_match(instrs[i], readout) {
        i
    } else {
        spec_find_measure_from(instrs, readout, i + 1)
    }
}

/// Index of the first measurement instruction of `readout`, or -1.
pub open spec fn spec_find_measure(instrs: Seq<InstrModel>, readout: Seq<char>) -> int {
    spec_find_measure_from(instrs, readout, 0)
}

/// A non-negative search result is a position of a matching instruction,
/// and the first one.
pub proof fn lemma_find_measure_from_range(instrs: Seq<InstrModel>, readout: Seq<char>, i: int)
    requires
        0 <= i <= instrs.len(),
    ensures
        spec_find_measure_from(instrs, readout, i) == -1 || (i <= spec_find_measure_from(
            instrs,
            readout,
            i,
        ) < instrs.len() && spec_is_measure_match(
            instrs[spec_find_measure_from(instrs, readout, i)],
            readout,
        )),
    decreases instrs.len() - i,
{
    if i < instrs.len() && !spec_is_measure_match(instrs[i], readout) {
        lemma_find_measure_from_range(instrs, readout, i + 1);
    }
}

/// How appending one instruction changes the search result.
pub proof fn lemma_find_measure_push(
    instrs: Seq<InstrModel>,
    x: InstrModel,
    readout: Seq<char>,
    i: int,
)
    requires
        0 <= i <= instrs.len(),
    ensures
        spec_find_measure_from(instrs.push(x), readout, i) == if spec_find_measure_from(
            instrs,
            readout,
            i,
        ) >= 0 {
            spec_find_measure_from(instrs, readout, i)
        } else if spec_is_measure_match(x, readout) {
            instrs.len() as int
        } else {
            -1
        },
    decreases instrs.len() - i,
{
    assert(instrs.push(x)[instrs.len() as int] == x);
    if i < instrs.len() {
        assert(instrs.push(x)[i] == instrs[i]);
        lemma_find_measure_push(instrs, x, readout, i + 1);
    } else {
        assert(spec_find_measure_from(instrs, readout, i) == -1);
        assert(spec_find_measure_from(instrs.push(x), readout, instrs.len() as int + 1) == -1);
    }
}

/// Replacing an instruction by one with the same name and arguments leaves
/// every search result unchanged.
pub proof fn lemma_find_measure_update(
    instrs: Seq<InstrModel>,
    at: int,
    x: InstrModel,
    readout: Seq<char>,
    i: int,
)
    requires
        0 <= at < instrs.len(),
        x.name == instrs[at].name,
        x.args == instrs[at].args,
        0 <= i <= instrs.len(),
    ensures
        spec_find_measure_from(instrs.update(at, x), readout, i) == spec_find_measure_from(
            instrs,
            readout,
            i,
        ),
    decreases instrs.len() - i,
{
    if i < instrs.len() {
        lemma_find_measure_update(instrs, at, x, readout, i + 1);
    }
}

/// A sequence without measurement instructions has no match for any register.
pub proof fn lemma_find_measure_none(instrs: Seq<InstrModel>, readout: Seq<char>, i: int)
    requires
        0 <= i <= instrs.len(),
        forall|j: int| 0 <= j < instrs.len() ==> (#[trigger] instrs[j]).name != "measure"@,
    ensures
        spec_find_measure_from(instrs, readout, i) == -1,
    decreases instrs.len() - i,
{
    if i < instrs.len() {
        lemma_find_measure_none(instrs, readout, i + 1);
    }
}

/// The measurement instruction of register `readout` over the given qubit labels.
pub open spec fn spec_measure_instr(qubits: Seq<Seq<char>>, readout: Seq<char>) -> InstrModel {
    InstrModel {
        name: "measure"@,
        qubits,
        args: seq![("key"@, ArgModel::Text(readout))],
    }
}

/// The instructions left after discarding all measurement instructions.
pub open spec fn spec_drop_measures(instrs: Seq<InstrModel>) -> Seq<InstrModel>
    decreases instrs.len(),
{
    if instrs.len() == 0 {
        Seq::empty()
    } else if instrs.first().name == "measure"@ {
        spec_drop_measures(instrs.drop_first())
    } else {
        seq![instrs.first()] + spec_drop_measures(instrs.drop_first())
    }
}

/// Discarding measurement instructions leaves only non-measurement ones.
pub proof fn lemma_drop_measures_clean(instrs: Seq<InstrModel>)
    ensures
        forall|j: int|
            0 <= j < spec_drop_measures(instrs).len() ==> (#[trigger] spec_drop_measures(
                instrs,
            )[j]).name != "measure"@,
    decreases instrs.len(),
{
    if instrs.len() > 0 {
        lemma_drop_measures_clean(instrs.drop_first());
        let rest = spec_drop_measures(instrs.drop_first());
        if instrs.first().name != "measure"@ {
            assert forall|j: int|
                0 <= j < spec_drop_measures(instrs).len() implies (#[trigger] spec_drop_measures(
                instrs,
            )[j]).name != "measure"@ by {
                if j >= 1 {
                    assert(spec_drop_measures(instrs)[j] == rest[j - 1]);
                } else {
                    assert(spec_drop_measures(instrs)[j] == instrs.first());
                }
            }
        }
    }
}

/// Ascending lexicographic order on pairs of register positions.
pub open spec fn spec_pair_leq() -> spec_fn((usize, usize), (usize, usize)) -> bool {
    |a: (usize, usize), b: (usize, usize)| a.0 < b.0 || (a.0 == b.0 && a.1 <= b.1)
}

/// The pair order is a total order.
pub proof fn lemma_pair_leq_total()
    ensures
        vstd::relations::total_ordering(spec_pair_leq()),
{
}

/// The values of a qubit mapping, in ascending key order.
pub open spec fn spec_mapping_values(m: Seq<(usize, usize)>) -> Seq<usize> {
    m.sort_by(spec_pair_leq()).map_values(|p: (usize, usize)| p.1)
}

/// Ghost state of the translation fold: emitted instructions, the shot
/// count, the qubits measured one by one, and the measured qubits map.
pub ghost struct TransModel {
    /// Wire instructions emitted so far.
    pub instrs: Seq<InstrModel>,
    /// Current shot count; 1 until the circuit fixes it.
    pub number_measurements: usize,
    /// Qubits measured by individual measurements, in call order.
    pub measured: Seq<usize>,
    /// The measured qubits map built so far.
    pub map: Seq<RegModel>,
}

/// Why a translation fails.
pub ghost enum TransError {
    /// A measurement names a register that was never declared.
    UndefinedRegister,
    /// The same qubit is measured twice into one register.
    DoubleMeasurement {
        /// The qubit measured twice.
        qubit: usize,
    },
    /// The circuit fixes two different shot counts.
    ConflictingMeasurementNumbers,
    /// A register is too small for the qubits measured into it.
    RegisterTooSmall {
        /// Name of the register.
        name: Seq<char>,
    },
    /// A repeated measurement follows an earlier shot-count choice.
    RepeatedMeasurementConflict,
    /// A repeated measurement overlaps individual measurements.
    OverlappingMeasurements,
    /// A loop has a symbolic repetition count.
    SymbolicLoop,
    /// An operation the backend cannot run.
    NotInBackend {
        /// Name of the operation.
        hqslang: Seq<char>,
    },
}

/// Initial translation state.
pub open spec fn spec_trans_init() -> TransModel {
    TransModel {
        instrs: Seq::empty(),
        number_measurements: 1,
        measured: Seq::empty(),
        map: Seq::empty(),
    }
}

/// The instructions a loop body emits per repetition, or the name of the
/// first operation the backend cannot run.
pub open spec fn spec_loop_body(ops: Seq<Operation>) -> Result<Seq<InstrModel>, Seq<char>>
    decreases ops.len(),
{
    if ops.len() == 0 {
        Ok(Seq::empty())
    } else {
        match spec_loop_body(ops.drop_last()) {
            Err(h) => Err(h),
            Ok(rest) => match spec_call_operation(ops.last()) {
                Err(h) => Err(h),
                Ok(None) => Ok(rest),
                Ok(Some(i)) => Ok(rest.push(i)),
            },
        }
    }
}

/// `body` repeated `n` times, flattened.
pub open spec fn spec_repeat(body: Seq<InstrModel>, n: nat) -> Seq<InstrModel>
    decreases n,
{
    if n == 0 {
        Seq::empty()
    } else {
        spec_repeat(body, (n - 1) as nat) + body
    }
}

/// The flattened repetition grows linearly with the repetition count.
pub proof fn lemma_repeat_len(body: Seq<InstrModel>, n: nat)
    ensures
        spec_repeat(body, n).len() == n * body.len(),
    decreases n,
{
    if n == 0 {
        vstd::arithmetic::mul::lemma_mul_by_zero_is_zero(body.len() as int);
    } else {
        let m = (n - 1) as nat;
        lemma_repeat_len(body, m);
        assert(spec_repeat(body, n).len() == body.len() + m * body.len());
        let l = body.len() as int;
        vstd::arithmetic::mul::lemma_mul_is_distributive_add_other_way(l, 1, m as int);
        assert((1 + m as int) * l == 1 * l + (m as int) * l);
        vstd::arithmetic::mul::lemma_mul_basics(l);
        assert(n as int * l == l + (m as int) * l);
    }
}

/// How one operation transforms the translation state.
pub open spec fn spec_step(
    st: TransModel,
    op: Operation,
    device_number_qubits: usize,
) -> Result<TransModel, TransError> {
    match op {
        Operation::DefinitionBit { name, length, is_output } => Ok(
            if is_output {
                TransModel {
                    map: spec_upsert(
                        st.map,
                        RegModel { name: name@, qubits: Seq::empty(), length },
                    ),
                    ..st
                }
            } else {
                st
            },
        ),
        Operation::MeasureQubit { qubit, readout, readout_index } => {
            let measured = st.measured.push(qubit);
            let f = spec_find(st.map, readout@);
            if f < 0 {
                Err(TransError::UndefinedRegister)
            } else {
                let map = st.map.update(
                    f,
                    RegModel { qubits: st.map[f].qubits.push(readout_index), ..st.map[f] },
                );
                let label = spec_qubit_label(qubit as int);
                let mi = spec_find_measure(st.instrs, readout@);
                if mi < 0 {
                    Ok(
                        TransModel {
                            instrs: st.instrs.push(spec_measure_instr(seq![label], readout@)),
                            measured,
                            map,
                            ..st
                        },
                    )
                } else if st.instrs[mi].qubits.contains(label) {
                    Err(TransError::DoubleMeasurement { qubit })
                } else {
                    Ok(
                        TransModel {
                            instrs: st.instrs.update(
                                mi,
                                InstrModel {
                                    qubits: st.instrs[mi].qubits.push(label),
                                    ..st.instrs[mi]
                                },
                            ),
                            measured,
                            map,
                            ..st
                        },
                    )
                }
            }
        },
        Operation::PragmaSetNumberOfMeasurements { number_measurements, readout } => {
            if st.number_measurements > 1 && st.number_measurements != number_measurements {
                Err(TransError::ConflictingMeasurementNumbers)
            } else {
                let f = spec_find(st.map, readout@);
                if f < 0 {
                    Err(TransError::UndefinedRegister)
                } else if st.measured.len() > st.map[f].length {
                    Err(TransError::RegisterTooSmall { name: readout@ })
                } else {
                    let length = st.map[f].length;
                    let kept = spec_drop_measures(st.instrs);
                    let qubits = st.measured.map_values(|q: usize| spec_qubit_label(q as int));
                    Ok(
                        TransModel {
                            instrs: kept.push(spec_measure_instr(qubits, readout@)),
                            number_measurements,
                            measured: st.measured,
                            map: seq![
                                RegModel { name: readout@, qubits: st.measured, length },
                            ],
                        },
                    )
                }
            }
        },
        Operation::PragmaRepeatedMeasurement { readout, number_measurements, qubit_mapping } => {
            if st.number_measurements > 1 {
                Err(TransError::RepeatedMeasurementConflict)
            } else if st.measured.len() > 0 {
                Err(TransError::OverlappingMeasurements)
            } else {
                let f = spec_find(st.map, readout@);
                if f < 0 {
                    Err(TransError::UndefinedRegister)
                } else {
                    let map = if qubit_mapping is Some {
                        st.map.update(
                            f,
                            RegModel {
                                qubits: st.map[f].qubits + spec_mapping_values(qubit_mapping->0@),
                                ..st.map[f]
                            },
                        )
                    } else {
                        let length = st.map[f].length;
                        spec_upsert(
                            st.map,
                            RegModel {
                                name: readout@,
                                qubits: Seq::new(length as nat, |i: int| i as usize),
                                length,
                            },
                        )
                    };
                    Ok(
                        TransModel {
                            instrs: st.instrs.push(
                                spec_measure_instr(
                                    spec_all_qubit_labels(device_number_qubits as int),
                                    readout@,
                                ),
                            ),
                            number_measurements,
                            measured: st.measured,
                            map,
                        },
                    )
                }
            }
        },
        Operation::PragmaLoop { repetitions, circuit } => match repetitions {
            LoopRepetitions::Symbolic(_) => Err(TransError::SymbolicLoop),
            LoopRepetitions::Fixed(k) => {
                if k == 0 {
                    Ok(st)
                } else {
                    match spec_loop_body(circuit@) {
                        Err(h) => Err(TransError::NotInBackend { hqslang: h }),
                        Ok(body) => Ok(
                            TransModel { instrs: st.instrs + spec_repeat(body, k as nat), ..st },
                        ),
                    }
                }
            },
        },
        _ => match spec_call_operation(op) {
            Err(h) => Err(TransError::NotInBackend { hqslang: h }),
            Ok(None) => Ok(st),
            Ok(Some(i)) => Ok(TransModel { instrs: st.instrs.push(i), ..st }),
        },
    }
}

/// The translation state after a whole operation sequence, or the first error.
pub open spec fn spec_translate(ops: Seq<Operation>, device_number_qubits: usize) -> Result<
    TransModel,
    TransError,
>
    decreases ops.len(),
{
    if ops.len() == 0 {
        Ok(spec_trans_init())
    } else {
        match spec_translate(ops.drop_last(), device_number_qubits) {
            Err(e) => Err(e),
            Ok(st) => spec_step(st, ops.last(), device_number_qubits),
        }
    }
}

/// The translated circuit and shot count, or the first error. A
/// caller-supplied shot count always wins over the circuit's own.
pub open spec fn spec_call_circuit(
    ops: Seq<Operation>,
    device_number_qubits: usize,
    number_measurements_internal: Option<usize>,
    circuit_index: usize,
) -> Result<(CircModel, usize), TransError> {
    match spec_translate(ops, device_number_qubits) {
        Err(e) => Err(e),
        Ok(st) => Ok(
            (
                CircModel {
                    name: "qc_"@ + crate::labels::spec_decimal(circuit_index as int),
                    instructions: st.instrs,
                    metadata: Some(st.map),
                },
                if number_measurements_internal is Some {
                    number_measurements_internal->0
                } else {
                    st.number_measurements
                },
            ),
        ),
    }
}

/// Models of a vector of wire instructions.
pub open spec fn spec_instr_models(s: Seq<IqmInstruction>) -> Seq<InstrModel> {
    s.map_values(|i: IqmInstruction| i@)
}

/// A mapped gate instruction is never a measurement instruction.
pub proof fn lemma_gate_instr_not_measure(op: Operation)
    requires
        spec_call_operation(op) is Ok,
        spec_call_operation(op)->Ok_0 is Some,
    ensures
        spec_call_operation(op)->Ok_0->0.name != "measure"@,
{
    reveal_strlit("measure");
    reveal_strlit("prx");
    reveal_strlit("cz");
    reveal_strlit("move");
    match op {
        Operation::RotateXY { .. } => {
            assert("prx"@.len() == 3 && "measure"@.len() == 7);
        },
        Operation::ControlledPauliZ { .. } => {
            assert("cz"@.len() == 2 && "measure"@.len() == 7);
        },
        Operation::CZQubitResonator { .. } => {
            assert("cz"@.len() == 2 && "measure"@.len() == 7);
        },
        Operation::SingleExcitationLoad { .. } => {
            assert("move"@.len() == 4 && "measure"@.len() == 7);
        },
        Operation::SingleExcitationStore { .. } => {
            assert("move"@.len() == 4 && "measure"@.len() == 7);
        },
        _ => {},
    }
}

/// Once the loop body hits an unsupported operation, longer prefixes keep
/// failing with the same name.
pub proof fn lemma_loop_body_error_persists(ops: Seq<Operation>, i: int)
    requires
        0 <= i <= ops.len(),
        spec_loop_body(ops.take(i)) is Err,
    ensures
        spec_loop_body(ops) == spec_loop_body(ops.take(i)),
    decreases ops.len() - i,
{
    if i < ops.len() {
        assert(ops.take(i + 1).drop_last() =~= ops.take(i));
        lemma_loop_body_error_persists(ops, i + 1);
    } else {
        assert(ops.take(i) =~= ops);
    }
}

/// Executable membership test on a list of qubit labels.
fn labels_contain(labels: &Vec<String>, label: &String) -> (r: bool)
    ensures
        r == labels@.map_values(|q: String| q@).contains(label@),
{
    let ghost models = labels@.map_values(|q: String| q@);
    let mut i: usize = 0;
    while i < labels.len()
        invariant
            i <= labels.len(),
            models == labels@.map_values(|q: String| q@),
            forall|j: int| 0 <= j < i ==> models[j] != label@,
        decreases labels@.len() - i,
    {
        if labels[i] == *label {
            proof {
                assert(models[i as int] == label@);
            }
            return true;
        }
        i = i + 1;
    }
    proof {
        assert forall|j: int| 0 <= j < models.len() implies models[j] != label@ by {}
    }
    false
}

/// Working state of the translation fold. Besides the outputs it keeps an
/// index from register name to the position of that register's measurement
/// instruction, so that coalescing a measurement does not rescan the
/// emitted instructions.
struct TransBuilder {
    /// Wire instructions emitted so far.
    instrs: Vec<IqmInstruction>,
    /// Positions of the first measurement instruction per register name.
    meas_index: Vec<(String, usize)>,
    /// Current shot count.
    number_measurements: usize,
    /// Qubits measured one by one, in call order.
    measured_qubits: Vec<usize>,
    /// The measured qubits map built so far.
    map: MeasuredQubitsMap,
}

impl TransBuilder {
    /// The translation state this builder stands for.
    spec fn model(&self) -> TransModel {
        TransModel {
            instrs: spec_instr_models(self.instrs@),
            number_measurements: self.number_measurements,
            measured: self.measured_qubits@,
            map: self.map@,
        }
    }

    /// The measurement-instruction index is sound and complete, and the
    /// measured qubits leave room for 1-based labels.
    spec fn inv(&self) -> bool {
        let im = spec_instr_models(self.instrs@);
        let ix = self.meas_index@;
        &&& forall|k: int|
            0 <= k < ix.len() ==> #[trigger] spec_find_measure(im, ix[k].0@) == ix[k].1 as int
        &&& forall|k1: int, k2: int| 0 <= k1 < k2 < ix.len() ==> ix[k1].0@ != ix[k2].0@
        &&& forall|r: Seq<char>|
            #[trigger] spec_find_measure(im, r) >= 0 ==> exists|k: int|
                0 <= k < ix.len() && ix[k].0@ == r
        &&& forall|k: int|
            0 <= k < self.measured_qubits@.len() ==> #[trigger] self.measured_qubits@[k]
                < usize::MAX
    }

    /// Creates the initial state.
    fn new() -> (b: TransBuilder)
        ensures
            b.inv(),
            b.model() == spec_trans_init(),
    {
        let b = TransBuilder {
            instrs: Vec::new(),
            meas_index: Vec::new(),
            number_measurements: 1,
            measured_qubits: Vec::new(),
            map: MeasuredQubitsMap::new(),
        };
        proof {
            assert(spec_instr_models(b.instrs@) =~= Seq::<InstrModel>::empty());
            assert(b.model().instrs =~= spec_trans_init().instrs);
            assert(b.model().measured =~= spec_trans_init().measured);
            assert(b.model().map =~= spec_trans_init().map);
        }
        b
    }

    /// Position of the measurement instruction of `readout`, if one exists.
    fn find_measure_index(&self, readout: &String) -> (r: Option<usize>)
        requires
            self.inv(),
        ensures
            match r {
                Some(i) => spec_find_measure(self.model().instrs, readout@) == i as int && i
                    < self.instrs@.len(),
                None => spec_find_measure(self.model().instrs, readout@) == -1,
            },
    {
        let ghost im = spec_instr_models(self.instrs@);
        let mut k: usize = 0;
        while k < self.meas_index.len()
            invariant
                self.inv(),
                im == spec_instr_models(self.instrs@),
                k <= self.meas_index@.len(),
                forall|j: int| 0 <= j < k ==> self.meas_index@[j].0@ != readout@,
            decreases self.meas_index@.len() - k,
        {
            if self.meas_index[k].0 == *readout {
                let i = self.meas_index[k].1;
                proof {
                    assert(self.meas_index@[k as int].0@ == readout@);
                    assert(spec_find_measure(im, self.meas_index@[k as int].0@)
                        == self.meas_index@[k as int].1 as int);
                    lemma_find_measure_from_range(im, readout@, 0);
                }
                return Some(i);
            }
            k = k + 1;
        }
        proof {
            lemma_find_measure_from_range(im, readout@, 0);
            if spec_find_measure(im, readout@) >= 0 {
                let j = choose|j: int|
                    0 <= j < self.meas_index@.len() && self.meas_index@[j].0@ == readout@;
                assert(false);
            }
        }
        None
    }

    /// Appends a non-measurement instruction.
    fn push_plain_instruction(&mut self, instr: IqmInstruction)
        requires
            old(self).inv(),
            instr@.name != "measure"@,
        ensures
            final(self).inv(),
            final(self).model() == (TransModel {
                instrs: old(self).model().instrs.push(instr@),
                ..old(self).model()
            }),
    {
        let ghost im = spec_instr_models(self.instrs@);
        self.instrs.push(instr);
        proof {
            let nim = spec_instr_models(self.instrs@);
            assert(nim =~= im.push(instr@));
            let oix = old(self).meas_index@;
            assert forall|r: Seq<char>| true implies #[trigger] spec_find_measure(nim, r)
                == spec_find_measure(im, r) by {
                lemma_find_measure_from_range(im, r, 0);
                lemma_find_measure_push(im, instr@, r, 0);
            }
            assert forall|k: int| 0 <= k < oix.len() implies #[trigger] spec_find_measure(
                nim,
                oix[k].0@,
            ) == oix[k].1 as int by {
                assert(spec_find_measure(im, oix[k].0@) == oix[k].1 as int);
            }
            assert(self.meas_index@ == oix);
            assert(forall|k: int|
                0 <= k < self.meas_index@.len() ==> #[trigger] spec_find_measure(
                    nim,
                    self.meas_index@[k].0@,
                ) == self.meas_index@[k].1 as int);
            assert(forall|k1: int, k2: int|
                0 <= k1 < k2 < self.meas_index@.len() ==> self.meas_index@[k1].0@
                    != self.meas_index@[k2].0@);
            assert(forall|r: Seq<char>|
                #[trigger] spec_find_measure(nim, r) >= 0 ==> exists|k: int|
                    0 <= k < self.meas_index@.len() && self.meas_index@[k].0@ == r);
            assert(forall|k: int|
                0 <= k < self.measured_qubits@.len() ==> #[trigger] self.measured_qubits@[k]
                    < usize::MAX);
        }
    }

    /// Appends the measurement instruction of `readout` over `qubits`, and
    /// indexes it if `readout` had none yet.
    fn push_measure_instruction(&mut self, readout: &String, qubits: Vec<String>)
        requires
            old(self).inv(),
        ensures
            final(self).inv(),
            final(self).model() == (TransModel {
                instrs: old(self).model().instrs.push(
                    spec_measure_instr(qubits@.map_values(|q: String| q@), readout@),
                ),
                ..old(self).model()
            }),
    {
        let ghost im = spec_instr_models(self.instrs@);
        let ghost x = spec_measure_instr(qubits@.map_values(|q: String| q@), readout@);
        let position = self.instrs.len();
        let present = self.find_measure_index(readout);
        let mut args: Vec<(String, IqmArgument)> = Vec::new();
        args.push((String::from_str("key"), IqmArgument::Text(readout.clone())));
        let instr = IqmInstruction { name: String::from_str("measure"), qubits, args };
        proof {
            assert(instr@.args =~= x.args);
            assert(instr@ == x);
        }
        self.instrs.push(instr);
        proof {
            assert(spec_instr_models(self.instrs@) =~= im.push(x));
            assert(spec_arg_lookup(x.args, "key"@) == Some(ArgModel::Text(readout@)));
            assert forall|r: Seq<char>| true implies (spec_is_measure_match(x, r) <==> r
                == readout@) by {}
        }
        if present.is_none() {
            self.meas_index.push((readout.clone(), position));
        }
        proof {
            let ix = self.meas_index@;
            let oix = old(self).meas_index@;
            let nim = spec_instr_models(self.instrs@);
            assert(nim =~= im.push(x));
            assert forall|k: int| 0 <= k < ix.len() implies #[trigger] spec_find_measure(
                nim,
                ix[k].0@,
            ) == ix[k].1 as int by {
                lemma_find_measure_from_range(im, ix[k].0@, 0);
                lemma_find_measure_push(im, x, ix[k].0@, 0);
                if k < oix.len() {
                    assert(ix[k] == oix[k]);
                    assert(spec_find_measure(im, oix[k].0@) == oix[k].1 as int);
                } else {
                    assert(ix[k].0@ == readout@ && ix[k].1 == position);
                }
            }
            assert forall|k1: int, k2: int| 0 <= k1 < k2 < ix.len() implies ix[k1].0@
                != ix[k2].0@ by {
                if k2 == oix.len() {
                    assert(spec_find_measure(im, oix[k1].0@) == oix[k1].1 as int >= 0);
                }
            }
            assert forall|r: Seq<char>| #[trigger] spec_find_measure(nim, r) >= 0 implies exists|
                k: int,
            | 0 <= k < ix.len() && ix[k].0@ == r by {
                lemma_find_measure_from_range(im, r, 0);
                lemma_find_measure_push(im, x, r, 0);
                if spec_find_measure(im, r) >= 0 {
                    let k = choose|k: int| 0 <= k < oix.len() && oix[k].0@ == r;
                    assert(ix[k].0@ == r);
                } else {
                    assert(r == readout@);
                    if present is Some {
                        assert(false);
                    } else {
                        assert(ix[ix.len() - 1].0@ == r);
                    }
                }
            }
        }
    }

    /// Adds one qubit label to the measurement instruction at `mi`.
    fn append_measure_label(&mut self, mi: usize, label: String)
        requires
            old(self).inv(),
            mi < old(self).instrs@.len(),
        ensures
            final(self).inv(),
            final(self).model() == (TransModel {
                instrs: old(self).model().instrs.update(
                    mi as int,
                    InstrModel {
                        qubits: old(self).model().instrs[mi as int].qubits.push(label@),
                        ..old(self).model().instrs[mi as int]
                    },
                ),
                ..old(self).model()
            }),
    {
        let ghost im = spec_instr_models(self.instrs@);
        let ghost x = InstrModel { qubits: im[mi as int].qubits.push(label@), ..im[mi as int] };
        let instr = &mut self.instrs[mi];
        instr.qubits.push(label);
        proof {
            assert(self.instrs@[mi as int]@.qubits =~= x.qubits);
            assert(self.instrs@[mi as int]@ == x);
            let nim = spec_instr_models(self.instrs@);
            assert(nim =~= im.update(mi as int, x));
            let oix = old(self).meas_index@;
            assert forall|r: Seq<char>| true implies #[trigger] spec_find_measure(nim, r)
                == spec_find_measure(im, r) by {
                lemma_find_measure_from_range(im, r, 0);
                lemma_find_measure_update(im, mi as int, x, r, 0);
            }
            assert forall|k: int| 0 <= k < oix.len() implies #[trigger] spec_find_measure(
                nim,
                oix[k].0@,
            ) == oix[k].1 as int by {
                assert(spec_find_measure(im, oix[k].0@) == oix[k].1 as int);
            }
            assert(self.meas_index@ == oix);
            assert(forall|r: Seq<char>|
                #[trigger] spec_find_measure(nim, r) >= 0 ==> exists|k: int|
                    0 <= k < self.meas_index@.len() && self.meas_index@[k].0@ == r);
        }
    }
}

/// Copies a list of register positions.
fn copy_usizes(v: &Vec<usize>) -> (r: Vec<usize>)
    ensures
        r@ == v@,
{
    let mut r: Vec<usize> = Vec::new();
    let mut i: usize = 0;
    while i < v.len()
        invariant
            i <= v@.len(),
            r@ == v@.take(i as int),
        decreases v@.len() - i,
    {
        r.push(v[i]);
        proof {
            assert(v@.take(i + 1 as int) =~= v@.take(i as int).push(v@[i as int]));
        }
        i = i + 1;
    }
    proof {
        assert(v@.take(v@.len() as int) =~= v@);
    }
    r
}

/// The name a circuit gets from its position in a submission batch.
fn circuit_name(circuit_index: usize) -> (r: String)
    ensures
        r@ == "qc_"@ + crate::labels::spec_decimal(circuit_index as int),
{
    let digits = usize_to_string(circuit_index);
    let mut name = String::from_str("qc_");
    name.append(digits.as_str());
    name
}

/// Once translation fails on a prefix, the whole sequence fails the same way.
pub proof fn lemma_translate_error_persists(ops: Seq<Operation>, i: int, device_number_qubits: usize)
    requires
        0 <= i <= ops.len(),
        spec_translate(ops.take(i), device_number_qubits) is Err,
    ensures
        spec_translate(ops, device_number_qubits) == spec_translate(ops.take(i), device_number_qubits),
    decreases ops.len() - i,
{
    if i < ops.len() {
        assert(ops.take(i + 1).drop_last() =~= ops.take(i));
        lemma_translate_error_persists(ops, i + 1, device_number_qubits);
    } else {
        assert(ops.take(i) =~= ops);
    }
}

/// Relies on itertools' `sorted`: it collects the iterator into a vector and
/// stable-sorts it by the standard `Ord` order, which for pairs of integers
/// is the ascending lexicographic order.
#[verifier::external_body]
fn sorted_pairs(pairs: &Vec<(usize, usize)>) -> (r: Vec<(usize, usize)>)
    ensures
        r@.to_multiset() == pairs@.to_multiset(),
        vstd::relations::sorted_by(r@, spec_pair_leq()),
{
    pairs.iter().cloned().sorted().collect()
}

/// The builder invariant only watches the instructions, the index and the
/// measured qubits; changes to the other fields preserve it.
proof fn lemma_inv_preserved(a: TransBuilder, b: TransBuilder)
    requires
        a.inv(),
        b.instrs@ == a.instrs@,
        b.meas_index@ == a.meas_index@,
        forall|k: int|
            0 <= k < b.measured_qubits@.len() ==> #[trigger] b.measured_qubits@[k] < usize::MAX,
    ensures
        b.inv(),
{
    let aim = spec_instr_models(a.instrs@);
    let bim = spec_instr_models(b.instrs@);
    assert(bim == aim);
    assert forall|k: int| 0 <= k < b.meas_index@.len() implies #[trigger] spec_find_measure(
        bim,
        b.meas_index@[k].0@,
    ) == b.meas_index@[k].1 as int by {
        assert(b.meas_index@[k] == a.meas_index@[k]);
        assert(spec_find_measure(aim, a.meas_index@[k].0@) == a.meas_index@[k].1 as int);
    }
    assert forall|k1: int, k2: int| 0 <= k1 < k2 < b.meas_index@.len() implies b.meas_index@[k1].0@
        != b.meas_index@[k2].0@ by {
        assert(a.meas_index@[k1].0@ != a.meas_index@[k2].0@);
    }
    assert forall|r: Seq<char>| #[trigger] spec_find_measure(bim, r) >= 0 implies exists|k: int|
        0 <= k < b.meas_index@.len() && b.meas_index@[k].0@ == r by {
        assert(spec_find_measure(aim, r) >= 0);
        let k = choose|k: int| 0 <= k < a.meas_index@.len() && a.meas_index@[k].0@ == r;
        assert(b.meas_index@[k].0@ == r);
    }
}

impl TransBuilder {
    /// Applies one individual qubit measurement: records the qubit, extends
    /// the register's entry in the map, and coalesces the measurement into
    /// the register's measurement instruction.
    fn handle_measure_qubit(
        &mut self,
        qubit: usize,
        readout: &String,
        readout_index: usize,
        device_number_qubits: usize,
    ) -> (r: Result<(), IqmBackendError>)
        requires
            old(self).inv(),
            qubit < usize::MAX,
        ensures
            ({
                let step = spec_step(
                    old(self).model(),
                    Operation::MeasureQubit { qubit, readout: *readout, readout_index },
                    device_number_qubits,
                );
                &&& step is Ok ==> r is Ok && final(self).inv() && final(self).model()
                    == step->Ok_0
                &&& step is Err ==> r is Err && spec_error_matches(r->Err_0, step->Err_0)
            }),
    {
        let ghost st = self.model();
        let ghost op = Operation::MeasureQubit { qubit, readout: *readout, readout_index };
        self.measured_qubits.push(qubit);
        proof {
            assert forall|k: int|
                0 <= k < self.measured_qubits@.len() implies #[trigger] self.measured_qubits@[k]
                < usize::MAX by {}
        }
        let f_opt = self.map.find(readout);
        match f_opt {
            None => Err(
                IqmBackendError::InvalidCircuit {
                    msg: String::from_str(
                        "A MeasureQubit operation is writing to an undefined register.",
                    ),
                },
            ),
            Some(f) => {
                self.map.push_qubit_at(f, readout_index);
                proof {
                    lemma_inv_preserved(*old(self), *self);
                }
                let label = qubit_label(qubit);
                let mi_opt = self.find_measure_index(readout);
                match mi_opt {
                    None => {
                        let mut qs: Vec<String> = Vec::new();
                        qs.push(label);
                        proof {
                            assert(qs@.map_values(|q: String| q@) =~= seq![
                                spec_qubit_label(qubit as int),
                            ]);
                        }
                        self.push_measure_instruction(readout, qs);
                        proof {
                            let step = spec_step(st, op, device_number_qubits);
                            assert(step is Ok);
                            assert(self.model().instrs =~= step->Ok_0.instrs);
                            assert(self.model().map =~= step->Ok_0.map);
                            assert(self.model().measured =~= step->Ok_0.measured);
                            assert(self.model() == step->Ok_0);
                        }
                        Ok(())
                    },
                    Some(mi) => {
                        proof {
                            assert(self.model().instrs[mi as int] == self.instrs@[mi as int]@);
                        }
                        let already = labels_contain(&self.instrs[mi].qubits, &label);
                        if already {
                            proof {
                                let step = spec_step(st, op, device_number_qubits);
                                assert(step == Err::<TransModel, TransError>(
                                    TransError::DoubleMeasurement { qubit },
                                ));
                            }
                            let mut msg = String::from_str("Qubit ");
                            msg.append(usize_to_string(qubit).as_str());
                            msg.append(" is being measured twice.");
                            Err(IqmBackendError::InvalidCircuit { msg })
                        } else {
                            self.append_measure_label(mi, label);
                            proof {
                                let step = spec_step(st, op, device_number_qubits);
                                assert(step is Ok);
                                assert(self.model().instrs =~= step->Ok_0.instrs);
                                assert(self.model().map =~= step->Ok_0.map);
                                assert(self.model().measured =~= step->Ok_0.measured);
                                assert(self.model() == step->Ok_0);
                            }
                            Ok(())
                        }
                    },
                }
            },
        }
    }

    /// Fixes the shot count: replaces every measurement instruction emitted
    /// so far by a single one over the individually measured qubits, and
    /// narrows the map to the chosen register.
    fn handle_set_number_of_measurements(
        &mut self,
        number_measurements: usize,
        readout: &String,
        device_number_qubits: usize,
    ) -> (r: Result<(), IqmBackendError>)
        requires
            old(self).inv(),
        ensures
            ({
                let step = spec_step(
                    old(self).model(),
                    Operation::PragmaSetNumberOfMeasurements {
                        number_measurements,
                        readout: *readout,
                    },
                    device_number_qubits,
                );
                &&& step is Ok ==> r is Ok && final(self).inv() && final(self).model()
                    == step->Ok_0
                &&& step is Err ==> r is Err && spec_error_matches(r->Err_0, step->Err_0)
            }),
    {
        let ghost st = self.model();
        if self.number_measurements > 1 && self.number_measurements != number_measurements {
            return Err(
                IqmBackendError::InvalidCircuit {
                    msg: String::from_str(
                        "All PragmaSetNumberOfMeasurements in the circuit must have the same number of measurements.",
                    ),
                },
            );
        }
        let f_opt = self.map.find(readout);
        match f_opt {
            None => Err(
                IqmBackendError::InvalidCircuit {
                    msg: String::from_str(
                        "PragmaSetNumberOfMeasurements writes to an undefined register.",
                    ),
                },
            ),
            Some(f) => {
                let length = self.map.record_at(f).length;
                if self.measured_qubits.len() > length {
                    proof {
                        assert(spec_find(st.map, readout@) == f as int);
                        assert(st.map[f as int].length == length);
                        assert(spec_step(
                            st,
                            Operation::PragmaSetNumberOfMeasurements {
                                number_measurements,
                                readout: *readout,
                            },
                            device_number_qubits,
                        ) == Err::<TransModel, TransError>(
                            TransError::RegisterTooSmall { name: readout@ },
                        ));
                    }
                    return Err(IqmBackendError::RegisterTooSmall { name: readout.clone() });
                }
                self.number_measurements = number_measurements;
                let ghost oim = spec_instr_models(self.instrs@);
                let ghost omeasured = self.measured_qubits@;
                let measure_name = String::from_str("measure");
                let mut j: usize = self.instrs.len();
                proof {
                    assert(oim.take(j as int) =~= oim);
                    assert(oim.skip(j as int) =~= Seq::<InstrModel>::empty());
                    assert(spec_instr_models(self.instrs@) =~= oim.take(j as int)
                        + spec_drop_measures(oim.skip(j as int)));
                }
                while j > 0
                    invariant
                        j <= oim.len(),
                        spec_instr_models(self.instrs@) =~= oim.take(j as int)
                            + spec_drop_measures(oim.skip(j as int)),
                        self.measured_qubits@ == omeasured,
                        self.number_measurements == number_measurements,
                        self.map == old(self).map,
                        measure_name@ == "measure"@,
                        forall|k: int| 0 <= k < omeasured.len() ==> #[trigger] omeasured[k]
                            < usize::MAX,
                    decreases j,
                {
                    let j1 = j - 1;
                    proof {
                        assert(spec_instr_models(self.instrs@).len() == self.instrs@.len());
                        assert((oim.take(j as int) + spec_drop_measures(oim.skip(j as int))).len()
                            == j + spec_drop_measures(oim.skip(j as int)).len());
                        assert(self.instrs@.len() == j + spec_drop_measures(
                            oim.skip(j as int),
                        ).len());
                        assert(spec_instr_models(self.instrs@)[j1 as int] == (oim.take(j as int)
                            + spec_drop_measures(oim.skip(j as int)))[j1 as int]);
                        assert(spec_instr_models(self.instrs@)[j1 as int] == oim[j1 as int]);
                        assert(self.instrs@[j1 as int]@ == oim[j1 as int]);
                        assert(oim.skip(j1 as int).first() == oim[j1 as int]);
                        assert(oim.skip(j1 as int).drop_first() =~= oim.skip(j as int));
                    }
                    if self.instrs[j1].name == measure_name {
                        let ghost before = spec_instr_models(self.instrs@);
                        self.instrs.remove(j1);
                        proof {
                            assert(oim[j1 as int].name == "measure"@);
                            assert(spec_drop_measures(oim.skip(j1 as int)) == spec_drop_measures(
                                oim.skip(j as int),
                            ));
                            assert(spec_instr_models(self.instrs@) =~= before.remove(j1 as int));
                            assert(spec_instr_models(self.instrs@) =~= oim.take(j1 as int)
                                + spec_drop_measures(oim.skip(j1 as int)));
                        }
                    } else {
                        proof {
                            assert(oim[j1 as int].name != "measure"@);
                            assert(spec_drop_measures(oim.skip(j1 as int)) == seq![
                                oim.skip(j1 as int).first(),
                            ] + spec_drop_measures(oim.skip(j1 as int).drop_first()));
                            assert(spec_drop_measures(oim.skip(j1 as int)) =~= seq![
                                oim[j1 as int],
                            ] + spec_drop_measures(oim.skip(j as int)));
                            assert(spec_instr_models(self.instrs@) =~= oim.take(j1 as int)
                                + spec_drop_measures(oim.skip(j1 as int)));
                        }
                    }
                    j = j1;
                }
                proof {
                    assert(oim.skip(0) =~= oim);
                    assert(oim.take(0) + spec_drop_measures(oim) =~= spec_drop_measures(oim));
                }
                let mut qlabels: Vec<String> = Vec::new();
                let mut t: usize = 0;
                while t < self.measured_qubits.len()
                    invariant
                        t <= self.measured_qubits@.len(),
                        self.measured_qubits@ == omeasured,
                        forall|k: int| 0 <= k < omeasured.len() ==> #[trigger] omeasured[k]
                            < usize::MAX,
                        qlabels@.len() == t,
                        forall|k: int| 0 <= k < t ==> #[trigger] qlabels@[k]@ == spec_qubit_label(
                            omeasured[k] as int,
                        ),
                    decreases self.measured_qubits@.len() - t,
                {
                    qlabels.push(qubit_label(self.measured_qubits[t]));
                    t = t + 1;
                }
                proof {
                    assert(qlabels@.map_values(|q: String| q@) =~= omeasured.map_values(
                        |q: usize| spec_qubit_label(q as int),
                    ));
                }
                let qubits_copy = copy_usizes(&self.measured_qubits);
                self.map = MeasuredQubitsMap::new();
                self.map.insert(
                    RegisterRecord { name: readout.clone(), qubits: qubits_copy, length },
                );
                self.meas_index = Vec::new();
                proof {
                    let im = spec_instr_models(self.instrs@);
                    lemma_drop_measures_clean(oim);
                    assert forall|r: Seq<char>| #[trigger] spec_find_measure(im, r) >= 0 implies
                        exists|k: int|
                            0 <= k < self.meas_index@.len() && self.meas_index@[k].0@ == r by {
                        lemma_find_measure_none(im, r, 0);
                    }
                    assert(self.map@ =~= seq![
                        RegModel { name: readout@, qubits: omeasured, length },
                    ]);
                }
                self.push_measure_instruction(readout, qlabels);
                proof {
                    let step = spec_step(
                        st,
                        Operation::PragmaSetNumberOfMeasurements {
                            number_measurements,
                            readout: *readout,
                        },
                        device_number_qubits,
                    );
                    assert(self.model().instrs =~= step->Ok_0.instrs);
                    assert(self.model() == step->Ok_0);
                }
                Ok(())
            },
        }
    }

    /// Applies a repeated measurement over all device qubits, recording
    /// either the register's full range or an explicit qubit mapping.
    fn handle_repeated_measurement(
        &mut self,
        readout: &String,
        number_measurements: usize,
        qubit_mapping: &Option<Vec<(usize, usize)>>,
        device_number_qubits: usize,
    ) -> (r: Result<(), IqmBackendError>)
        requires
            old(self).inv(),
        ensures
            ({
                let step = spec_step(
                    old(self).model(),
                    Operation::PragmaRepeatedMeasurement {
                        readout: *readout,
                        number_measurements,
                        qubit_mapping: *qubit_mapping,
                    },
                    device_number_qubits,
                );
                &&& step is Ok ==> r is Ok && final(self).inv() && final(self).model()
                    == step->Ok_0
                &&& step is Err ==> r is Err && spec_error_matches(r->Err_0, step->Err_0)
            }),
    {
        let ghost st = self.model();
        if self.number_measurements > 1 {
            return Err(
                IqmBackendError::InvalidCircuit {
                    msg: String::from_str(
                        "Only one repeated measurement is allowed in the circuit.",
                    ),
                },
            );
        }
        if self.measured_qubits.len() > 0 {
            return Err(
                IqmBackendError::InvalidCircuit {
                    msg: String::from_str("Some qubits are being measured twice."),
                },
            );
        }
        self.number_measurements = number_measurements;
        let f_opt = self.map.find(readout);
        match f_opt {
            None => Err(
                IqmBackendError::InvalidCircuit {
                    msg: String::from_str(
                        "A PragmaRepeatedMeasurement operation is writing to an undefined register.",
                    ),
                },
            ),
            Some(f) => {
                match qubit_mapping {
                    None => {
                        let length = self.map.record_at(f).length;
                        let mut range: Vec<usize> = Vec::new();
                        let mut t: usize = 0;
                        while t < length
                            invariant
                                t <= length,
                                range@.len() == t,
                                forall|k: int| 0 <= k < t ==> #[trigger] range@[k] == k as usize,
                            decreases length - t,
                        {
                            range.push(t);
                            t = t + 1;
                        }
                        proof {
                            assert(range@ =~= Seq::new(length as nat, |i: int| i as usize));
                        }
                        self.map.insert(
                            RegisterRecord { name: readout.clone(), qubits: range, length },
                        );
                    },
                    Some(m) => {
                        let sorted = sorted_pairs(m);
                        proof {
                            lemma_pair_leq_total();
                            m@.lemma_sort_by_ensures(spec_pair_leq());
                            vstd::seq_lib::lemma_sorted_unique(
                                sorted@,
                                m@.sort_by(spec_pair_leq()),
                                spec_pair_leq(),
                            );
                            assert(sorted@ == m@.sort_by(spec_pair_leq()));
                        }
                        let ghost values = spec_mapping_values(m@);
                        let ghost omap = self.map@;
                        let mut t: usize = 0;
                        while t < sorted.len()
                            invariant
                                t <= sorted@.len(),
                                sorted@ == m@.sort_by(spec_pair_leq()),
                                values == spec_mapping_values(m@),
                                f < omap.len(),
                                self.instrs@ == old(self).instrs@,
                                self.meas_index@ == old(self).meas_index@,
                                self.measured_qubits@ == old(self).measured_qubits@,
                                self.number_measurements == number_measurements,
                                self.map@ =~= omap.update(
                                    f as int,
                                    RegModel {
                                        qubits: omap[f as int].qubits + values.take(t as int),
                                        ..omap[f as int]
                                    },
                                ),
                            decreases sorted@.len() - t,
                        {
                            self.map.push_qubit_at(f, sorted[t].1);
                            proof {
                                assert(values[t as int] == sorted@[t as int].1);
                                assert(omap[f as int].qubits + values.take(t + 1 as int) =~= (
                                omap[f as int].qubits + values.take(t as int)).push(
                                    sorted@[t as int].1,
                                ));
                                assert(self.map@ =~= omap.update(
                                    f as int,
                                    RegModel {
                                        qubits: omap[f as int].qubits + values.take(
                                            t + 1 as int,
                                        ),
                                        ..omap[f as int]
                                    },
                                ));
                            }
                            t = t + 1;
                        }
                        proof {
                            assert(values.take(values.len() as int) =~= values);
                        }
                    },
                }
                let labels = all_qubit_labels(device_number_qubits);
                proof {
                    assert forall|k: int|
                        0 <= k < self.measured_qubits@.len() implies #[trigger] self
                        .measured_qubits@[k] < usize::MAX by {
                        assert(old(self).measured_qubits@[k] < usize::MAX);
                    }
                    lemma_inv_preserved(*old(self), *self);
                    assert(labels@.map_values(|q: String| q@) =~= spec_all_qubit_labels(
                        device_number_qubits as int,
                    ));
                }
                self.push_measure_instruction(readout, labels);
                proof {
                    let step = spec_step(
                        st,
                        Operation::PragmaRepeatedMeasurement {
                            readout: *readout,
                            number_measurements,
                            qubit_mapping: *qubit_mapping,
                        },
                        device_number_qubits,
                    );
                    assert(step is Ok);
                    assert(self.model().instrs =~= step->Ok_0.instrs);
                    assert(self.model().map =~= step->Ok_0.map);
                    assert(self.model().measured =~= step->Ok_0.measured);
                    assert(self.model() == step->Ok_0);
                }
                Ok(())
            },
        }
    }

    /// Inlines a loop with a concrete repetition count, mapping each inner
    /// operation once per repetition; a symbolic repetition count fails.
    #[verifier::rlimit(60)]
    fn handle_loop(
        &mut self,
        repetitions: &LoopRepetitions,
        inner: &Vec<Operation>,
        device_number_qubits: usize,
    ) -> (r: Result<(), IqmBackendError>)
        requires
            old(self).inv(),
            forall|j: int| 0 <= j < inner@.len() ==> spec_gate_bounded(#[trigger] inner@[j]),
        ensures
            ({
                let step = spec_step(
                    old(self).model(),
                    Operation::PragmaLoop { repetitions: *repetitions, circuit: *inner },
                    device_number_qubits,
                );
                &&& step is Ok ==> r is Ok && final(self).inv() && final(self).model()
                    == step->Ok_0
                &&& step is Err ==> r is Err && spec_error_matches(r->Err_0, step->Err_0)
            }),
    {
        let ghost st = self.model();
        match repetitions {
            LoopRepetitions::Symbolic(_) => Err(
                IqmBackendError::InvalidCircuit {
                    msg: String::from_str(
                        "Only Loops with non-symbolic repetitions are supported by the backend.",
                    ),
                },
            ),
            LoopRepetitions::Fixed(k_ref) => {
                let k = *k_ref;
                let ghost body = spec_loop_body(inner@)->Ok_0;
                let mut rep: usize = 0;
                while rep < k
                    invariant
                        self.inv(),
                        rep <= k,
                        st == old(self).model(),
                        *repetitions == LoopRepetitions::Fixed(k),
                        body == spec_loop_body(inner@)->Ok_0,
                        forall|j: int|
                            0 <= j < inner@.len() ==> spec_gate_bounded(#[trigger] inner@[j]),
                        rep > 0 ==> spec_loop_body(inner@) is Ok,
                        self.model() == (TransModel {
                            instrs: st.instrs + spec_repeat(body, rep as nat),
                            ..st
                        }),
                    decreases k - rep,
                {
                    proof {
                        assert(inner@.take(0) =~= Seq::<Operation>::empty());
                        assert(st.instrs + spec_repeat(body, rep as nat) + spec_loop_body(
                            inner@.take(0),
                        )->Ok_0 =~= st.instrs + spec_repeat(body, rep as nat));
                    }
                    let mut j: usize = 0;
                    while j < inner.len()
                        invariant
                            self.inv(),
                            j <= inner@.len(),
                            st == old(self).model(),
                            *repetitions == LoopRepetitions::Fixed(k),
                            rep < k,
                            body == spec_loop_body(inner@)->Ok_0,
                            forall|jj: int|
                                0 <= jj < inner@.len() ==> spec_gate_bounded(#[trigger] inner@[jj]),
                            spec_loop_body(inner@.take(j as int)) is Ok,
                            self.model() == (TransModel {
                                instrs: st.instrs + spec_repeat(body, rep as nat) + spec_loop_body(
                                    inner@.take(j as int),
                                )->Ok_0,
                                ..st
                            }),
                        decreases inner@.len() - j,
                    {
                        proof {
                            assert(inner@.take(j + 1 as int).drop_last() =~= inner@.take(j as int));
                            assert(inner@.take(j + 1 as int).last() == inner@[j as int]);
                        }
                        let inner_op = &inner[j];
                        let step_result = call_operation(inner_op);
                        match step_result {
                            Err(e) => {
                                proof {
                                    lemma_loop_body_error_persists(inner@, j + 1);
                                }
                                return Err(IqmBackendError::RoqoqoBackendError(e));
                            },
                            Ok(None) => {},
                            Ok(Some(instr)) => {
                                proof {
                                    lemma_gate_instr_not_measure(inner@[j as int]);
                                }
                                self.push_plain_instruction(instr);
                                proof {
                                    assert(st.instrs + spec_repeat(body, rep as nat)
                                        + spec_loop_body(inner@.take(j + 1 as int))->Ok_0 =~= (
                                    st.instrs + spec_repeat(body, rep as nat) + spec_loop_body(
                                        inner@.take(j as int),
                                    )->Ok_0).push(spec_call_operation(inner@[j as int])->Ok_0->0));
                                }
                            },
                        }
                        j = j + 1;
                    }
                    proof {
                        assert(inner@.take(inner@.len() as int) =~= inner@);
                        assert(spec_repeat(body, (rep + 1) as nat) == spec_repeat(body, rep as nat)
                            + body);
                        assert(st.instrs + spec_repeat(body, rep as nat) + body =~= st.instrs
                            + spec_repeat(body, (rep + 1) as nat));
                    }
                    rep = rep + 1;
                }
                proof {
                    if k == 0 {
                        assert(st.instrs + spec_repeat(body, 0) =~= st.instrs);
                        assert(self.model() == st);
                    }
                }
                Ok(())
            },
        }
    }
}

/// Converts a whole circuit into the vendor wire format.
///
/// Folds the operations left to right: register declarations feed the
/// measured qubits map, measurements are coalesced into one instruction per
/// register, loops with concrete repetition counts are inlined, and gate
/// operations are mapped one by one. Returns the translated circuit, named
/// after its position in the submission batch, together with the shot
/// count; a caller-supplied shot count always wins over the circuit's own.
#[verifier::rlimit(100)]
pub fn call_circuit(
    circuit: &Circuit,
    device_number_qubits: usize,
    number_measurements_internal: Option<usize>,
    circuit_index: usize,
) -> (r: Result<(IqmCircuit, usize), IqmBackendError>)
    requires
        spec_ops_bounded(circuit.operations@),
    ensures
        ({
            let res = spec_call_circuit(
                circuit.operations@,
                device_number_qubits,
                number_measurements_internal,
                circuit_index,
            );
            &&& res is Ok ==> r is Ok && r->Ok_0.0@ == res->Ok_0.0 && r->Ok_0.1 == res->Ok_0.1
            &&& res is Err ==> r is Err && spec_error_matches(r->Err_0, res->Err_0)
        }),
{
    let ghost opseq = circuit.operations@;
    let mut builder = TransBuilder::new();
    proof {
        assert(opseq.take(0) =~= Seq::<Operation>::empty());
    }
    let mut i: usize = 0;
    while i < circuit.operations.len()
        invariant
            builder.inv(),
            i <= opseq.len(),
            opseq == circuit.operations@,
            spec_ops_bounded(opseq),
            spec_translate(opseq.take(i as int), device_number_qubits) == Ok::<
                TransModel,
                TransError,
            >(builder.model()),
        decreases opseq.len() - i,
    {
        let ghost st = builder.model();
        proof {
            assert(opseq.take(i + 1 as int).drop_last() =~= opseq.take(i as int));
            assert(opseq.take(i + 1 as int).last() == opseq[i as int]);
            assert(spec_op_bounded(opseq[i as int]));
        }
        let op = &circuit.operations[i];
        match op {
            Operation::DefinitionBit { name, length, is_output } => {
                if *is_output {
                    let rec = RegisterRecord {
                        name: name.clone(),
                        qubits: Vec::new(),
                        length: *length,
                    };
                    let ghost before = builder;
                    proof {
                        assert(rec.qubits@ =~= Seq::<usize>::empty());
                        assert(rec@ == RegModel {
                            name: name@,
                            qubits: Seq::empty(),
                            length: *length,
                        });
                    }
                    builder.map.insert(rec);
                    proof {
                        lemma_inv_preserved(before, builder);
                        assert(spec_step(st, opseq[i as int], device_number_qubits) == Ok::<
                            TransModel,
                            TransError,
                        >(builder.model()));
                    }
                }
            },
            Operation::MeasureQubit { qubit, readout, readout_index } => {
                let res = builder.handle_measure_qubit(
                    *qubit,
                    readout,
                    *readout_index,
                    device_number_qubits,
                );
                proof {
                    assert(opseq[i as int] == Operation::MeasureQubit {
                        qubit: *qubit,
                        readout: *readout,
                        readout_index: *readout_index,
                    });
                }
                if let Err(e) = res {
                    proof {
                        lemma_translate_error_persists(opseq, i + 1, device_number_qubits);
                    }
                    return Err(e);
                }
            },
            Operation::PragmaSetNumberOfMeasurements { number_measurements, readout } => {
                let res = builder.handle_set_number_of_measurements(
                    *number_measurements,
                    readout,
                    device_number_qubits,
                );
                proof {
                    assert(opseq[i as int] == Operation::PragmaSetNumberOfMeasurements {
                        number_measurements: *number_measurements,
                        readout: *readout,
                    });
                }
                if let Err(e) = res {
                    proof {
                        lemma_translate_error_persists(opseq, i + 1, device_number_qubits);
                    }
                    return Err(e);
                }
            },
            Operation::PragmaRepeatedMeasurement { readout, number_measurements, qubit_mapping } => {
                let res = builder.handle_repeated_measurement(
                    readout,
                    *number_measurements,
                    qubit_mapping,
                    device_number_qubits,
                );
                proof {
                    assert(opseq[i as int] == Operation::PragmaRepeatedMeasurement {
                        readout: *readout,
                        number_measurements: *number_measurements,
                        qubit_mapping: *qubit_mapping,
                    });
                }
                if let Err(e) = res {
                    proof {
                        lemma_translate_error_persists(opseq, i + 1, device_number_qubits);
                    }
                    return Err(e);
                }
            },
            Operation::PragmaLoop { repetitions, circuit: inner } => {
                let res = builder.handle_loop(repetitions, inner, device_number_qubits);
                proof {
                    assert(opseq[i as int] == Operation::PragmaLoop {
                        repetitions: *repetitions,
                        circuit: *inner,
                    });
                }
                if let Err(e) = res {
                    proof {
                        lemma_translate_error_persists(opseq, i + 1, device_number_qubits);
                    }
                    return Err(e);
                }
            },
            _ => {
                let step_result = call_operation(op);
                match step_result {
                    Err(e) => {
                        proof {
                            lemma_translate_error_persists(opseq, i + 1, device_number_qubits);
                        }
                        return Err(IqmBackendError::RoqoqoBackendError(e));
                    },
                    Ok(None) => {},
                    Ok(Some(instr)) => {
                        proof {
                            lemma_gate_instr_not_measure(opseq[i as int]);
                        }
                        builder.push_plain_instruction(instr);
                    },
                }
            },
        }
        proof {
            assert(spec_translate(opseq.take(i + 1 as int), device_number_qubits) == Ok::<
                TransModel,
                TransError,
            >(builder.model()));
        }
        i = i + 1;
    }
    proof {
        assert(opseq.take(opseq.len() as int) =~= opseq);
    }
    let number_measurements = match number_measurements_internal {
        Some(n) => n,
        None => builder.number_measurements,
    };
    let name = circuit_name(circuit_index);
    let TransBuilder { instrs, meas_index: _, number_measurements: _, measured_qubits: _, map } =
        builder;
    let iqm_circuit = IqmCircuit { name, instructions: instrs, metadata: Some(map) };
    proof {
        let res = spec_call_circuit(
            opseq,
            device_number_qubits,
            number_measurements_internal,
            circuit_index,
        );
        assert(iqm_circuit@.instructions == res->Ok_0.0.instructions);
        assert(iqm_circuit@ == res->Ok_0.0);
    }
    Ok((iqm_circuit, number_measurements))
}

/// Which executable errors may stand for a translation-model error.
pub open spec fn spec_error_matches(e: IqmBackendError, m: TransError) -> bool {
    match m {
        TransError::RegisterTooSmall { name } => e matches IqmBackendError::RegisterTooSmall {
            name: n,
        } && n@ == name,
        TransError::DoubleMeasurement { qubit } => e matches IqmBackendError::InvalidCircuit {
            msg,
        } && msg@ == "Qubit "@ + crate::labels::spec_decimal(qubit as int)
            + " is being measured twice."@,
        TransError::NotInBackend { hqslang } => e matches IqmBackendError::RoqoqoBackendError(
            RoqoqoBackendError::OperationNotInBackend { backend, hqslang: h },
        ) && backend@ == "IQM"@ && h@ == hqslang,
        _ => e is InvalidCircuit,
    }
}


/// Position of one instruction inside a flattened repetition: pass `rep`,
/// offset `q`, body width `width`.
pub open spec fn spec_flat_index(rep: int, q: int, width: int) -> int {
    rep * width + q
}

/// Each pass of a flattened repetition reads back the body, in order.
pub proof fn lemma_repeat_index(body: Seq<InstrModel>, n: nat, rep: int, q: int)
    requires
        0 <= rep < n,
        0 <= q < body.len(),
    ensures
        0 <= rep * body.len() + q < spec_repeat(body, n).len(),
        spec_repeat(body, n)[rep * body.len() + q] == body[q],
    decreases n,
{
    lemma_repeat_len(body, n);
    let l = body.len() as int;
    vstd::arithmetic::mul::lemma_mul_inequality(rep + 1, n as int, l);
    vstd::arithmetic::mul::lemma_mul_is_distributive_add_other_way(l, rep, 1);
    vstd::arithmetic::mul::lemma_mul_nonnegative(rep, l);
    assert((rep + 1) * l == rep * l + l);
    if rep == n - 1 {
        lemma_repeat_len(body, (n - 1) as nat);
        vstd::arithmetic::mul::lemma_mul_is_distributive_add_other_way(l, n as int - 1, 1);
        assert(spec_repeat(body, n) == spec_repeat(body, (n - 1) as nat) + body);
        assert(spec_repeat(body, n)[rep * l + q] == body[q]);
    } else {
        lemma_repeat_index(body, (n - 1) as nat, rep, q);
        lemma_repeat_len(body, (n - 1) as nat);
        assert(spec_repeat(body, n) == spec_repeat(body, (n - 1) as nat) + body);
        vstd::arithmetic::mul::lemma_mul_inequality(rep + 1, n as int - 1, l);
        assert(spec_repeat(body, n)[rep * l + q] == spec_repeat(body, (n - 1) as nat)[rep * l
            + q]);
    }
}

/// Law: translating a loop with a concrete repetition count `n` wrapping
/// operations that map to `k` wire instructions per pass appends exactly
/// `n * k` instructions, the passes concatenated in order.
pub proof fn lemma_loop_translation_flattens(
    st: TransModel,
    n: usize,
    circuit: Vec<Operation>,
    device_number_qubits: usize,
)
    requires
        spec_loop_body(circuit@) is Ok,
    ensures
        spec_step(
            st,
            Operation::PragmaLoop { repetitions: LoopRepetitions::Fixed(n), circuit },
            device_number_qubits,
        ) is Ok,
        ({
            let body = spec_loop_body(circuit@)->Ok_0;
            let result = spec_step(
                st,
                Operation::PragmaLoop { repetitions: LoopRepetitions::Fixed(n), circuit },
                device_number_qubits,
            )->Ok_0;
            &&& result.instrs.len() == st.instrs.len() + n * body.len()
            &&& forall|rep: int, q: int|
                0 <= rep < n && 0 <= q < body.len() ==> result.instrs[st.instrs.len()
                    + #[trigger] spec_flat_index(rep, q, body.len() as int)] == body[q]
            &&& result.map == st.map
            &&& result.number_measurements == st.number_measurements
        }),
{
    let body = spec_loop_body(circuit@)->Ok_0;
    lemma_repeat_len(body, n as nat);
    if n == 0 {
        vstd::arithmetic::mul::lemma_mul_by_zero_is_zero(body.len() as int);
        assert(spec_step(
            st,
            Operation::PragmaLoop { repetitions: LoopRepetitions::Fixed(n), circuit },
            device_number_qubits,
        ) == Ok::<TransModel, TransError>(st));
    } else {
        let result = spec_step(
            st,
            Operation::PragmaLoop { repetitions: LoopRepetitions::Fixed(n), circuit },
            device_number_qubits,
        )->Ok_0;
        assert(result.instrs == st.instrs + spec_repeat(body, n as nat));
        assert forall|rep: int, q: int|
            0 <= rep < n && 0 <= q < body.len() implies result.instrs[st.instrs.len()
            + #[trigger] spec_flat_index(rep, q, body.len() as int)] == body[q] by {
            lemma_repeat_index(body, n as nat, rep, q);
        }
    }
}

/// Law: a circuit holding a loop with a symbolic repetition count never
/// translates; since translation fails as a whole, no instruction from
/// inside that loop is ever emitted.
pub proof fn lemma_symbolic_loop_rejected(
    ops: Seq<Operation>,
    i: int,
    device_number_qubits: usize,
)
    requires
        0 <= i < ops.len(),
        ops[i] matches Operation::PragmaLoop { repetitions: LoopRepetitions::Symbolic(_), .. },
    ensures
        spec_translate(ops, device_number_qubits) is Err,
{
    if spec_translate(ops.take(i), device_number_qubits) is Err {
        lemma_translate_error_persists(ops, i, device_number_qubits);
    } else {
        assert(ops.take(i + 1).drop_last() =~= ops.take(i));
        assert(ops.take(i + 1).last() == ops[i]);
        assert(spec_translate(ops.take(i + 1), device_number_qubits) == Err::<
            TransModel,
            TransError,
        >(TransError::SymbolicLoop));
        lemma_translate_error_persists(ops, i + 1, device_number_qubits);
    }
}


/// A circuit that declares one output register and then measures into it,
/// one qubit at a time.
pub open spec fn spec_single_register_measurements(ops: Seq<Operation>) -> bool {
    &&& ops.len() >= 2
    &&& (ops[0] matches Operation::DefinitionBit { is_output, .. } && is_output)
    &&& forall|j: int|
        1 <= j < ops.len() ==> (#[trigger] ops[j] matches Operation::MeasureQubit {
            readout,
            ..
        } && readout@ == ops[0]->DefinitionBit_name@)
}

/// No qubit is measured twice among the measurement operations.
pub open spec fn spec_distinct_measured_qubits(ops: Seq<Operation>) -> bool {
    forall|j1: int, j2: int|
        1 <= j1 < j2 < ops.len() ==> (#[trigger] ops[j1])->MeasureQubit_qubit != (
        #[trigger] ops[j2])->MeasureQubit_qubit
}

/// The qubit labels of the first `m` measurements, in call order.
pub open spec fn spec_measured_labels(ops: Seq<Operation>, m: int) -> Seq<Seq<char>> {
    Seq::new((m - 1) as nat, |j: int| spec_qubit_label(ops[j + 1]->MeasureQubit_qubit as int))
}

proof fn lemma_coalesce_aux(ops: Seq<Operation>, device_number_qubits: usize, m: int)
    requires
        spec_single_register_measurements(ops),
        spec_distinct_measured_qubits(ops),
        1 <= m <= ops.len(),
    ensures
        spec_translate(ops.take(m), device_number_qubits) is Ok,
        ({
            let st = spec_translate(ops.take(m), device_number_qubits)->Ok_0;
            let rname = ops[0]->DefinitionBit_name@;
            let rlen = ops[0]->DefinitionBit_length;
            &&& st.number_measurements == 1
            &&& st.measured =~= Seq::new(
                (m - 1) as nat,
                |j: int| ops[j + 1]->MeasureQubit_qubit,
            )
            &&& st.map =~= seq![
                RegModel {
                    name: rname,
                    qubits: Seq::new(
                        (m - 1) as nat,
                        |j: int| ops[j + 1]->MeasureQubit_readout_index,
                    ),
                    length: rlen,
                },
            ]
            &&& m == 1 ==> st.instrs =~= Seq::<InstrModel>::empty()
            &&& m > 1 ==> st.instrs =~= seq![
                spec_measure_instr(spec_measured_labels(ops, m), rname),
            ]
        }),
    decreases m,
{
    let rname = ops[0]->DefinitionBit_name@;
    let rlen = ops[0]->DefinitionBit_length;
    if m == 1 {
        assert(ops.take(1).drop_last() =~= ops.take(0));
        assert(ops.take(0) =~= Seq::<Operation>::empty());
        assert(ops.take(1).last() == ops[0]);
        let st = spec_translate(ops.take(1), device_number_qubits)->Ok_0;
        assert(st.map =~= seq![RegModel { name: rname, qubits: Seq::empty(), length: rlen }]);
        assert(st.measured =~= Seq::new(0, |j: int| ops[j + 1]->MeasureQubit_qubit));
        assert(st.map[0].qubits =~= Seq::new(
            0,
            |j: int| ops[j + 1]->MeasureQubit_readout_index,
        ));
        assert(st.map =~= seq![
            RegModel {
                name: rname,
                qubits: Seq::new(0, |j: int| ops[j + 1]->MeasureQubit_readout_index),
                length: rlen,
            },
        ]);
    } else {
        lemma_coalesce_aux(ops, device_number_qubits, m - 1);
        let st = spec_translate(ops.take(m - 1), device_number_qubits)->Ok_0;
        assert(ops.take(m).drop_last() =~= ops.take(m - 1));
        assert(ops.take(m).last() == ops[m - 1]);
        assert(ops[m - 1] matches Operation::MeasureQubit { readout, .. } && readout@ == rname);
        let q = ops[m - 1]->MeasureQubit_qubit;
        let ri = ops[m - 1]->MeasureQubit_readout_index;
        let label = spec_qubit_label(q as int);
        assert(st.map[0].name == rname);
        assert(spec_find(st.map, rname) == 0);
        let newmap = st.map.update(
            0,
            RegModel { qubits: st.map[0].qubits.push(ri), ..st.map[0] },
        );
        assert(newmap[0].qubits =~= Seq::new(
            (m - 1) as nat,
            |j: int| ops[j + 1]->MeasureQubit_readout_index,
        ));
        assert(newmap =~= seq![
            RegModel {
                name: rname,
                qubits: Seq::new((m - 1) as nat, |j: int| ops[j + 1]->MeasureQubit_readout_index),
                length: rlen,
            },
        ]);
        assert(st.measured.push(q) =~= Seq::new(
            (m - 1) as nat,
            |j: int| ops[j + 1]->MeasureQubit_qubit,
        ));
        if m == 2 {
            assert(spec_find_measure(st.instrs, rname) == -1);
            let res = spec_translate(ops.take(m), device_number_qubits)->Ok_0;
            assert(res.instrs == st.instrs.push(spec_measure_instr(seq![label], rname)));
            assert(st.instrs.push(spec_measure_instr(seq![label], rname)) =~= seq![
                spec_measure_instr(seq![label], rname),
            ]);
            assert(seq![label] =~= spec_measured_labels(ops, m));
            assert(spec_measure_instr(seq![label], rname) == spec_measure_instr(
                spec_measured_labels(ops, m),
                rname,
            ));
        } else {
            let prev = spec_measure_instr(spec_measured_labels(ops, m - 1), rname);
            assert(st.instrs[0] == prev);
            assert(spec_arg_lookup(prev.args, "key"@) == Some(ArgModel::Text(rname)));
            assert(spec_is_measure_match(st.instrs[0], rname));
            assert(spec_find_measure(st.instrs, rname) == 0);
            assert(!prev.qubits.contains(label)) by {
                if prev.qubits.contains(label) {
                    let j = choose|j: int|
                        0 <= j < prev.qubits.len() && prev.qubits[j] == label;
                    assert(spec_qubit_label(ops[j + 1]->MeasureQubit_qubit as int)
                        == spec_qubit_label(q as int));
                    crate::labels::lemma_qubit_label_injective(
                        ops[j + 1]->MeasureQubit_qubit as int,
                        q as int,
                    );
                    assert(ops[j + 1]->MeasureQubit_qubit == ops[m - 1]->MeasureQubit_qubit);
                    assert(false);
                }
            }
            let updated = InstrModel { qubits: prev.qubits.push(label), ..prev };
            assert(prev.qubits.push(label) =~= spec_measured_labels(ops, m));
            let res = spec_translate(ops.take(m), device_number_qubits)->Ok_0;
            assert(res.instrs == st.instrs.update(0, updated));
            assert(res.instrs =~= seq![
                spec_measure_instr(spec_measured_labels(ops, m), rname),
            ]);
        }
    }
}

/// Law: a circuit that declares one output register and then measures
/// pairwise distinct qubits into it, one at a time, translates to exactly
/// one wire instruction: a single measurement of that register whose qubit
/// labels list the measured qubits in call order, and the measured qubits
/// map records the written register positions in the same order.
pub proof fn lemma_measurements_coalesce(ops: Seq<Operation>, device_number_qubits: usize)
    requires
        spec_single_register_measurements(ops),
        spec_distinct_measured_qubits(ops),
    ensures
        spec_translate(ops, device_number_qubits) is Ok,
        ({
            let st = spec_translate(ops, device_number_qubits)->Ok_0;
            &&& st.instrs.len() == 1
            &&& st.instrs[0] == spec_measure_instr(
                spec_measured_labels(ops, ops.len() as int),
                ops[0]->DefinitionBit_name@,
            )
            &&& st.map =~= seq![
                RegModel {
                    name: ops[0]->DefinitionBit_name@,
                    qubits: Seq::new(
                        (ops.len() - 1) as nat,
                        |j: int| ops[j + 1]->MeasureQubit_readout_index,
                    ),
                    length: ops[0]->DefinitionBit_length,
                },
            ]
        }),
{
    lemma_coalesce_aux(ops, device_number_qubits, ops.len() as int);
    assert(ops.take(ops.len() as int) =~= ops);
}

} // verus!
