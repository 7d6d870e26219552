//! Device descriptors: qubit counts, endpoints, native-gate tables and
//! connectivity, plus the structural validation the resonator-coupled
//! device needs.
//!
//! Gate times are abstract integer time units; a gate is available on a
//! device exactly when its time is `Some(..)`.

use vstd::prelude::*;
use vstd::string::StringExecFns;

use crate::circuit::{spec_hqslang, spec_single_qubit_target, Circuit, Operation};
use crate::labels::str_eq;
use crate::{IqmBackendError, RoqoqoBackendError};

verus! {

/// The shared gate time of every native gate, in abstract time units.
pub open spec fn spec_unit_gate_time() -> u64 {
    1
}

/// A six-qubit device whose qubits couple to a central resonator.
#[derive(Debug, PartialEq, Clone)]
pub struct DenebDevice {
    /// API endpoint URL of the device.
    pub url: String,
    /// Name of the device.
    pub name: String,
}

/// A six-qubit device of the same generation as the resonator-coupled one.
#[derive(Debug, PartialEq, Clone)]
pub struct AdonisDevice {
    /// API endpoint URL of the device.
    pub url: String,
}

/// The demonstration environment: returns simulated, pseudo-random results.
#[derive(Debug, PartialEq, Clone)]
pub struct DemoDevice {
    /// API endpoint URL of the device.
    pub url: String,
}

/// A six-qubit device with star connectivity and no resonator, used to
/// compile circuits for the resonator-coupled device.
#[derive(Debug, PartialEq, Clone)]
pub struct ResonatorFreeDevice {}

impl DenebDevice {
    /// Creates the device with its default endpoint.
    pub fn new() -> (d: DenebDevice)
        ensures
            d.url@ == "https://cocos.resonance.meetiqm.com/deneb/jobs"@,
            d.name@ == "Deneb"@,
    {
        DenebDevice {
            url: String::from_str("https://cocos.resonance.meetiqm.com/deneb/jobs"),
            name: String::from_str("Deneb"),
        }
    }

    /// Returns the API endpoint URL of the device.
    pub fn remote_host(&self) -> (r: String)
        ensures
            r@ == self.url@,
    {
        self.url.clone()
    }

    /// Returns the name of the device.
    pub fn name(&self) -> (r: String)
        ensures
            r@ == self.name@,
    {
        self.name.clone()
    }

    /// Changes the API endpoint URL of the device.
    pub fn set_endpoint_url(&mut self, new_url: String)
        ensures
            final(self).url@ == new_url@,
            final(self).name@ == old(self).name@,
    {
        self.url = new_url;
    }

    /// Returns the number of qubits the device supports.
    pub fn number_qubits(&self) -> (r: usize)
        ensures
            r == 6,
    {
        6
    }

    /// Gate time of a single-qubit operation, if the device implements it.
    pub fn single_qubit_gate_time(&self, hqslang: &str, qubit: usize) -> (r: Option<u64>)
        ensures
            r == spec_deneb_single_qubit_gate_time(hqslang@, qubit),
    {
        if str_eq(hqslang, "RotateXY") && qubit < 6 {
            Some(1)
        } else {
            None
        }
    }

    /// Gate time of a qubit-resonator operation, treated as a two-qubit
    /// gate whose target stands for the central resonator.
    pub fn two_qubit_gate_time(&self, hqslang: &str, control: usize, target: usize) -> (r: Option<
        u64,
    >)
        ensures
            r == spec_deneb_two_qubit_gate_time(hqslang@, control, target),
    {
        if target == 0 && control < 6 && (str_eq(hqslang, "CZQubitResonator") || str_eq(
            hqslang,
            "SingleExcitationLoad",
        ) || str_eq(hqslang, "SingleExcitationStore")) {
            Some(1)
        } else {
            None
        }
    }

    /// Gate time of a multi-qubit operation; none is available.
    pub fn multi_qubit_gate_time(&self, _hqslang: &str, _qubits: &Vec<usize>) -> (r: Option<u64>)
        ensures
            r is None,
    {
        None
    }

    /// Pairs of qubits linked by a native two-qubit gate; the device has
    /// none, all couplings go through the resonator.
    pub fn two_qubit_edges(&self) -> (r: Vec<(usize, usize)>)
        ensures
            r@ =~= Seq::<(usize, usize)>::empty(),
    {
        Vec::new()
    }
}

/// Availability of single-qubit gates on the resonator-coupled device.
pub open spec fn spec_deneb_single_qubit_gate_time(hqslang: Seq<char>, qubit: usize) -> Option<
    u64,
> {
    if hqslang == "RotateXY"@ && qubit < 6 {
        Some(spec_unit_gate_time())
    } else {
        None
    }
}

/// Availability of qubit-resonator gates on the resonator-coupled device.
pub open spec fn spec_deneb_two_qubit_gate_time(
    hqslang: Seq<char>,
    control: usize,
    target: usize,
) -> Option<u64> {
    if target == 0 && control < 6 && (hqslang == "CZQubitResonator"@ || hqslang
        == "SingleExcitationLoad"@ || hqslang == "SingleExcitationStore"@) {
        Some(spec_unit_gate_time())
    } else {
        None
    }
}

impl AdonisDevice {
    /// Creates the device with its default endpoint.
    pub fn new() -> (d: AdonisDevice)
        ensures
            d.url@ == "https://cocos.resonance.meetiqm.com/adonis/jobs"@,
    {
        AdonisDevice { url: String::from_str("https://cocos.resonance.meetiqm.com/adonis/jobs") }
    }

    /// Returns the API endpoint URL of the device.
    pub fn remote_host(&self) -> (r: String)
        ensures
            r@ == self.url@,
    {
        self.url.clone()
    }

    /// Changes the API endpoint URL of the device.
    pub fn set_endpoint_url(&mut self, new_url: String)
        ensures
            final(self).url@ == new_url@,
    {
        self.url = new_url;
    }

    /// Returns the number of qubits the device supports.
    pub fn number_qubits(&self) -> (r: usize)
        ensures
            r == 6,
    {
        6
    }

    /// Gate time of a single-qubit operation, if the device implements it.
    pub fn single_qubit_gate_time(&self, hqslang: &str, qubit: usize) -> (r: Option<u64>)
        ensures
            r == spec_adonis_single_qubit_gate_time(hqslang@, qubit),
    {
        if str_eq(hqslang, "RotateXY") && qubit < 6 {
            Some(1)
        } else {
            None
        }
    }

    /// Gate time of a qubit-resonator operation: the controlled Z is
    /// available on every qubit, moving an excitation only on the last one.
    pub fn two_qubit_gate_time(&self, hqslang: &str, control: usize, target: usize) -> (r: Option<
        u64,
    >)
        ensures
            r == spec_adonis_two_qubit_gate_time(hqslang@, control, target),
    {
        if target == 0 {
            if str_eq(hqslang, "CZQubitResonator") && control < 6 {
                Some(1)
            } else if (str_eq(hqslang, "SingleExcitationLoad") || str_eq(
                hqslang,
                "SingleExcitationStore",
            )) && control == 5 {
                Some(1)
            } else {
                None
            }
        } else {
            None
        }
    }

    /// Gate time of a multi-qubit operation; none is available.
    pub fn multi_qubit_gate_time(&self, _hqslang: &str, _qubits: &Vec<usize>) -> (r: Option<u64>)
        ensures
            r is None,
    {
        None
    }

    /// Pairs of qubits linked by a native two-qubit gate; the device has none.
    pub fn two_qubit_edges(&self) -> (r: Vec<(usize, usize)>)
        ensures
            r@ =~= Seq::<(usize, usize)>::empty(),
    {
        Vec::new()
    }
}

/// Availability of single-qubit gates on the Adonis device.
pub open spec fn spec_adonis_single_qubit_gate_time(hqslang: Seq<char>, qubit: usize) -> Option<
    u64,
> {
    if hqslang == "RotateXY"@ && qubit < 6 {
        Some(spec_unit_gate_time())
    } else {
        None
    }
}

/// Availability of qubit-resonator gates on the Adonis device.
pub open spec fn spec_adonis_two_qubit_gate_time(
    hqslang: Seq<char>,
    control: usize,
    target: usize,
) -> Option<u64> {
    if target == 0 && hqslang == "CZQubitResonator"@ && control < 6 {
        Some(spec_unit_gate_time())
    } else if target == 0 && (hqslang == "SingleExcitationLoad"@ || hqslang
        == "SingleExcitationStore"@) && control == 5 {
        Some(spec_unit_gate_time())
    } else {
        None
    }
}

impl DemoDevice {
    /// Creates the device with its default endpoint.
    pub fn new() -> (d: DemoDevice)
        ensures
            d.url@ == "https://demo.qc.iqm.fi/cocos/jobs"@,
    {
        DemoDevice { url: String::from_str("https://demo.qc.iqm.fi/cocos/jobs") }
    }

    /// Returns the API endpoint URL of the device.
    pub fn remote_host(&self) -> (r: String)
        ensures
            r@ == self.url@,
    {
        self.url.clone()
    }

    /// Changes the API endpoint URL of the device.
    pub fn set_endpoint_url(&mut self, new_url: String)
        ensures
            final(self).url@ == new_url@,
    {
        self.url = new_url;
    }

    /// Returns the number of qubits the device supports.
    pub fn number_qubits(&self) -> (r: usize)
        ensures
            r == 5,
    {
        5
    }

    /// Gate time of a single-qubit operation, if the device implements it.
    pub fn single_qubit_gate_time(&self, hqslang: &str, qubit: usize) -> (r: Option<u64>)
        ensures
            r == spec_demo_single_qubit_gate_time(hqslang@, qubit),
    {
        if str_eq(hqslang, "RotateXY") && qubit < 5 {
            Some(1)
        } else {
            None
        }
    }

    /// Gate time of a two-qubit operation: the controlled Z along the
    /// device's edges.
    pub fn two_qubit_gate_time(&self, hqslang: &str, control: usize, target: usize) -> (r: Option<
        u64,
    >)
        ensures
            r == spec_demo_two_qubit_gate_time(hqslang@, control, target),
    {
        let lo: usize = if control <= target {
            control
        } else {
            target
        };
        let hi: usize = if control <= target {
            target
        } else {
            control
        };
        if str_eq(hqslang, "ControlledPauliZ") && ((lo == 0 && hi == 2) || (lo == 1 && hi == 2) || (
        lo == 2 && hi == 3) || (lo == 2 && hi == 4)) {
            Some(1)
        } else {
            None
        }
    }

    /// Gate time of a multi-qubit operation; none is available.
    pub fn multi_qubit_gate_time(&self, _hqslang: &str, _qubits: &Vec<usize>) -> (r: Option<u64>)
        ensures
            r is None,
    {
        None
    }

    /// Pairs of qubits linked by a native two-qubit gate.
    pub fn two_qubit_edges(&self) -> (r: Vec<(usize, usize)>)
        ensures
            r@ =~= seq![(0usize, 2usize), (1usize, 2usize), (2usize, 3usize), (2usize, 4usize)],
    {
        let mut edges: Vec<(usize, usize)> = Vec::new();
        edges.push((0, 2));
        edges.push((1, 2));
        edges.push((2, 3));
        edges.push((2, 4));
        edges
    }
}

/// Availability of single-qubit gates on the demonstration device.
pub open spec fn spec_demo_single_qubit_gate_time(hqslang: Seq<char>, qubit: usize) -> Option<
    u64,
> {
    if hqslang == "RotateXY"@ && qubit < 5 {
        Some(spec_unit_gate_time())
    } else {
        None
    }
}

/// Whether the demonstration device links the two qubits.
pub open spec fn spec_demo_edge(lo: usize, hi: usize) -> bool {
    ||| (lo == 0 && hi == 2)
    ||| (lo == 1 && hi == 2)
    ||| (lo == 2 && hi == 3)
    ||| (lo == 2 && hi == 4)
}

/// Availability of two-qubit gates on the demonstration device.
pub open spec fn spec_demo_two_qubit_gate_time(
    hqslang: Seq<char>,
    control: usize,
    target: usize,
) -> Option<u64> {
    let lo = if control <= target {
        control
    } else {
        target
    };
    let hi = if control <= target {
        target
    } else {
        control
    };
    if hqslang == "ControlledPauliZ"@ && spec_demo_edge(lo, hi) {
        Some(spec_unit_gate_time())
    } else {
        None
    }
}

impl ResonatorFreeDevice {
    /// Creates the device.
    pub fn new() -> (d: ResonatorFreeDevice) {
        ResonatorFreeDevice {  }
    }

    /// Returns the number of qubits the device supports.
    pub fn number_qubits(&self) -> (r: usize)
        ensures
            r == 6,
    {
        6
    }

    /// Gate time of a single-qubit operation, if the device implements it.
    pub fn single_qubit_gate_time(&self, hqslang: &str, qubit: usize) -> (r: Option<u64>)
        ensures
            r == spec_resonator_free_single_qubit_gate_time(hqslang@, qubit),
    {
        if str_eq(hqslang, "RotateXY") && qubit < 6 {
            Some(1)
        } else {
            None
        }
    }

    /// Gate time of a two-qubit operation: the controlled Z between the
    /// central qubit and any other.
    pub fn two_qubit_gate_time(&self, hqslang: &str, control: usize, target: usize) -> (r: Option<
        u64,
    >)
        ensures
            r == spec_resonator_free_two_qubit_gate_time(hqslang@, control, target),
    {
        let lo: usize = if control <= target {
            control
        } else {
            target
        };
        let hi: usize = if control <= target {
            target
        } else {
            control
        };
        if str_eq(hqslang, "ControlledPauliZ") && lo < 5 && hi == 5 {
            Some(1)
        } else {
            None
        }
    }

    /// Gate time of a multi-qubit operation; none is available.
    pub fn multi_qubit_gate_time(&self, _hqslang: &str, _qubits: &Vec<usize>) -> (r: Option<u64>)
        ensures
            r is None,
    {
        None
    }

    /// Pairs of qubits linked by a native two-qubit gate: a star around
    /// the central qubit.
    pub fn two_qubit_edges(&self) -> (r: Vec<(usize, usize)>)
        ensures
            r@.len() == 5,
            forall|i: int| 0 <= i < 5 ==> r@[i] == (i as usize, 5usize),
    {
        let mut edges: Vec<(usize, usize)> = Vec::new();
        let mut i: usize = 0;
        while i < 5
            invariant
                i <= 5,
                edges@.len() == i,
                forall|j: int| 0 <= j < i ==> edges@[j] == (j as usize, 5usize),
            decreases 5 - i,
        {
            edges.push((i, 5));
            i = i + 1;
        }
        edges
    }
}

/// Availability of single-qubit gates on the resonator-free device.
pub open spec fn spec_resonator_free_single_qubit_gate_time(
    hqslang: Seq<char>,
    qubit: usize,
) -> Option<u64> {
    if hqslang == "RotateXY"@ && qubit < 6 {
        Some(spec_unit_gate_time())
    } else {
        None
    }
}

/// Availability of two-qubit gates on the resonator-free device.
pub open spec fn spec_resonator_free_two_qubit_gate_time(
    hqslang: Seq<char>,
    control: usize,
    target: usize,
) -> Option<u64> {
    let lo = if control <= target {
        control
    } else {
        target
    };
    let hi = if control <= target {
        target
    } else {
        control
    };
    if hqslang == "ControlledPauliZ"@ && lo < 5 && hi == 5 {
        Some(spec_unit_gate_time())
    } else {
        None
    }
}

/// The devices the backend can target.
#[derive(Debug, PartialEq, Clone)]
pub enum IqmDevice {
    /// The resonator-coupled device.
    DenebDevice(DenebDevice),
    /// The Adonis device.
    AdonisDevice(AdonisDevice),
    /// The demonstration environment.
    DemoDevice(DemoDevice),
    /// The resonator-free compilation target.
    ResonatorFreeDevice(ResonatorFreeDevice),
}

/// Availability of single-qubit gates, dispatched per device.
pub open spec fn spec_single_qubit_gate_time(
    device: IqmDevice,
    hqslang: Seq<char>,
    qubit: usize,
) -> Option<u64> {
    match device {
        IqmDevice::DenebDevice(_) => spec_deneb_single_qubit_gate_time(hqslang, qubit),
        IqmDevice::AdonisDevice(_) => spec_adonis_single_qubit_gate_time(hqslang, qubit),
        IqmDevice::DemoDevice(_) => spec_demo_single_qubit_gate_time(hqslang, qubit),
        IqmDevice::ResonatorFreeDevice(_) => spec_resonator_free_single_qubit_gate_time(
            hqslang,
            qubit,
        ),
    }
}

/// Availability of two-qubit gates, dispatched per device.
pub open spec fn spec_two_qubit_gate_time(
    device: IqmDevice,
    hqslang: Seq<char>,
    control: usize,
    target: usize,
) -> Option<u64> {
    match device {
        IqmDevice::DenebDevice(_) => spec_deneb_two_qubit_gate_time(hqslang, control, target),
        IqmDevice::AdonisDevice(_) => spec_adonis_two_qubit_gate_time(hqslang, control, target),
        IqmDevice::DemoDevice(_) => spec_demo_two_qubit_gate_time(hqslang, control, target),
        IqmDevice::ResonatorFreeDevice(_) => spec_resonator_free_two_qubit_gate_time(
            hqslang,
            control,
            target,
        ),
    }
}

/// Qubit count, dispatched per device.
pub open spec fn spec_number_qubits(device: IqmDevice) -> usize {
    match device {
        IqmDevice::DemoDevice(_) => 5,
        _ => 6,
    }
}

impl IqmDevice {
    /// Returns the number of qubits the device supports.
    pub fn number_qubits(&self) -> (r: usize)
        ensures
            r == spec_number_qubits(*self),
    {
        match self {
            IqmDevice::DenebDevice(d) => d.number_qubits(),
            IqmDevice::AdonisDevice(d) => d.number_qubits(),
            IqmDevice::DemoDevice(d) => d.number_qubits(),
            IqmDevice::ResonatorFreeDevice(d) => d.number_qubits(),
        }
    }

    /// Returns the API endpoint URL of the device. The resonator-free
    /// device is a compilation target with no endpoint of its own.
    pub fn remote_host(&self) -> (r: String)
        ensures
            r@ == spec_remote_host(*self),
    {
        match self {
            IqmDevice::DenebDevice(d) => d.remote_host(),
            IqmDevice::AdonisDevice(d) => d.remote_host(),
            IqmDevice::DemoDevice(d) => d.remote_host(),
            IqmDevice::ResonatorFreeDevice(_) => String::new(),
        }
    }

    /// Returns the name of the device kind.
    pub fn name(&self) -> (r: String)
        ensures
            r@ == spec_device_name(*self),
    {
        match self {
            IqmDevice::DenebDevice(d) => d.name(),
            IqmDevice::AdonisDevice(_) => String::from_str("Adonis"),
            IqmDevice::DemoDevice(_) => String::from_str("Demo"),
            IqmDevice::ResonatorFreeDevice(_) => String::from_str("ResonatorFree"),
        }
    }

    /// Gate time of a single-qubit operation, if the device implements it.
    pub fn single_qubit_gate_time(&self, hqslang: &str, qubit: usize) -> (r: Option<u64>)
        ensures
            r == spec_single_qubit_gate_time(*self, hqslang@, qubit),
    {
        match self {
            IqmDevice::DenebDevice(d) => d.single_qubit_gate_time(hqslang, qubit),
            IqmDevice::AdonisDevice(d) => d.single_qubit_gate_time(hqslang, qubit),
            IqmDevice::DemoDevice(d) => d.single_qubit_gate_time(hqslang, qubit),
            IqmDevice::ResonatorFreeDevice(d) => d.single_qubit_gate_time(hqslang, qubit),
        }
    }

    /// Gate time of a two-qubit operation, if the device implements it.
    pub fn two_qubit_gate_time(&self, hqslang: &str, control: usize, target: usize) -> (r: Option<
        u64,
    >)
        ensures
            r == spec_two_qubit_gate_time(*self, hqslang@, control, target),
    {
        match self {
            IqmDevice::DenebDevice(d) => d.two_qubit_gate_time(hqslang, control, target),
            IqmDevice::AdonisDevice(d) => d.two_qubit_gate_time(hqslang, control, target),
            IqmDevice::DemoDevice(d) => d.two_qubit_gate_time(hqslang, control, target),
            IqmDevice::ResonatorFreeDevice(d) => d.two_qubit_gate_time(hqslang, control, target),
        }
    }

    /// Gate time of a multi-qubit operation; no device implements one.
    pub fn multi_qubit_gate_time(&self, _hqslang: &str, _qubits: &Vec<usize>) -> (r: Option<u64>)
        ensures
            r is None,
    {
        None
    }
}

/// Endpoint URL, dispatched per device.
pub open spec fn spec_remote_host(device: IqmDevice) -> Seq<char> {
    match device {
        IqmDevice::DenebDevice(d) => d.url@,
        IqmDevice::AdonisDevice(d) => d.url@,
        IqmDevice::DemoDevice(d) => d.url@,
        IqmDevice::ResonatorFreeDevice(_) => Seq::empty(),
    }
}

/// Device-kind name, dispatched per device.
pub open spec fn spec_device_name(device: IqmDevice) -> Seq<char> {
    match device {
        IqmDevice::DenebDevice(d) => d.name@,
        IqmDevice::AdonisDevice(_) => "Adonis"@,
        IqmDevice::DemoDevice(_) => "Demo"@,
        IqmDevice::ResonatorFreeDevice(_) => "ResonatorFree"@,
    }
}


/// State of the shared resonator during the structural scan.
#[derive(Debug, PartialEq, Clone, Copy)]
pub enum ResonatorState {
    /// No excitation is held in the resonator.
    Idle,
    /// An excitation is held in the resonator.
    Stored,
    /// The excitation was loaded back into a qubit.
    Loaded,
}

/// Ghost state of the load/store scan: the resonator state, the qubit the
/// held excitation came from, and whether that qubit was rotated while its
/// excitation was still held, before the matching load.
pub ghost struct LoadStoreModel {
    /// Resonator state.
    pub state: ResonatorState,
    /// The qubit whose excitation was last stored, if any.
    pub stored_qubit: Option<usize>,
    /// Whether a single-qubit operation touched the stored qubit while
    /// the resonator held its excitation.
    pub qubit_rotated: bool,
}

/// Why the load/store discipline is violated.
pub ghost enum LoadStoreViolation {
    /// Two loads in a row: there is nothing left to load.
    SecondLoad,
    /// Two stores in a row: only one excitation fits in the resonator.
    SecondStore,
    /// The stored qubit was rotated before its excitation came back.
    RotatedBeforeLoad,
}

/// The scan's initial state.
pub open spec fn spec_load_store_init() -> LoadStoreModel {
    LoadStoreModel { state: ResonatorState::Idle, stored_qubit: None, qubit_rotated: false }
}

/// How one operation drives the load/store scan.
pub open spec fn spec_load_store_step(fs: LoadStoreModel, op: Operation) -> Result<
    LoadStoreModel,
    LoadStoreViolation,
> {
    match op {
        Operation::SingleExcitationLoad { qubit, .. } => {
            match fs.state {
                ResonatorState::Loaded => Err(LoadStoreViolation::SecondLoad),
                ResonatorState::Stored => {
                    if fs.qubit_rotated && fs.stored_qubit == Some(qubit) {
                        Err(LoadStoreViolation::RotatedBeforeLoad)
                    } else {
                        Ok(LoadStoreModel { state: ResonatorState::Loaded, ..fs })
                    }
                },
                ResonatorState::Idle => Ok(LoadStoreModel { state: ResonatorState::Loaded, ..fs }),
            }
        },
        Operation::SingleExcitationStore { qubit, .. } => {
            if fs.state is Stored {
                Err(LoadStoreViolation::SecondStore)
            } else {
                Ok(
                    LoadStoreModel {
                        state: ResonatorState::Stored,
                        stored_qubit: Some(qubit),
                        qubit_rotated: false,
                    },
                )
            }
        },
        _ => Ok(
            if fs.state is Stored && fs.stored_qubit is Some && spec_single_qubit_target(op)
                == Some(fs.stored_qubit->0) {
                LoadStoreModel { qubit_rotated: true, ..fs }
            } else {
                fs
            },
        ),
    }
}

/// The scan state after a whole operation sequence, or the first violation.
pub open spec fn spec_load_store_scan(ops: Seq<Operation>) -> Result<
    LoadStoreModel,
    LoadStoreViolation,
>
    decreases ops.len(),
{
    if ops.len() == 0 {
        Ok(spec_load_store_init())
    } else {
        match spec_load_store_scan(ops.drop_last()) {
            Err(e) => Err(e),
            Ok(fs) => spec_load_store_step(fs, ops.last()),
        }
    }
}

/// Once the scan hits a violation, longer prefixes keep the same one.
pub proof fn lemma_load_store_error_persists(ops: Seq<Operation>, i: int)
    requires
        0 <= i <= ops.len(),
        spec_load_store_scan(ops.take(i)) is Err,
    ensures
        spec_load_store_scan(ops) == spec_load_store_scan(ops.take(i)),
    decreases ops.len() - i,
{
    if i < ops.len() {
        assert(ops.take(i + 1).drop_last() =~= ops.take(i));
        lemma_load_store_error_persists(ops, i + 1);
    } else {
        assert(ops.take(i) =~= ops);
    }
}

/// Whether the device validator lets an operation of this name pass
/// without a gate-table entry.
pub open spec fn spec_deneb_allowed(name: Seq<char>) -> bool {
    ||| name == "PragmaSetNumberOfMeasurements"@
    ||| name == "PragmaRepeatedMeasurement"@
    ||| name == "MeasureQubit"@
    ||| name == "DefinitionBit"@
    ||| name == "InputBit"@
}

/// Why the resonator-coupled device rejects an operation.
pub ghost enum DenebConnectivityError {
    /// A qubit index lies outside the device.
    TooManyQubits {
        /// Name of the offending operation.
        hqslang: Seq<char>,
        /// The offending qubit index.
        qubit: usize,
    },
    /// A resonator index other than the single resonator's.
    WrongResonator {
        /// Name of the offending operation.
        hqslang: Seq<char>,
    },
    /// An operation the backend cannot run.
    NotInBackend {
        /// Name of the offending operation.
        hqslang: Seq<char>,
    },
}

/// The connectivity verdict for one operation on the resonator-coupled
/// device.
pub open spec fn spec_deneb_check_op(op: Operation) -> Result<(), DenebConnectivityError> {
    match op {
        Operation::RotateXY { qubit, .. } => {
            if qubit >= 6 {
                Err(DenebConnectivityError::TooManyQubits { hqslang: spec_hqslang(op), qubit })
            } else {
                Ok(())
            }
        },
        Operation::CZQubitResonator { qubit, mode } => {
            if qubit >= 6 {
                Err(DenebConnectivityError::TooManyQubits { hqslang: spec_hqslang(op), qubit })
            } else if mode != 0 {
                Err(DenebConnectivityError::WrongResonator { hqslang: spec_hqslang(op) })
            } else {
                Ok(())
            }
        },
        Operation::SingleExcitationLoad { mode, .. } => {
            if mode != 0 {
                Err(DenebConnectivityError::WrongResonator { hqslang: spec_hqslang(op) })
            } else {
                Ok(())
            }
        },
        Operation::SingleExcitationStore { mode, .. } => {
            if mode != 0 {
                Err(DenebConnectivityError::WrongResonator { hqslang: spec_hqslang(op) })
            } else {
                Ok(())
            }
        },
        _ => {
            if spec_deneb_allowed(spec_hqslang(op)) {
                Ok(())
            } else {
                Err(DenebConnectivityError::NotInBackend { hqslang: spec_hqslang(op) })
            }
        },
    }
}

/// The first connectivity error of a sequence, if any.
pub open spec fn spec_deneb_connectivity(ops: Seq<Operation>) -> Result<
    (),
    DenebConnectivityError,
>
    decreases ops.len(),
{
    if ops.len() == 0 {
        Ok(())
    } else {
        match spec_deneb_connectivity(ops.drop_last()) {
            Err(e) => Err(e),
            Ok(_) => spec_deneb_check_op(ops.last()),
        }
    }
}

/// Once the connectivity scan fails, longer prefixes keep the same error.
pub proof fn lemma_deneb_connectivity_error_persists(ops: Seq<Operation>, i: int)
    requires
        0 <= i <= ops.len(),
        spec_deneb_connectivity(ops.take(i)) is Err,
    ensures
        spec_deneb_connectivity(ops) == spec_deneb_connectivity(ops.take(i)),
    decreases ops.len() - i,
{
    if i < ops.len() {
        assert(ops.take(i + 1).drop_last() =~= ops.take(i));
        lemma_deneb_connectivity_error_persists(ops, i + 1);
    } else {
        assert(ops.take(i) =~= ops);
    }
}

/// Which executable errors may stand for a connectivity error.
pub open spec fn spec_deneb_error_matches(
    e: IqmBackendError,
    m: DenebConnectivityError,
) -> bool {
    match m {
        DenebConnectivityError::NotInBackend { hqslang } => e matches
            IqmBackendError::RoqoqoBackendError(
            RoqoqoBackendError::OperationNotInBackend { backend, hqslang: h },
        ) && backend@ == "IQM"@ && h@ == hqslang,
        _ => e is InvalidCircuit,
    }
}

impl DenebDevice {
    /// Validates a circuit for this device: the connectivity of every
    /// operation first, then the load/store discipline of the resonator.
    pub fn validate_circuit(&self, circuit: &Circuit) -> (r: Result<(), IqmBackendError>)
        ensures
            ({
                let conn = spec_deneb_connectivity(circuit.operations@);
                let scan = spec_load_store_scan(circuit.operations@);
                &&& (r is Ok <==> (conn is Ok && scan is Ok))
                &&& conn is Err ==> r is Err && spec_deneb_error_matches(r->Err_0, conn->Err_0)
                &&& (conn is Ok && scan is Err) ==> r is Err && r->Err_0 is InvalidCircuit
            }),
    {
        let connectivity = self.validate_circuit_connectivity(circuit);
        match connectivity {
            Err(e) => Err(e),
            Ok(_) => self.validate_circuit_load_store(circuit),
        }
    }

    /// Checks each operation against the device's gate tables and its
    /// single resonator.
    fn validate_circuit_connectivity(&self, circuit: &Circuit) -> (r: Result<(), IqmBackendError>)
        ensures
            ({
                let conn = spec_deneb_connectivity(circuit.operations@);
                &&& (r is Ok <==> conn is Ok)
                &&& conn is Err ==> r is Err && spec_deneb_error_matches(r->Err_0, conn->Err_0)
            }),
    {
        let ghost opseq = circuit.operations@;
        let mut i: usize = 0;
        while i < circuit.operations.len()
            invariant
                i <= opseq.len(),
                opseq == circuit.operations@,
                spec_deneb_connectivity(opseq.take(i as int)) is Ok,
            decreases opseq.len() - i,
        {
            proof {
                assert(opseq.take(i + 1 as int).drop_last() =~= opseq.take(i as int));
                assert(opseq.take(i + 1 as int).last() == opseq[i as int]);
            }
            let op = &circuit.operations[i];
            match op {
                Operation::RotateXY { qubit, .. } => {
                    if *qubit >= 6 {
                        proof {
                            lemma_deneb_connectivity_error_persists(opseq, i + 1);
                        }
                        return Err(
                            IqmBackendError::InvalidCircuit {
                                msg: String::from_str(
                                    "Too many qubits involved in the circuit for this device.",
                                ),
                            },
                        );
                    }
                },
                Operation::CZQubitResonator { qubit, mode } => {
                    if *qubit >= 6 {
                        proof {
                            lemma_deneb_connectivity_error_persists(opseq, i + 1);
                        }
                        return Err(
                            IqmBackendError::InvalidCircuit {
                                msg: String::from_str(
                                    "Too many qubits involved in the circuit for this device.",
                                ),
                            },
                        );
                    }
                    if *mode != 0 {
                        proof {
                            lemma_deneb_connectivity_error_persists(opseq, i + 1);
                        }
                        return Err(
                            IqmBackendError::InvalidCircuit {
                                msg: String::from_str(
                                    "Wrong resonator index: this device has a single resonator with index 0.",
                                ),
                            },
                        );
                    }
                },
                Operation::SingleExcitationLoad { mode, .. } => {
                    if *mode != 0 {
                        proof {
                            lemma_deneb_connectivity_error_persists(opseq, i + 1);
                        }
                        return Err(
                            IqmBackendError::InvalidCircuit {
                                msg: String::from_str(
                                    "Wrong resonator index: this device has a single resonator with index 0.",
                                ),
                            },
                        );
                    }
                },
                Operation::SingleExcitationStore { mode, .. } => {
                    if *mode != 0 {
                        proof {
                            lemma_deneb_connectivity_error_persists(opseq, i + 1);
                        }
                        return Err(
                            IqmBackendError::InvalidCircuit {
                                msg: String::from_str(
                                    "Wrong resonator index: this device has a single resonator with index 0.",
                                ),
                            },
                        );
                    }
                },
                _ => {
                    let name = op.hqslang();
                    let allowed = {
                        ||| name == String::from_str("PragmaSetNumberOfMeasurements")
                        ||| name == String::from_str("PragmaRepeatedMeasurement")
                        ||| name == String::from_str("MeasureQubit")
                        ||| name == String::from_str("DefinitionBit")
                        ||| name == String::from_str("InputBit")
                    };
                    if !allowed {
                        proof {
                            lemma_deneb_connectivity_error_persists(opseq, i + 1);
                        }
                        return Err(
                            IqmBackendError::RoqoqoBackendError(
                                RoqoqoBackendError::OperationNotInBackend {
                                    backend: String::from_str("IQM"),
                                    hqslang: name,
                                },
                            ),
                        );
                    }
                },
            }
            i = i + 1;
        }
        proof {
            assert(opseq.take(opseq.len() as int) =~= opseq);
        }
        Ok(())
    }

    /// Scans the circuit once, tracking the resonator's single excitation:
    /// a second store, a second load, or a rotation of the stored qubit
    /// while the resonator still holds its excitation, observed before the
    /// matching load, is illegal.
    fn validate_circuit_load_store(&self, circuit: &Circuit) -> (r: Result<(), IqmBackendError>)
        ensures
            ({
                let scan = spec_load_store_scan(circuit.operations@);
                &&& (r is Ok <==> scan is Ok)
                &&& scan is Err ==> r is Err && r->Err_0 is InvalidCircuit
            }),
    {
        let ghost opseq = circuit.operations@;
        let mut state = ResonatorState::Idle;
        let mut stored_qubit: Option<usize> = None;
        let mut qubit_rotated: bool = false;
        let mut i: usize = 0;
        while i < circuit.operations.len()
            invariant
                i <= opseq.len(),
                opseq == circuit.operations@,
                spec_load_store_scan(opseq.take(i as int)) == Ok::<
                    LoadStoreModel,
                    LoadStoreViolation,
                >(LoadStoreModel { state, stored_qubit, qubit_rotated }),
            decreases opseq.len() - i,
        {
            proof {
                assert(opseq.take(i + 1 as int).drop_last() =~= opseq.take(i as int));
                assert(opseq.take(i + 1 as int).last() == opseq[i as int]);
            }
            let op = &circuit.operations[i];
            match op {
                Operation::SingleExcitationLoad { qubit, .. } => {
                    match state {
                        ResonatorState::Loaded => {
                            proof {
                                lemma_load_store_error_persists(opseq, i + 1);
                            }
                            return Err(
                                IqmBackendError::InvalidCircuit {
                                    msg: String::from_str(
                                        "Circuit tries to load twice in a row from the resonator.",
                                    ),
                                },
                            );
                        },
                        ResonatorState::Stored => {
                            let rotated_stored = if qubit_rotated {
                                match stored_qubit {
                                    Some(stored) => stored == *qubit,
                                    None => false,
                                }
                            } else {
                                false
                            };
                            if rotated_stored {
                                proof {
                                    lemma_load_store_error_persists(opseq, i + 1);
                                }
                                return Err(
                                    IqmBackendError::InvalidCircuit {
                                        msg: String::from_str(
                                            "Circuit tries to rotate a qubit before loading an excitation into it from the resonator.",
                                        ),
                                    },
                                );
                            }
                            state = ResonatorState::Loaded;
                        },
                        ResonatorState::Idle => {
                            state = ResonatorState::Loaded;
                        },
                    }
                },
                Operation::SingleExcitationStore { qubit, .. } => {
                    match state {
                        ResonatorState::Stored => {
                            proof {
                                lemma_load_store_error_persists(opseq, i + 1);
                            }
                            return Err(
                                IqmBackendError::InvalidCircuit {
                                    msg: String::from_str(
                                        "Circuit tries to store two excitations in the resonator.",
                                    ),
                                },
                            );
                        },
                        _ => {
                            stored_qubit = Some(*qubit);
                            state = ResonatorState::Stored;
                            qubit_rotated = false;
                        },
                    }
                },
                _ => {
                    let target = crate::circuit::single_qubit_target(op);
                    match (state, stored_qubit, target) {
                        (ResonatorState::Stored, Some(stored), Some(q)) => {
                            if stored == q {
                                qubit_rotated = true;
                            }
                        },
                        _ => {},
                    }
                },
            }
            i = i + 1;
        }
        proof {
            assert(opseq.take(opseq.len() as int) =~= opseq);
        }
        Ok(())
    }
}

} // verus!
