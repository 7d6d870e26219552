//! Reassembly of the service's per-shot measurement payload into named,
//! correctly shaped boolean registers.
//!
//! The measured qubits map recovered from the job's metadata is the single
//! source of truth for where each reported outcome lands.

use vstd::prelude::*;

use crate::backend::{BatchResult, IqmRunResult};
use crate::interface::{CircModel, IqmCircuit};
use crate::registers::{
    clone_record, spec_find, MeasuredQubitsMap, RegModel,
};
use crate::IqmBackendError;

verus! {

/// Named boolean output registers, indexed `[shot][bit position]`.
#[derive(Debug, PartialEq, Clone)]
pub struct BitRegisters {
    /// The registers, one entry per name.
    pub entries: Vec<(String, Vec<Vec<bool>>)>,
}

/// Model of one register matrix.
pub open spec fn spec_matrix_model(m: Seq<Vec<bool>>) -> Seq<Seq<bool>> {
    m.map_values(|row: Vec<bool>| row@)
}

/// Model of the named registers.
pub open spec fn spec_bit_registers_model(entries: Seq<(String, Vec<Vec<bool>>)>) -> Seq<
    (Seq<char>, Seq<Seq<bool>>),
> {
    entries.map_values(|p: (String, Vec<Vec<bool>>)| (p.0@, spec_matrix_model(p.1@)))
}

impl View for BitRegisters {
    type V = Seq<(Seq<char>, Seq<Seq<bool>>)>;

    open spec fn view(&self) -> Seq<(Seq<char>, Seq<Seq<bool>>)> {
        spec_bit_registers_model(self.entries@)
    }
}

/// Whether some register is named `name`.
pub open spec fn spec_breg_contains(s: Seq<(Seq<char>, Seq<Seq<bool>>)>, name: Seq<char>) -> bool {
    exists|i: int| 0 <= i < s.len() && (#[trigger] s[i]).0 == name
}

impl BitRegisters {
    /// The register named `name`, if present.
    pub fn get(&self, name: &String) -> (r: Option<&Vec<Vec<bool>>>)
        ensures
            r is Some ==> spec_breg_contains(self@, name@) && exists|i: int|
                0 <= i < self@.len() && (#[trigger] self@[i]).0 == name@ && self@[i].1
                    == spec_matrix_model(r->0@),
            r is None ==> !spec_breg_contains(self@, name@),
    {
        let mut i: usize = 0;
        while i < self.entries.len()
            invariant
                i <= self.entries@.len(),
                forall|j: int| 0 <= j < i ==> (#[trigger] self@[j]).0 != name@,
            decreases self.entries@.len() - i,
        {
            if self.entries[i].0 == *name {
                proof {
                    assert(self@[i as int].0 == name@);
                }
                return Some(&self.entries[i].1);
            }
            i = i + 1;
        }
        proof {
            if spec_breg_contains(self@, name@) {
                let j = choose|j: int| 0 <= j < self@.len() && (#[trigger] self@[j]).0 == name@;
                assert(false);
            }
        }
        None
    }

    /// Whether a register named `name` is present.
    pub fn contains_key(&self, name: &String) -> (r: bool)
        ensures
            r == spec_breg_contains(self@, name@),
    {
        let entry = self.get(name);
        entry.is_some()
    }
}

/// Why a result payload cannot be reassembled.
pub ghost enum ReassemblyError {
    /// A circuit of the echoed request carries no measured qubits map.
    MissingMetadata,
    /// Two circuits recorded the same register in their maps.
    DuplicateMetadata,
    /// The job carries no measurement payload.
    EmptyResult,
    /// The payload names a register the client never defined.
    UnknownRegister,
    /// The payload holds two result blocks for the same register.
    DuplicateRegister,
}

/// Merges one circuit's map entries into the accumulated map; a register
/// recorded twice is an error.
pub open spec fn spec_merge_entries(acc: Seq<RegModel>, entries: Seq<RegModel>) -> Result<
    Seq<RegModel>,
    ReassemblyError,
>
    decreases entries.len(),
{
    if entries.len() == 0 {
        Ok(acc)
    } else {
        match spec_merge_entries(acc, entries.drop_last()) {
            Err(e) => Err(e),
            Ok(merged) => {
                if spec_find(merged, entries.last().name) >= 0 {
                    Err(ReassemblyError::DuplicateMetadata)
                } else {
                    Ok(merged.push(entries.last()))
                }
            },
        }
    }
}

/// The measured qubits map of a whole batch, recovered from the per-circuit
/// metadata echoed by the server.
pub open spec fn spec_merge_metadata(circuits: Seq<CircModel>) -> Result<
    Seq<RegModel>,
    ReassemblyError,
>
    decreases circuits.len(),
{
    if circuits.len() == 0 {
        Ok(Seq::empty())
    } else {
        match spec_merge_metadata(circuits.drop_last()) {
            Err(e) => Err(e),
            Ok(acc) => {
                if circuits.last().metadata is None {
                    Err(ReassemblyError::MissingMetadata)
                } else {
                    spec_merge_entries(acc, circuits.last().metadata->0)
                }
            },
        }
    }
}

/// Once merging fails, longer prefixes keep the same error.
pub proof fn lemma_merge_metadata_error_persists(circuits: Seq<CircModel>, i: int)
    requires
        0 <= i <= circuits.len(),
        spec_merge_metadata(circuits.take(i)) is Err,
    ensures
        spec_merge_metadata(circuits) == spec_merge_metadata(circuits.take(i)),
    decreases circuits.len() - i,
{
    if i < circuits.len() {
        assert(circuits.take(i + 1).drop_last() =~= circuits.take(i));
        lemma_merge_metadata_error_persists(circuits, i + 1);
    } else {
        assert(circuits.take(i) =~= circuits);
    }
}

/// Once merging one circuit's entries fails, the rest of them keep failing.
pub proof fn lemma_merge_entries_error_persists(
    acc: Seq<RegModel>,
    entries: Seq<RegModel>,
    i: int,
)
    requires
        0 <= i <= entries.len(),
        spec_merge_entries(acc, entries.take(i)) is Err,
    ensures
        spec_merge_entries(acc, entries) == spec_merge_entries(acc, entries.take(i)),
    decreases entries.len() - i,
{
    if i < entries.len() {
        assert(entries.take(i + 1).drop_last() =~= entries.take(i));
        lemma_merge_entries_error_persists(acc, entries, i + 1);
    } else {
        assert(entries.take(i) =~= entries);
    }
}

/// Merging map entries only ever fails with a duplicate-register error.
pub proof fn lemma_merge_entries_error_kind(acc: Seq<RegModel>, entries: Seq<RegModel>)
    ensures
        spec_merge_entries(acc, entries) is Err ==> spec_merge_entries(acc, entries)->Err_0 is
            DuplicateMetadata,
    decreases entries.len(),
{
    if entries.len() > 0 {
        lemma_merge_entries_error_kind(acc, entries.drop_last());
    }
}

/// Merging metadata only ever fails with a metadata error.
pub proof fn lemma_merge_metadata_error_kind(circuits: Seq<CircModel>)
    ensures
        spec_merge_metadata(circuits) is Err ==> (spec_merge_metadata(circuits)->Err_0 is
            MissingMetadata || spec_merge_metadata(circuits)->Err_0 is DuplicateMetadata),
    decreases circuits.len(),
{
    if circuits.len() > 0 {
        lemma_merge_metadata_error_kind(circuits.drop_last());
        if spec_merge_metadata(circuits.drop_last()) is Ok && circuits.last().metadata is Some {
            lemma_merge_entries_error_kind(
                spec_merge_metadata(circuits.drop_last())->Ok_0,
                circuits.last().metadata->0,
            );
        }
    }
}

/// Which executable errors may stand for a reassembly error.
pub open spec fn spec_reassembly_error_matches(e: IqmBackendError, m: ReassemblyError) -> bool {
    match m {
        ReassemblyError::MissingMetadata => e is MetadataError,
        ReassemblyError::DuplicateMetadata => e is MetadataError,
        ReassemblyError::EmptyResult => e is EmptyResult,
        ReassemblyError::UnknownRegister => e is InvalidResults,
        ReassemblyError::DuplicateRegister => e is InvalidResults,
    }
}

/// Recovers the measured qubits map of a batch from the copy of the
/// request the server echoes with the results: the per-circuit maps are
/// merged, and no register may be recorded by two circuits.
pub fn get_measured_qubits_map(results: &IqmRunResult) -> (r: Result<
    MeasuredQubitsMap,
    IqmBackendError,
>)
    ensures
        ({
            let merged = spec_merge_metadata(
                results.metadata.request.circuits@.map_values(|c: IqmCircuit| c@),
            );
            &&& merged matches Ok(m) ==> (r matches Ok(map) && map@ == m)
            &&& merged is Err ==> r is Err && spec_reassembly_error_matches(
                r->Err_0,
                merged->Err_0,
            )
        }),
{
    let circuits = &results.metadata.request.circuits;
    let ghost cmods = circuits@.map_values(|c: IqmCircuit| c@);
    let mut merged = MeasuredQubitsMap::new();
    proof {
        assert(cmods.take(0) =~= Seq::<CircModel>::empty());
    }
    let mut c: usize = 0;
    while c < circuits.len()
        invariant
            c <= cmods.len(),
            cmods == circuits@.map_values(|x: IqmCircuit| x@),
            circuits@ == results.metadata.request.circuits@,
            spec_merge_metadata(cmods.take(c as int)) == Ok::<Seq<RegModel>, ReassemblyError>(
                merged@,
            ),
        decreases cmods.len() - c,
    {
        proof {
            assert(cmods.take(c + 1 as int).drop_last() =~= cmods.take(c as int));
            assert(cmods.take(c + 1 as int).last() == cmods[c as int]);
        }
        match &circuits[c].metadata {
            None => {
                proof {
                    lemma_merge_metadata_error_persists(cmods, c + 1);
                }
                return Err(
                    IqmBackendError::MetadataError {
                        msg: String::from_str(
                            "Missing metadata field in the copy of the request returned with the results.",
                        ),
                    },
                );
            },
            Some(tmp_map) => {
                let ghost acc0 = merged@;
                let ghost entries = tmp_map@;
                proof {
                    assert(entries.take(0) =~= Seq::<RegModel>::empty());
                }
                let mut e: usize = 0;
                while e < tmp_map.len()
                    invariant
                        e <= entries.len(),
                        entries == tmp_map@,
                        tmp_map@.len() == tmp_map.entries@.len(),
                        c < cmods.len(),
                        cmods == circuits@.map_values(|x: IqmCircuit| x@),
                        circuits@ == results.metadata.request.circuits@,
                        cmods[c as int].metadata == Some(entries),
                        spec_merge_metadata(cmods.take(c as int)) == Ok::<
                            Seq<RegModel>,
                            ReassemblyError,
                        >(acc0),
                        spec_merge_entries(acc0, entries.take(e as int)) == Ok::<
                            Seq<RegModel>,
                            ReassemblyError,
                        >(merged@),
                    decreases entries.len() - e,
                {
                    proof {
                        assert(entries.take(e + 1 as int).drop_last() =~= entries.take(e as int));
                        assert(entries.take(e + 1 as int).last() == entries[e as int]);
                    }
                    let rec = tmp_map.record_at(e);
                    let present = merged.find(&rec.name);
                    if present.is_some() {
                        proof {
                            lemma_merge_entries_error_persists(acc0, entries, e + 1);
                            assert(cmods.take(c + 1 as int).drop_last() =~= cmods.take(c as int));
                            assert(cmods.take(c + 1 as int).last() == cmods[c as int]);
                            lemma_merge_metadata_error_persists(cmods, c + 1);
                        }
                        return Err(
                            IqmBackendError::MetadataError {
                                msg: String::from_str(
                                    "Measured qubits maps from different circuits contain entries for the same register.",
                                ),
                            },
                        );
                    }
                    let copied = clone_record(rec);
                    merged.insert(copied);
                    e = e + 1;
                }
                proof {
                    assert(entries.take(entries.len() as int) =~= entries);
                }
            },
        }
        c = c + 1;
    }
    proof {
        assert(cmods.take(cmods.len() as int) =~= cmods);
    }
    Ok(merged)
}


/// Model of one circuit's result payload.
pub open spec fn spec_circuit_result_model(cr: Vec<(String, Vec<Vec<u8>>)>) -> Seq<
    (Seq<char>, Seq<Seq<u8>>),
> {
    cr@.map_values(
        |p: (String, Vec<Vec<u8>>)| (p.0@, p.1@.map_values(|row: Vec<u8>| row@)),
    )
}

/// Model of a whole batch's result payload.
pub open spec fn spec_batch_result_model(b: BatchResult) -> Seq<Seq<(Seq<char>, Seq<Seq<u8>>)>> {
    b@.map_values(|cr: Vec<(String, Vec<Vec<u8>>)>| spec_circuit_result_model(cr))
}

/// The value of one register cell: the exclusive or, over every list
/// position below `upto` that records cell `q`, of "the reported outcome
/// there is nonzero". A fresh cell is false, so for distinct positions
/// this is plain assignment.
pub open spec fn spec_cell_xor(measured: Seq<usize>, row: Seq<u8>, q: usize, upto: int) -> bool
    decreases upto,
{
    if upto <= 0 {
        false
    } else {
        spec_cell_xor(measured, row, q, upto - 1) ^ (measured[upto - 1] == q && row[upto - 1]
            != 0)
    }
}

/// The reassembled matrix of one register: one row per shot, `true`
/// exactly where the recorded positions report a nonzero outcome an odd
/// number of times.
pub open spec fn spec_register_matrix(rec: RegModel, rows: Seq<Seq<u8>>) -> Seq<Seq<bool>> {
    Seq::new(
        rows.len(),
        |s: int|
            Seq::new(
                rec.length as nat,
                |q: int| spec_cell_xor(rec.qubits, rows[s], q as usize, rec.qubits.len() as int),
            ),
    )
}

/// Folds one circuit's result entries into the named registers.
pub open spec fn spec_assemble_entries(
    acc: Seq<(Seq<char>, Seq<Seq<bool>>)>,
    entries: Seq<(Seq<char>, Seq<Seq<u8>>)>,
    map: Seq<RegModel>,
) -> Result<Seq<(Seq<char>, Seq<Seq<bool>>)>, ReassemblyError>
    decreases entries.len(),
{
    if entries.len() == 0 {
        Ok(acc)
    } else {
        match spec_assemble_entries(acc, entries.drop_last(), map) {
            Err(e) => Err(e),
            Ok(regs) => {
                let name = entries.last().0;
                let f = spec_find(map, name);
                if f < 0 {
                    Err(ReassemblyError::UnknownRegister)
                } else if spec_breg_contains(regs, name) {
                    Err(ReassemblyError::DuplicateRegister)
                } else {
                    Ok(regs.push((name, spec_register_matrix(map[f], entries.last().1))))
                }
            },
        }
    }
}

/// Folds a whole batch's result entries into the named registers.
pub open spec fn spec_assemble(
    batch: Seq<Seq<(Seq<char>, Seq<Seq<u8>>)>>,
    map: Seq<RegModel>,
) -> Result<Seq<(Seq<char>, Seq<Seq<bool>>)>, ReassemblyError>
    decreases batch.len(),
{
    if batch.len() == 0 {
        Ok(Seq::empty())
    } else {
        match spec_assemble(batch.drop_last(), map) {
            Err(e) => Err(e),
            Ok(acc) => spec_assemble_entries(acc, batch.last(), map),
        }
    }
}

/// Once assembly fails, longer prefixes keep the same error.
pub proof fn lemma_assemble_error_persists(
    batch: Seq<Seq<(Seq<char>, Seq<Seq<u8>>)>>,
    map: Seq<RegModel>,
    i: int,
)
    requires
        0 <= i <= batch.len(),
        spec_assemble(batch.take(i), map) is Err,
    ensures
        spec_assemble(batch, map) == spec_assemble(batch.take(i), map),
    decreases batch.len() - i,
{
    if i < batch.len() {
        assert(batch.take(i + 1).drop_last() =~= batch.take(i));
        lemma_assemble_error_persists(batch, map, i + 1);
    } else {
        assert(batch.take(i) =~= batch);
    }
}

/// Once assembling one circuit's entries fails, the rest keep failing.
pub proof fn lemma_assemble_entries_error_persists(
    acc: Seq<(Seq<char>, Seq<Seq<bool>>)>,
    entries: Seq<(Seq<char>, Seq<Seq<u8>>)>,
    map: Seq<RegModel>,
    i: int,
)
    requires
        0 <= i <= entries.len(),
        spec_assemble_entries(acc, entries.take(i), map) is Err,
    ensures
        spec_assemble_entries(acc, entries, map) == spec_assemble_entries(
            acc,
            entries.take(i),
            map,
        ),
    decreases entries.len() - i,
{
    if i < entries.len() {
        assert(entries.take(i + 1).drop_last() =~= entries.take(i));
        lemma_assemble_entries_error_persists(acc, entries, map, i + 1);
    } else {
        assert(entries.take(i) =~= entries);
    }
}

/// The payload's shapes fit the recovered map: wherever the map knows a
/// register of the payload, its recorded positions lie inside the
/// register and every shot row covers all recorded positions.
pub open spec fn spec_reassembly_shaped(
    batch: Seq<Seq<(Seq<char>, Seq<Seq<u8>>)>>,
    map: Seq<RegModel>,
) -> bool {
    forall|c: int, e: int|
        0 <= c < batch.len() && 0 <= e < batch[c].len() ==> {
            let name = (#[trigger] batch[c][e]).0;
            let rows = batch[c][e].1;
            spec_find(map, name) >= 0 ==> {
                let rec = map[spec_find(map, name)];
                &&& forall|j: int|
                    0 <= j < rec.qubits.len() ==> (#[trigger] rec.qubits[j]) < rec.length
                &&& forall|sh: int|
                    0 <= sh < rows.len() ==> (#[trigger] rows[sh]).len() >= rec.qubits.len()
            }
        }
}

/// The full reassembly verdict for a job's results.
pub open spec fn spec_results_to_registers(results: IqmRunResult) -> Result<
    Seq<(Seq<char>, Seq<Seq<bool>>)>,
    ReassemblyError,
> {
    match spec_merge_metadata(
        results.metadata.request.circuits@.map_values(|c: IqmCircuit| c@),
    ) {
        Err(e) => Err(e),
        Ok(map) => {
            if results.measurements is None {
                Err(ReassemblyError::EmptyResult)
            } else {
                spec_assemble(spec_batch_result_model(results.measurements->0), map)
            }
        },
    }
}

/// Builds one register's matrix from its shot rows: freshly false cells,
/// then for every shot and recorded position the cell toggles when the
/// reported outcome is nonzero.
fn assemble_register(rec: &crate::registers::RegisterRecord, rows: &Vec<Vec<u8>>) -> (r: Vec<
    Vec<bool>,
>)
    requires
        forall|j: int| 0 <= j < rec.qubits@.len() ==> (#[trigger] rec.qubits@[j]) < rec.length,
        forall|sh: int|
            0 <= sh < rows@.len() ==> (#[trigger] rows@[sh])@.len() >= rec.qubits@.len(),
    ensures
        spec_matrix_model(r@) == spec_register_matrix(rec@, rows@.map_values(|row: Vec<u8>| row@)),
{
    let ghost rowmods = rows@.map_values(|row: Vec<u8>| row@);
    let ghost goal = spec_register_matrix(rec@, rowmods);
    let mut matrix: Vec<Vec<bool>> = Vec::new();
    let mut s: usize = 0;
    while s < rows.len()
        invariant
            s <= rows@.len(),
            rowmods == rows@.map_values(|row: Vec<u8>| row@),
            goal == spec_register_matrix(rec@, rowmods),
            forall|j: int| 0 <= j < rec.qubits@.len() ==> (#[trigger] rec.qubits@[j]) < rec.length,
            forall|sh: int|
                0 <= sh < rows@.len() ==> (#[trigger] rows@[sh])@.len() >= rec.qubits@.len(),
            matrix@.len() == s,
            forall|sh: int|
                0 <= sh < s ==> (#[trigger] matrix@[sh])@ == goal[sh],
        decreases rows@.len() - s,
    {
        let mut row: Vec<bool> = Vec::new();
        let mut q: usize = 0;
        while q < rec.length
            invariant
                q <= rec.length,
                row@.len() == q,
                forall|k: int| 0 <= k < q ==> (#[trigger] row@[k]) == false,
            decreases rec.length - q,
        {
            row.push(false);
            q = q + 1;
        }
        let shot = &rows[s];
        let mut j: usize = 0;
        while j < rec.qubits.len()
            invariant
                j <= rec.qubits@.len(),
                s < rows@.len(),
                rowmods == rows@.map_values(|r2: Vec<u8>| r2@),
                shot@ == rowmods[s as int],
                shot@.len() >= rec.qubits@.len(),
                forall|k: int|
                    0 <= k < rec.qubits@.len() ==> (#[trigger] rec.qubits@[k]) < rec.length,
                row@.len() == rec.length,
                forall|k: int|
                    0 <= k < rec.length ==> (#[trigger] row@[k]) == spec_cell_xor(
                        rec.qubits@,
                        rowmods[s as int],
                        k as usize,
                        j as int,
                    ),
            decreases rec.qubits@.len() - j,
        {
            let q = rec.qubits[j];
            let flip = shot[j] != 0;
            let previous = row[q];
            row.set(q, previous ^ flip);
            proof {
                assert forall|k: int|
                    0 <= k < rec.length implies (#[trigger] row@[k]) == spec_cell_xor(
                    rec.qubits@,
                    rowmods[s as int],
                    k as usize,
                    j + 1 as int,
                ) by {
                    assert(spec_cell_xor(rec.qubits@, rowmods[s as int], k as usize, j + 1 as int)
                        == (spec_cell_xor(rec.qubits@, rowmods[s as int], k as usize, j as int) ^ (
                    rec.qubits@[j as int] == k as usize && rowmods[s as int][j as int] != 0)));
                }
            }
            j = j + 1;
        }
        matrix.push(row);
        proof {
            assert(goal[s as int] =~= row@);
        }
        s = s + 1;
    }
    proof {
        assert(spec_matrix_model(matrix@) =~= goal);
    }
    matrix
}

/// Converts the service's per-shot result payload into the caller's named
/// boolean registers, using the measured qubits map echoed with the job.
///
/// The payload may not name a register the map does not know, nor name
/// one twice; a missing payload is an empty-result error.
pub fn results_to_registers(results: IqmRunResult, id: String) -> (r: Result<
    BitRegisters,
    IqmBackendError,
>)
    requires
        ({
            let merged = spec_merge_metadata(
                results.metadata.request.circuits@.map_values(|c: IqmCircuit| c@),
            );
            merged is Ok && results.measurements is Some ==> spec_reassembly_shaped(
                spec_batch_result_model(results.measurements->0),
                merged->Ok_0,
            )
        }),
    ensures
        ({
            let verdict = spec_results_to_registers(results);
            &&& verdict matches Ok(regs) ==> (r matches Ok(b) && b@ == regs)
            &&& verdict is Err ==> r is Err && spec_reassembly_error_matches(
                r->Err_0,
                verdict->Err_0,
            )
            &&& verdict == Err::<Seq<(Seq<char>, Seq<Seq<bool>>)>, ReassemblyError>(
                ReassemblyError::EmptyResult,
            ) ==> (r matches Err(IqmBackendError::EmptyResult { id: i }) && i@ == id@)
        }),
{
    let map = match get_measured_qubits_map(&results) {
        Err(e) => {
            proof {
                lemma_merge_metadata_error_kind(
                    results.metadata.request.circuits@.map_values(|c: IqmCircuit| c@),
                );
            }
            return Err(e);
        },
        Ok(m) => m,
    };
    let meas_results = match results.measurements {
        None => {
            return Err(IqmBackendError::EmptyResult { id });
        },
        Some(m) => m,
    };
    let ghost batch = spec_batch_result_model(meas_results);
    let mut bit_registers = BitRegisters { entries: Vec::new() };
    proof {
        assert(batch.take(0) =~= Seq::<Seq<(Seq<char>, Seq<Seq<u8>>)>>::empty());
        assert(bit_registers@ =~= Seq::<(Seq<char>, Seq<Seq<bool>>)>::empty());
    }
    let mut c: usize = 0;
    while c < meas_results.len()
        invariant
            c <= batch.len(),
            batch == spec_batch_result_model(meas_results),
            spec_merge_metadata(
                results.metadata.request.circuits@.map_values(|x: IqmCircuit| x@),
            ) == Ok::<Seq<RegModel>, ReassemblyError>(map@),
            results.measurements == Some(meas_results),
            spec_reassembly_shaped(batch, map@),
            spec_assemble(batch.take(c as int), map@) == Ok::<
                Seq<(Seq<char>, Seq<Seq<bool>>)>,
                ReassemblyError,
            >(bit_registers@),
        decreases batch.len() - c,
    {
        proof {
            assert(batch.take(c + 1 as int).drop_last() =~= batch.take(c as int));
            assert(batch.take(c + 1 as int).last() == batch[c as int]);
        }
        let circuit_result = &meas_results[c];
        let ghost entries = batch[c as int];
        let ghost acc0 = bit_registers@;
        proof {
            assert(entries.take(0) =~= Seq::<(Seq<char>, Seq<Seq<u8>>)>::empty());
        }
        let mut e: usize = 0;
        while e < circuit_result.len()
            invariant
                e <= entries.len(),
                c < batch.len(),
                batch == spec_batch_result_model(meas_results),
                spec_merge_metadata(
                    results.metadata.request.circuits@.map_values(|x: IqmCircuit| x@),
                ) == Ok::<Seq<RegModel>, ReassemblyError>(map@),
                results.measurements == Some(meas_results),
                circuit_result@ == meas_results@[c as int]@,
                entries == batch[c as int],
                entries == spec_circuit_result_model(meas_results@[c as int]),
                spec_reassembly_shaped(batch, map@),
                spec_assemble(batch.take(c as int), map@) == Ok::<
                    Seq<(Seq<char>, Seq<Seq<bool>>)>,
                    ReassemblyError,
                >(acc0),
                spec_assemble_entries(acc0, entries.take(e as int), map@) == Ok::<
                    Seq<(Seq<char>, Seq<Seq<bool>>)>,
                    ReassemblyError,
                >(bit_registers@),
            decreases entries.len() - e,
        {
            proof {
                assert(entries.take(e + 1 as int).drop_last() =~= entries.take(e as int));
                assert(entries.take(e + 1 as int).last() == entries[e as int]);
                assert(entries[e as int].0 == circuit_result@[e as int].0@);
                assert(entries[e as int].1 == circuit_result@[e as int].1@.map_values(
                    |row: Vec<u8>| row@,
                ));
            }
            let entry = &circuit_result[e];
            let reg_name = &entry.0;
            let reg_result = &entry.1;
            let f = match map.find(reg_name) {
                None => {
                    proof {
                        lemma_assemble_entries_error_persists(acc0, entries, map@, e + 1);
                        assert(batch.take(c + 1 as int).drop_last() =~= batch.take(c as int));
                        assert(batch.take(c + 1 as int).last() == batch[c as int]);
                        lemma_assemble_error_persists(batch, map@, c + 1);
                    }
                    return Err(
                        IqmBackendError::InvalidResults {
                            msg: String::from_str(
                                "Backend results contain registers that are not present in the measured qubits map.",
                            ),
                        },
                    );
                },
                Some(f) => f,
            };
            if bit_registers.contains_key(reg_name) {
                proof {
                    lemma_assemble_entries_error_persists(acc0, entries, map@, e + 1);
                    assert(batch.take(c + 1 as int).drop_last() =~= batch.take(c as int));
                    assert(batch.take(c + 1 as int).last() == batch[c as int]);
                    lemma_assemble_error_persists(batch, map@, c + 1);
                }
                return Err(
                    IqmBackendError::InvalidResults {
                        msg: String::from_str(
                            "Backend results contain multiple entries for the same register.",
                        ),
                    },
                );
            }
            let rec = map.record_at(f);
            proof {
                let rec_model = map@[f as int];
                assert(batch[c as int][e as int].0 == entries[e as int].0);
                assert forall|sh: int|
                    0 <= sh < reg_result@.len() implies (#[trigger] reg_result@[sh])@.len()
                    >= rec.qubits@.len() by {
                    assert(batch[c as int][e as int].1[sh] == reg_result@[sh]@);
                    assert(batch[c as int][e as int].1[sh].len() >= rec_model.qubits.len());
                }
                assert forall|j: int|
                    0 <= j < rec.qubits@.len() implies (#[trigger] rec.qubits@[j])
                    < rec.length by {
                    assert(rec_model.qubits[j] < rec_model.length);
                }
            }
            let matrix = assemble_register(rec, reg_result);
            bit_registers.entries.push((reg_name.clone(), matrix));
            proof {
                assert(bit_registers@ =~= spec_assemble_entries(
                    acc0,
                    entries.take(e + 1 as int),
                    map@,
                )->Ok_0);
            }
            e = e + 1;
        }
        proof {
            assert(entries.take(entries.len() as int) =~= entries);
        }
        c = c + 1;
    }
    proof {
        assert(batch.take(batch.len() as int) =~= batch);
    }
    Ok(bit_registers)
}


/// Law: when the recorded positions of a register are pairwise distinct,
/// the reassembled bit `[shot][q]` is true exactly when `q` is recorded at
/// a position whose reported outcome for that shot is nonzero; every other
/// bit stays false. The toggle on a freshly false cell is plain assignment.
pub proof fn lemma_cell_is_direct_assignment(
    measured: Seq<usize>,
    row: Seq<u8>,
    q: usize,
    upto: int,
)
    requires
        0 <= upto <= measured.len(),
        forall|a: int, b: int|
            0 <= a < b < measured.len() ==> measured[a] != measured[b],
    ensures
        spec_cell_xor(measured, row, q, upto) <==> exists|j: int|
            0 <= j < upto && measured[j] == q && row[j] != 0,
    decreases upto,
{
    if upto > 0 {
        lemma_cell_is_direct_assignment(measured, row, q, upto - 1);
        if measured[upto - 1] == q && row[upto - 1] != 0 {
            assert(!spec_cell_xor(measured, row, q, upto - 1)) by {
                if exists|j: int| 0 <= j < upto - 1 && measured[j] == q && row[j] != 0 {
                    let j = choose|j: int| 0 <= j < upto - 1 && measured[j] == q && row[j] != 0;
                    assert(measured[j] != measured[upto - 1]);
                    assert(false);
                }
            }
            assert(spec_cell_xor(measured, row, q, upto));
            assert(0 <= upto - 1 < upto && measured[upto - 1] == q && row[upto - 1] != 0);
        } else {
            assert(spec_cell_xor(measured, row, q, upto) == spec_cell_xor(
                measured,
                row,
                q,
                upto - 1,
            ));
            assert forall|j: int|
                0 <= j < upto && measured[j] == q && row[j] != 0 implies 0 <= j < upto - 1 by {}
        }
    }
}

} // verus!
