//! Bookkeeping for output registers.
//!
//! The measured-qubits map records, for every output register, the ordered
//! register positions written by measurements and the register's declared
//! length. It is the link between the vendor's per-shot result rows and the
//! caller's named registers.

use vstd::prelude::*;

verus! {

/// Ghost model of one register record.
pub ghost struct RegModel {
    /// Register name.
    pub name: Seq<char>,
    /// Ordered register positions written by measurements.
    pub qubits: Seq<usize>,
    /// Declared register length.
    pub length: usize,
}

/// One output register's bookkeeping entry.
#[derive(Debug, PartialEq, Clone)]
pub struct RegisterRecord {
    /// Register name.
    pub name: String,
    /// Ordered register positions written by measurements.
    pub qubits: Vec<usize>,
    /// Declared register length.
    pub length: usize,
}

impl View for RegisterRecord {
    type V = RegModel;

    open spec fn view(&self) -> RegModel {
        RegModel { name: self.name@, qubits: self.qubits@, length: self.length }
    }
}

/// Per output register, the ordered measured positions and declared length.
///
/// Entries are kept in first-insertion order and have pairwise distinct
/// names whenever the map is built through [`MeasuredQubitsMap::insert`].
#[derive(Debug, PartialEq, Clone)]
pub struct MeasuredQubitsMap {
    /// The records, one per register.
    pub entries: Vec<RegisterRecord>,
}

impl View for MeasuredQubitsMap {
    type V = Seq<RegModel>;

    open spec fn view(&self) -> Seq<RegModel> {
        self.entries@.map_values(|r: RegisterRecord| r@)
    }
}

/// Index of the first record named `name` at or after position `i`, or -1.
pub open spec fn spec_find_from(s: Seq<RegModel>, name: Seq<char>, i: int) -> int
    recommends
        0 <= i <= s.len(),
    decreases s.len() - i,
{
    if i < 0 || i >= s.len() {
        -1
    } else if s[i].name == name {
        i
    } else {
        spec_find_from(s, name, i + 1)
    }
}

/// Index of the record named `name`, or -1 if there is none.
pub open spec fn spec_find(s: Seq<RegModel>, name: Seq<char>) -> int {
    spec_find_from(s, name, 0)
}

/// Whether some record is named `name`.
pub open spec fn spec_contains_name(s: Seq<RegModel>, name: Seq<char>) -> bool {
    spec_find(s, name) >= 0
}

/// The map after storing `r`: replaces the record of the same name, or
/// appends `r` if there is none.
pub open spec fn spec_upsert(s: Seq<RegModel>, r: RegModel) -> Seq<RegModel> {
    if spec_find(s, r.name) >= 0 {
        s.update(spec_find(s, r.name), r)
    } else {
        s.push(r)
    }
}

/// Searching from the start equals searching from `i` while no record
/// before `i` matches.
pub proof fn lemma_find_from_skip(s: Seq<RegModel>, name: Seq<char>, i: int)
    requires
        0 <= i <= s.len(),
        forall|j: int| 0 <= j < i ==> s[j].name != name,
    ensures
        spec_find_from(s, name, 0) == spec_find_from(s, name, i),
    decreases i,
{
    if i > 0 {
        lemma_find_from_skip(s, name, i - 1);
    }
}

/// A non-negative search result is a position of a matching record.
pub proof fn lemma_find_from_range(s: Seq<RegModel>, name: Seq<char>, i: int)
    requires
        0 <= i <= s.len(),
    ensures
        spec_find_from(s, name, i) == -1 || (i <= spec_find_from(s, name, i) < s.len()
            && s[spec_find_from(s, name, i)].name == name),
    decreases s.len() - i,
{
    if i < s.len() && s[i].name != name {
        lemma_find_from_range(s, name, i + 1);
    }
}

impl MeasuredQubitsMap {
    /// Creates an empty map.
    pub fn new() -> (r: MeasuredQubitsMap)
        ensures
            r@ =~= Seq::<RegModel>::empty(),
    {
        MeasuredQubitsMap { entries: Vec::new() }
    }

    /// Number of registers recorded.
    pub fn len(&self) -> (r: usize)
        ensures
            r == self@.len(),
    {
        self.entries.len()
    }

    /// Position of the register named `name`, if it is recorded.
    pub fn find(&self, name: &String) -> (r: Option<usize>)
        ensures
            r is Some ==> spec_find(self@, name@) == r->0 as int && (r->0 as int) < self@.len()
                && self@[r->0 as int].name == name@,
            r is None ==> spec_find(self@, name@) == -1,
    {
        proof {
            lemma_find_from_range(self@, name@, 0);
        }
        let mut i: usize = 0;
        while i < self.entries.len()
            invariant
                i <= self.entries.len(),
                forall|j: int| 0 <= j < i ==> self@[j].name != name@,
            decreases self.entries@.len() - i,
        {
            if self.entries[i].name == *name {
                proof {
                    lemma_find_from_skip(self@, name@, i as int);
                }
                return Some(i);
            }
            i = i + 1;
        }
        proof {
            lemma_find_from_skip(self@, name@, self@.len() as int);
        }
        None
    }

    /// The record at position `i`.
    pub fn record_at(&self, i: usize) -> (r: &RegisterRecord)
        requires
            i < self@.len(),
        ensures
            r@ == self@[i as int],
    {
        &self.entries[i]
    }

    /// Stores `rec`, replacing any record of the same name.
    pub fn insert(&mut self, rec: RegisterRecord)
        ensures
            final(self)@ == spec_upsert(old(self)@, rec@),
    {
        let position = self.find(&rec.name);
        match position {
            Some(i) => {
                self.entries.set(i, rec);
                proof {
                    assert(self@ =~= spec_upsert(old(self)@, rec@));
                }
            },
            None => {
                self.entries.push(rec);
                proof {
                    assert(self@ =~= spec_upsert(old(self)@, rec@));
                }
            },
        }
    }

    /// Appends one measured register position to the record at `i`.
    pub fn push_qubit_at(&mut self, i: usize, q: usize)
        requires
            i < old(self)@.len(),
        ensures
            final(self)@ == old(self)@.update(
                i as int,
                RegModel { qubits: old(self)@[i as int].qubits.push(q), ..old(self)@[i as int] },
            ),
    {
        let rec = &mut self.entries[i];
        rec.qubits.push(q);
        proof {
            assert(self@ =~= old(self)@.update(
                i as int,
                RegModel { qubits: old(self)@[i as int].qubits.push(q), ..old(self)@[i as int] },
            ));
        }
    }
}


/// Copies one register record field by field.
pub fn clone_record(rec: &RegisterRecord) -> (r: RegisterRecord)
    ensures
        r@ == rec@,
{
    let mut qubits: Vec<usize> = Vec::new();
    let mut i: usize = 0;
    while i < rec.qubits.len()
        invariant
            i <= rec.qubits@.len(),
            qubits@ == rec.qubits@.take(i as int),
        decreases rec.qubits@.len() - i,
    {
        qubits.push(rec.qubits[i]);
        proof {
            assert(rec.qubits@.take(i + 1 as int) =~= rec.qubits@.take(i as int).push(
                rec.qubits@[i as int],
            ));
        }
        i = i + 1;
    }
    proof {
        assert(rec.qubits@.take(rec.qubits@.len() as int) =~= rec.qubits@);
    }
    RegisterRecord { name: rec.name.clone(), qubits, length: rec.length }
}

} // verus!
