//! The pruning mode as it is kept in the metadata of the state database:
//! which records are written for a mode, and which mode records denote.
//!
//! The database and the encoding of the constraints are the caller's. This
//! module decides what is written under which key, and reads back what was
//! found there.

use vstd::prelude::*;
use crate::pruning::{Constraints, PruningMode};

verus! {

/// The key of the record that names the mode: `mode`.
pub open spec fn mode_key() -> Seq<u8> {
    seq![109u8, 111u8, 100u8, 101u8]
}

/// The key of the record that holds the constraints: `mode_arg`.
pub open spec fn mode_arg_key() -> Seq<u8> {
    seq![109u8, 111u8, 100u8, 101u8, 95u8, 97u8, 114u8, 103u8]
}

/// The name of the mode that keeps everything: `archive`.
pub open spec fn archive_name() -> Seq<u8> {
    seq![97u8, 114u8, 99u8, 104u8, 105u8, 118u8, 101u8]
}

/// The name of the mode that keeps every canonical block:
/// `archive_canonical`.
pub open spec fn archive_canonical_name() -> Seq<u8> {
    seq![
        97u8,
        114u8,
        99u8,
        104u8,
        105u8,
        118u8,
        101u8,
        95u8,
        99u8,
        97u8,
        110u8,
        111u8,
        110u8,
        105u8,
        99u8,
        97u8,
        108u8,
    ]
}

/// The name of the mode that keeps state within limits: `constrained`.
pub open spec fn constrained_name() -> Seq<u8> {
    seq![99u8, 111u8, 110u8, 115u8, 116u8, 114u8, 97u8, 105u8, 110u8, 101u8, 100u8]
}

/// The name under which `mode` is recorded.
pub open spec fn name_of(mode: PruningMode) -> Seq<u8> {
    match mode {
        PruningMode::ArchiveAll => archive_name(),
        PruningMode::ArchiveCanonical => archive_canonical_name(),
        PruningMode::Constrained(_) => constrained_name(),
    }
}

/// What is written under one key.
#[derive(Debug, PartialEq, Eq)]
pub enum MetaValue {
    /// These bytes.
    Bytes(Vec<u8>),
    /// The encoding of these constraints.
    Encoded(Constraints),
    /// Nothing: the record is removed.
    Absent,
}

/// One write to the metadata.
#[derive(Debug, PartialEq, Eq)]
pub struct MetaWrite {
    pub key: Vec<u8>,
    pub value: MetaValue,
}

/// Why the records denote no mode.
#[derive(Clone, Copy, Debug, PartialEq, Eq)]
pub enum MetaError {
    /// The recorded name is that of no mode.
    UnexpectedMode,
}

/// The key of a record: the encoded scope, then the suffix.
pub fn to_meta_key(suffix: &[u8], scope: &[u8]) -> (key: Vec<u8>)
    ensures
        key@ == scope@ + suffix@,
{
    let mut key: Vec<u8> = Vec::new();
    let mut i: usize = 0;
    while i < scope.len()
        invariant
            i <= scope@.len(),
            key@ == scope@.take(i as int),
        decreases scope@.len() - i,
    {
        key.push(scope[i]);
        assert(scope@.take(i + 1) == scope@.take(i as int).push(scope@[i as int]));
        i += 1;
    }
    assert(scope@.take(scope@.len() as int) == scope@);
    let mut j: usize = 0;
    while j < suffix.len()
        invariant
            j <= suffix@.len(),
            key@ == scope@ + suffix@.take(j as int),
        decreases suffix@.len() - j,
    {
        key.push(suffix[j]);
        assert(suffix@.take(j + 1) == suffix@.take(j as int).push(suffix@[j as int]));
        j += 1;
    }
    assert(suffix@.take(suffix@.len() as int) == suffix@);
    key
}

/// Whether the two hold the same bytes.
fn same_bytes(a: &[u8], b: &Vec<u8>) -> (same: bool)
    ensures
        same == (a@ == b@),
{
    if a.len() != b.len() {
        return false;
    }
    let mut i: usize = 0;
    while i < a.len()
        invariant
            i <= a@.len(),
            a@.len() == b@.len(),
            forall|j: int| 0 <= j < i ==> a@[j] == b@[j],
        decreases a@.len() - i,
    {
        if a[i] != b[i] {
            return false;
        }
        i += 1;
    }
    assert(a@ =~= b@);
    true
}

/// The bytes of `mode`.
fn mode_key_bytes() -> (key: Vec<u8>)
    ensures
        key@ == mode_key(),
{
    let key: Vec<u8> = vec![109u8, 111u8, 100u8, 101u8];
    assert(key@ =~= mode_key());
    key
}

/// The bytes of `mode_arg`.
fn mode_arg_key_bytes() -> (key: Vec<u8>)
    ensures
        key@ == mode_arg_key(),
{
    let key: Vec<u8> = vec![109u8, 111u8, 100u8, 101u8, 95u8, 97u8, 114u8, 103u8];
    assert(key@ =~= mode_arg_key());
    key
}

/// The bytes of `archive`.
fn archive_bytes() -> (name: Vec<u8>)
    ensures
        name@ == archive_name(),
{
    let name: Vec<u8> = vec![97u8, 114u8, 99u8, 104u8, 105u8, 118u8, 101u8];
    assert(name@ =~= archive_name());
    name
}

/// The bytes of `archive_canonical`.
fn archive_canonical_bytes() -> (name: Vec<u8>)
    ensures
        name@ == archive_canonical_name(),
{
    let name: Vec<u8> = vec![
        97u8,
        114u8,
        99u8,
        104u8,
        105u8,
        118u8,
        101u8,
        95u8,
        99u8,
        97u8,
        110u8,
        111u8,
        110u8,
        105u8,
        99u8,
        97u8,
        108u8,
    ];
    assert(name@ =~= archive_canonical_name());
    name
}

/// The bytes of `constrained`.
fn constrained_bytes() -> (name: Vec<u8>)
    ensures
        name@ == constrained_name(),
{
    let name: Vec<u8> = vec![
        99u8,
        111u8,
        110u8,
        115u8,
        116u8,
        114u8,
        97u8,
        105u8,
        110u8,
        101u8,
        100u8,
    ];
    assert(name@ =~= constrained_name());
    name
}

/// The state database, as far as its metadata goes.
pub struct StateDb;

impl StateDb {
    /// The writes that record `pruning_mode`, in the order in which they
    /// are made: the name of the mode under `mode`; under `mode_arg` the
    /// constraints of a constrained mode, and nothing for the other modes.
    pub fn meta_data_write_pruning_mode(pruning_mode: PruningMode) -> (writes: Vec<MetaWrite>)
        ensures
            writes@.len() == 2,
            writes@[0].key@ == mode_key(),
            writes@[0].value matches MetaValue::Bytes(name) && name@ == name_of(pruning_mode),
            writes@[1].key@ == mode_arg_key(),
            writes@[1].value == (match pruning_mode {
                PruningMode::Constrained(constraints) => MetaValue::Encoded(constraints),
                _ => MetaValue::Absent,
            }),
    {
        let (name, argument) = match pruning_mode {
            PruningMode::ArchiveAll => (archive_bytes(), MetaValue::Absent),
            PruningMode::ArchiveCanonical => (archive_canonical_bytes(), MetaValue::Absent),
            PruningMode::Constrained(constraints) => (
                constrained_bytes(),
                MetaValue::Encoded(constraints),
            ),
        };
        let empty: Vec<u8> = Vec::new();
        let mut writes: Vec<MetaWrite> = Vec::new();
        let mode = mode_key_bytes();
        let mode_arg = mode_arg_key_bytes();
        let first = to_meta_key(mode.as_slice(), empty.as_slice());
        let second = to_meta_key(mode_arg.as_slice(), empty.as_slice());
        assert(first@ =~= mode_key());
        assert(second@ =~= mode_arg_key());
        writes.push(MetaWrite { key: first, value: MetaValue::Bytes(name) });
        writes.push(MetaWrite { key: second, value: argument });
        writes
    }

    /// The mode that the records denote. `mode` is what was found under
    /// `mode`, `constraints` what was found under `mode_arg`, decoded.
    /// Without a name no mode was recorded. A constrained mode without
    /// recorded constraints has none.
    pub fn meta_data_fetch_pruning_mode(mode: Option<&[u8]>, constraints: Option<Constraints>) -> (found:
        Result<Option<PruningMode>, MetaError>)
        ensures
            found == (match mode {
                None => Ok(None),
                Some(name) => if name@ == archive_name() {
                    Ok(Some(PruningMode::ArchiveAll))
                } else if name@ == archive_canonical_name() {
                    Ok(Some(PruningMode::ArchiveCanonical))
                } else if name@ == constrained_name() {
                    Ok(
                        Some(
                            PruningMode::Constrained(
                                match constraints {
                                    Some(limits) => limits,
                                    None => Constraints { max_blocks: None, max_mem: None },
                                },
                            ),
                        ),
                    )
                } else {
                    Err(MetaError::UnexpectedMode)
                },
            }),
    {
        match mode {
            None => Ok(None),
            Some(name) => {
                if same_bytes(name, &archive_bytes()) {
                    Ok(Some(PruningMode::ArchiveAll))
                } else if same_bytes(name, &archive_canonical_bytes()) {
                    Ok(Some(PruningMode::ArchiveCanonical))
                } else if same_bytes(name, &constrained_bytes()) {
                    let limits = match constraints {
                        Some(limits) => limits,
                        None => Constraints { max_blocks: None, max_mem: None },
                    };
                    Ok(Some(PruningMode::Constrained(limits)))
                } else {
                    Err(MetaError::UnexpectedMode)
                }
            },
        }
    }
}

/// What was written for a mode is read back as that mode.
pub proof fn lemma_mode_round_trip(mode: PruningMode)
    ensures
        name_of(mode) == archive_name() <==> mode == PruningMode::ArchiveAll,
        name_of(mode) == archive_canonical_name() <==> mode == PruningMode::ArchiveCanonical,
        name_of(mode) == constrained_name() <==> mode is Constrained,
{
    assert(archive_name().len() == 7);
    assert(archive_canonical_name().len() == 17);
    assert(constrained_name().len() == 11);
}

} // verus!
