use peer_persistence::call_at::{BlockId, CallAt};
use peer_persistence::meta_data::{to_meta_key, MetaError, MetaValue, StateDb};
use peer_persistence::pruning::{
    parse_block_count, Constraints, KeepBlocks, PruningError, PruningMode, PruningParams,
};

fn params(pruning: Option<&str>, keep_blocks: Option<u32>) -> PruningParams {
    PruningParams { pruning: pruning.map(|s| s.to_string()), keep_blocks }
}

fn keeping(max_blocks: u32) -> PruningMode {
    PruningMode::Constrained(Constraints { max_blocks: Some(max_blocks), max_mem: None })
}

#[test]
fn archive_keeps_everything() {
    assert_eq!(params(Some("archive"), None).state_pruning(false), Ok(PruningMode::ArchiveAll));
    assert_eq!(params(Some("archive"), None).state_pruning(true), Ok(PruningMode::ArchiveAll));
}

#[test]
fn authority_keeps_everything_by_default() {
    assert_eq!(params(None, None).state_pruning(true), Ok(PruningMode::ArchiveAll));
}

#[test]
fn other_nodes_keep_256_blocks_by_default() {
    assert_eq!(params(None, None).state_pruning(false), Ok(keeping(256)));
}

#[test]
fn number_keeps_that_many_blocks() {
    assert_eq!(params(Some("1000"), None).state_pruning(true), Ok(keeping(1000)));
    assert_eq!(params(Some("0"), None).state_pruning(false), Ok(keeping(0)));
}

#[test]
fn anything_else_is_an_invalid_pruning_mode() {
    for text in ["", "archive ", "Archive", "12 blocks", "-1", "0x10", "4294967296"] {
        assert_eq!(
            params(Some(text), None).state_pruning(false),
            Err(PruningError::InvalidPruningMode)
        );
    }
}

#[test]
fn block_counts_are_decimal_numbers_of_32_bits() {
    assert_eq!(parse_block_count("0"), Some(0));
    assert_eq!(parse_block_count("007"), Some(7));
    assert_eq!(parse_block_count("+5"), Some(5));
    assert_eq!(parse_block_count("4294967295"), Some(u32::MAX));
    assert_eq!(parse_block_count("4294967296"), None);
    assert_eq!(parse_block_count("99999999999999999999999999"), None);
    assert_eq!(parse_block_count(""), None);
    assert_eq!(parse_block_count("+"), None);
    assert_eq!(parse_block_count("++1"), None);
    assert_eq!(parse_block_count("12a"), None);
    assert_eq!(parse_block_count(" 12"), None);
    assert_eq!(parse_block_count("١٢"), None);
    for text in ["0", "007", "+5", "4294967295", "4294967296", "", "+", "12a", "-3"] {
        assert_eq!(parse_block_count(text), text.parse::<u32>().ok());
    }
}

#[test]
fn keep_blocks_is_the_chosen_number_or_all() {
    assert_eq!(params(None, Some(10)).keep_blocks(), KeepBlocks::Last(10));
    assert_eq!(params(Some("archive"), None).keep_blocks(), KeepBlocks::All);
}

#[test]
fn mode_is_recorded_under_its_name() {
    let writes = StateDb::meta_data_write_pruning_mode(PruningMode::ArchiveAll);
    assert_eq!(writes.len(), 2);
    assert_eq!(writes[0].key, b"mode".to_vec());
    assert_eq!(writes[0].value, MetaValue::Bytes(b"archive".to_vec()));
    assert_eq!(writes[1].key, b"mode_arg".to_vec());
    assert_eq!(writes[1].value, MetaValue::Absent);

    let writes = StateDb::meta_data_write_pruning_mode(PruningMode::ArchiveCanonical);
    assert_eq!(writes[0].value, MetaValue::Bytes(b"archive_canonical".to_vec()));
    assert_eq!(writes[1].value, MetaValue::Absent);
}

#[test]
fn constrained_mode_is_recorded_with_its_constraints() {
    let limits = Constraints { max_blocks: Some(512), max_mem: Some(1 << 20) };
    let writes = StateDb::meta_data_write_pruning_mode(PruningMode::Constrained(limits));
    assert_eq!(writes[0].key, b"mode".to_vec());
    assert_eq!(writes[0].value, MetaValue::Bytes(b"constrained".to_vec()));
    assert_eq!(writes[1].key, b"mode_arg".to_vec());
    assert_eq!(writes[1].value, MetaValue::Encoded(limits));
}

#[test]
fn recorded_mode_is_read_back() {
    let limits = Constraints { max_blocks: Some(512), max_mem: None };
    assert_eq!(StateDb::meta_data_fetch_pruning_mode(None, None), Ok(None));
    assert_eq!(StateDb::meta_data_fetch_pruning_mode(None, Some(limits)), Ok(None));
    assert_eq!(
        StateDb::meta_data_fetch_pruning_mode(Some(b"archive"), None),
        Ok(Some(PruningMode::ArchiveAll))
    );
    assert_eq!(
        StateDb::meta_data_fetch_pruning_mode(Some(b"archive_canonical"), Some(limits)),
        Ok(Some(PruningMode::ArchiveCanonical))
    );
    assert_eq!(
        StateDb::meta_data_fetch_pruning_mode(Some(b"constrained"), Some(limits)),
        Ok(Some(PruningMode::Constrained(limits)))
    );
    assert_eq!(
        StateDb::meta_data_fetch_pruning_mode(Some(b"constrained"), None),
        Ok(Some(PruningMode::Constrained(Constraints { max_blocks: None, max_mem: None })))
    );
}

#[test]
fn unknown_mode_name_is_an_error() {
    for name in [&b""[..], &b"archiv"[..], &b"archive_"[..], &b"Constrained"[..]] {
        assert_eq!(
            StateDb::meta_data_fetch_pruning_mode(Some(name), None),
            Err(MetaError::UnexpectedMode)
        );
    }
}

#[test]
fn meta_key_is_scope_then_suffix() {
    assert_eq!(to_meta_key(b"mode", b""), b"mode".to_vec());
    assert_eq!(to_meta_key(b"mode", b"\x01\x02"), b"\x01\x02mode".to_vec());
    assert_eq!(to_meta_key(b"", b""), Vec::<u8>::new());
}

#[test]
fn call_context_gives_back_its_block() {
    let by_number: CallAt<[u8; 4], u64> = CallAt::at(BlockId::Number(42));
    assert_eq!(by_number.block_id(), BlockId::Number(42));
    let by_hash: CallAt<[u8; 4], u64> = CallAt::At(BlockId::Hash([1, 2, 3, 4]));
    assert_eq!(by_hash.block_id(), BlockId::Hash([1, 2, 3, 4]));
    assert_ne!(by_hash, by_number);
}
