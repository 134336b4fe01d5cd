use solana_node::config::Config;
use solana_node::ingest::{
    connector_step, handle_fetch_outcome, BatchWriter, ConnectorEvent, ConnectorState,
    FetchDisposition, FetchOutcome, MAX_BATCH_SIZE, RECONNECT_DELAY_SECS,
};
use solana_node::storage::{Storage, StorageError, StoredTransaction};
use solana_node::transaction_processor::{
    EncodedConfirmedTransaction, EncodedTransaction, ParsedAccount, ProcessError,
    TransactionMeta, TransactionProcessor, UiMessage,
};

const VOTE_PROGRAM_ID: &str = "Vote111111111111111111111111111111111111111";

fn raw_tx(
    sigs: &[&str],
    keys: &[&str],
    instructions: usize,
    slot: u64,
    block_time: Option<i64>,
    meta: Option<(u64, Option<&str>)>,
) -> EncodedConfirmedTransaction {
    EncodedConfirmedTransaction {
        slot,
        block_time,
        transaction: EncodedTransaction::Json {
            signatures: sigs.iter().map(|s| s.to_string()).collect(),
            message: UiMessage::Raw {
                account_keys: keys.iter().map(|s| s.to_string()).collect(),
                instruction_count: instructions,
            },
        },
        meta: meta.map(|(fee, err)| TransactionMeta {
            fee,
            err: err.map(|e| e.to_string()),
        }),
    }
}

fn stored(sig: &str, slot: u64) -> StoredTransaction {
    StoredTransaction {
        signature: sig.to_string(),
        slot,
        timestamp: 7,
        transaction: raw_tx(&[sig], &["payer"], 1, slot, Some(7), Some((5000, None))),
    }
}

#[test]
fn process_extracts_first_signature_and_op_count_raw() {
    let p = TransactionProcessor::new();
    let tx = raw_tx(&["sigA", "sigB"], &["k1", "k2"], 3, 42, Some(123), Some((5000, None)));
    let r = p.process_encoded_transaction(&tx).unwrap();
    assert_eq!(r.signature, "sigA");
    assert_eq!(r.slot, 42);
    assert_eq!(r.block_time, Some(123));
    assert_eq!(r.fee, 5000);
    assert_eq!(r.error, None);
    assert_eq!(r.account_keys, vec!["k1".to_string(), "k2".to_string()]);
    assert_eq!(r.instruction_count, 3);
    assert!(!r.is_vote);
}

#[test]
fn process_extracts_parsed_account_keys() {
    let p = TransactionProcessor::new();
    let tx = EncodedConfirmedTransaction {
        slot: 9,
        block_time: None,
        transaction: EncodedTransaction::Json {
            signatures: vec!["s1".to_string()],
            message: UiMessage::Parsed {
                account_keys: vec![
                    ParsedAccount { pubkey: "alpha".to_string() },
                    ParsedAccount { pubkey: "beta".to_string() },
                ],
                instruction_count: 2,
            },
        },
        meta: None,
    };
    let r = p.process_encoded_transaction(&tx).unwrap();
    assert_eq!(r.account_keys, vec!["alpha".to_string(), "beta".to_string()]);
    assert_eq!(r.instruction_count, 2);
    assert_eq!(r.fee, 0);
    assert_eq!(r.block_time, None);
}

#[test]
fn process_rejects_unsupported_encoding() {
    let p = TransactionProcessor::new();
    let tx = EncodedConfirmedTransaction {
        slot: 1,
        block_time: None,
        transaction: EncodedTransaction::Unsupported,
        meta: None,
    };
    assert_eq!(p.process_encoded_transaction(&tx), Err(ProcessError::UnsupportedEncoding));
}

#[test]
fn process_rejects_missing_signatures() {
    let p = TransactionProcessor::new();
    let tx = raw_tx(&[], &["k1"], 1, 1, None, None);
    assert_eq!(p.process_encoded_transaction(&tx), Err(ProcessError::MalformedRecord));
}

#[test]
fn vote_transactions_are_detected() {
    let p = TransactionProcessor::new();
    let tx = raw_tx(&["s"], &["payer", VOTE_PROGRAM_ID], 1, 1, None, None);
    assert!(p.process_encoded_transaction(&tx).unwrap().is_vote);
}

#[test]
fn retention_truth_table() {
    let p = TransactionProcessor::new();
    let mut base = p
        .process_encoded_transaction(&raw_tx(&["s"], &["k"], 1, 1, None, None))
        .unwrap();

    base.is_vote = false;
    base.error = None;
    assert!(p.should_store_transaction(&base));

    base.is_vote = true;
    base.error = None;
    assert!(!p.should_store_transaction(&base));

    base.is_vote = false;
    base.error = Some("InstructionError".to_string());
    assert!(!p.should_store_transaction(&base));

    base.is_vote = true;
    base.error = Some("InstructionError".to_string());
    assert!(!p.should_store_transaction(&base));
}

#[test]
fn round_trip_batch_then_get() {
    let mut s = Storage::new();
    let batch = vec![stored("one", 10), stored("two", 11)];
    s.store_transactions_batch(&batch).unwrap();
    let got = s.get_transaction("one").unwrap();
    assert_eq!(got, batch[0]);
    let got2 = s.get_transaction("two").unwrap();
    assert_eq!(got2, batch[1]);
    assert_eq!(s.get_transaction("three"), None);
}

#[test]
fn single_store_then_get() {
    let mut s = Storage::new();
    let tx = stored("solo", 4);
    s.store_transaction(&tx).unwrap();
    assert_eq!(s.get_transaction("solo").unwrap(), tx);
    let stats = s.get_stats();
    assert_eq!(stats.transaction_count, 1);
    assert!(stats.db_size_bytes > 0);
}

#[test]
fn empty_identifier_is_rejected() {
    let mut s = Storage::new();
    assert_eq!(s.store_transaction(&stored("", 4)), Err(StorageError::InvalidRecord));
    assert_eq!(s.get_stats().transaction_count, 0);
}

#[test]
fn range_scan_includes_bounds_and_excludes_beyond() {
    let mut s = Storage::new();
    let (h1, h2, h3) = (100u64, 200u64, 300u64);
    s.store_transactions_batch(&vec![stored("a", h1), stored("b", h2), stored("c", h3)])
        .unwrap();
    let r = s.get_transactions_by_slot_range(h1, h2);
    let sigs: Vec<&str> = r.iter().map(|t| t.signature.as_str()).collect();
    assert_eq!(sigs, vec!["a", "b"]);

    let empty = s.get_transactions_by_slot_range(h2, h1);
    assert!(empty.is_empty());
}

#[test]
fn range_scan_padded_keys_order_numerically() {
    // lexicographic order of the zero-padded keys must agree with numeric
    // order even across digit-count boundaries
    let mut s = Storage::new();
    s.store_transactions_batch(&vec![stored("small", 9), stored("big", 10), stored("huge", 100)])
        .unwrap();
    let r = s.get_transactions_by_slot_range(9, 10);
    let sigs: Vec<&str> = r.iter().map(|t| t.signature.as_str()).collect();
    assert_eq!(sigs, vec!["small", "big"]);
}

#[test]
fn rewrite_same_height_is_idempotent() {
    let mut s = Storage::new();
    let tx = stored("same", 50);
    s.store_transactions_batch(&vec![stored("same", 50)]).unwrap();
    let count_after_first = s.get_stats().transaction_count;
    s.store_transactions_batch(&vec![stored("same", 50)]).unwrap();
    assert_eq!(s.get_stats().transaction_count, count_after_first);
    assert_eq!(s.get_transaction("same").unwrap(), tx);
}

#[test]
fn rewrite_under_new_height_resolves_to_latest_record() {
    let mut s = Storage::new();
    s.store_transaction(&stored("moved", 5)).unwrap();
    s.store_transaction(&stored("moved", 9)).unwrap();
    // the stale height-index pointer still resolves through the primary entry
    let r = s.get_transactions_by_slot_range(5, 5);
    assert_eq!(r.len(), 1);
    assert_eq!(r[0].slot, 9);
    assert_eq!(s.get_stats().transaction_count, 1);
}

#[test]
fn failed_batch_is_atomic() {
    let mut s = Storage::new();
    let batch = vec![stored("good1", 1), stored("", 2), stored("good2", 3)];
    assert_eq!(s.store_transactions_batch(&batch), Err(StorageError::InvalidRecord));
    assert_eq!(s.get_transaction("good1"), None);
    assert_eq!(s.get_transaction("good2"), None);
    assert_eq!(s.get_stats().transaction_count, 0);
    assert!(s.get_transactions_by_slot_range(0, 10).is_empty());
}

#[test]
fn stats_on_empty_store() {
    let s = Storage::new();
    let stats = s.get_stats();
    assert_eq!(stats.transaction_count, 0);
    assert_eq!(stats.db_size_bytes, 0);
}

#[test]
fn writer_flushes_at_batch_size_then_on_tick() {
    let mut storage = Storage::new();
    let mut writer = BatchWriter::new();
    for i in 0..150u64 {
        let sig = format!("sig{:03}", i);
        let tx = raw_tx(&[sig.as_str()], &["payer"], 1, i, Some(1), Some((10, None)));
        writer.on_transaction(&mut storage, tx);
        if i + 1 == MAX_BATCH_SIZE as u64 {
            assert_eq!(storage.get_stats().transaction_count, 100);
        }
    }
    // 100 flushed by size, 50 still buffered
    assert_eq!(storage.get_stats().transaction_count, 100);
    writer.on_tick(&mut storage);
    assert_eq!(storage.get_stats().transaction_count, 150);
}

#[test]
fn writer_drops_votes_failed_and_unreadable() {
    let mut storage = Storage::new();
    let mut writer = BatchWriter::new();
    writer.on_transaction(&mut storage, raw_tx(&["v"], &[VOTE_PROGRAM_ID], 1, 1, None, None));
    writer.on_transaction(
        &mut storage,
        raw_tx(&["f"], &["k"], 1, 2, None, Some((10, Some("err")))),
    );
    writer.on_transaction(
        &mut storage,
        EncodedConfirmedTransaction {
            slot: 3,
            block_time: None,
            transaction: EncodedTransaction::Unsupported,
            meta: None,
        },
    );
    writer.on_tick(&mut storage);
    assert_eq!(storage.get_stats().transaction_count, 0);
}

#[test]
fn not_found_fetch_is_silent_and_stores_nothing() {
    let mut storage = Storage::new();
    let mut writer = BatchWriter::new();
    let d = handle_fetch_outcome(FetchOutcome::NotFound);
    assert!(matches!(d, FetchDisposition::SkipSilently));
    // nothing was delivered, so nothing reaches the writer or the store
    writer.on_tick(&mut storage);
    assert_eq!(storage.get_stats().transaction_count, 0);
    assert_eq!(storage.get_transaction("pending"), None);
}

#[test]
fn found_fetch_is_delivered_and_failure_logged() {
    let tx = raw_tx(&["x"], &["k"], 1, 1, None, None);
    let expected = raw_tx(&["x"], &["k"], 1, 1, None, None);
    match handle_fetch_outcome(FetchOutcome::Found(tx)) {
        FetchDisposition::Deliver(t) => assert_eq!(t, expected),
        _ => panic!("a found transaction must be delivered"),
    }
    assert!(matches!(
        handle_fetch_outcome(FetchOutcome::FetchFailed),
        FetchDisposition::SkipWithErrorLog
    ));
}

#[test]
fn connector_reconnects_forever_with_fixed_delay() {
    assert_eq!(
        connector_step(ConnectorState::Disconnected, ConnectorEvent::Start),
        (ConnectorState::Subscribing, 0)
    );
    assert_eq!(
        connector_step(ConnectorState::Subscribing, ConnectorEvent::SubscribeOk),
        (ConnectorState::Streaming, 0)
    );
    assert_eq!(
        connector_step(ConnectorState::Subscribing, ConnectorEvent::SubscribeFailed),
        (ConnectorState::Disconnected, RECONNECT_DELAY_SECS)
    );
    assert_eq!(
        connector_step(ConnectorState::Streaming, ConnectorEvent::StreamEnded),
        (ConnectorState::Disconnected, RECONNECT_DELAY_SECS)
    );
    // a lost stream can always be picked up again
    assert_eq!(
        connector_step(ConnectorState::Disconnected, ConnectorEvent::Start),
        (ConnectorState::Subscribing, 0)
    );
}

#[test]
fn default_config_values() {
    let c = Config::default();
    assert_eq!(c.storage_path, "./solana_node_data");
    assert_eq!(c.network.rpc_endpoints, vec!["https://api.mainnet-beta.solana.com".to_string()]);
    assert_eq!(
        c.network.websocket_endpoints,
        vec!["wss://api.mainnet-beta.solana.com".to_string()]
    );
    assert_eq!(
        c.network.gossip_entrypoints,
        vec!["entrypoint.mainnet-beta.solana.com:8001".to_string()]
    );
    assert_eq!(c.network.max_connections, 100);
    assert_eq!(c.node.identity_keypair_path, None);
    assert_eq!(c.node.listen_port, 8899);
    assert_eq!(c.node.max_transaction_batch_size, 1000);
    assert_eq!(c.node.storage_retention_days, 30);
}

#[test]
fn raw_payload_is_archived_verbatim() {
    let mut storage = Storage::new();
    let mut writer = BatchWriter::new();
    let tx = raw_tx(&["keep"], &["k1", "k2"], 4, 77, Some(9), Some((21, None)));
    let expected = raw_tx(&["keep"], &["k1", "k2"], 4, 77, Some(9), Some((21, None)));
    writer.on_transaction(&mut storage, tx);
    writer.on_tick(&mut storage);
    let got = storage.get_transaction("keep").unwrap();
    assert_eq!(got.transaction, expected);
    assert_eq!(got.slot, 77);
    assert_eq!(got.timestamp, 9);
}

#[test]
fn range_scan_near_the_height_ceiling() {
    let mut s = Storage::new();
    let top = u64::MAX - 1;
    s.store_transaction(&stored("top", top)).unwrap();
    s.store_transaction(&stored("below", top - 1)).unwrap();
    let r = s.get_transactions_by_slot_range(top, top);
    let sigs: Vec<&str> = r.iter().map(|t| t.signature.as_str()).collect();
    assert_eq!(sigs, vec!["top"]);
}
