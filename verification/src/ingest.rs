//! The decision logic of the ingestion pipeline.
//!
//! The connector state machine decides how a subscription reacts to
//! connection events (reconnect forever, with a fixed delay), and how a fetch
//! outcome for one notification is disposed of. The batch writer accumulates
//! retained records and flushes them to the store when the buffer fills or the
//! periodic timer fires. The embedding program runs the timers, channels and
//! network calls and feeds events into these functions.

use vstd::prelude::*;
use crate::storage::{
    spec_apply_batch, spec_batch_valid, spec_views, Storage, StoredTransaction,
    StoredTransactionView, StoreValueView,
};
use crate::transaction_processor::{
    spec_account_keys, spec_error, spec_is_vote, spec_processable, EncodedConfirmedTransaction,
    EncodedTransaction, TransactionProcessor,
};
use vstd::utf8::encode_utf8;

verus! {

/// The buffer is flushed as soon as it holds this many records.
pub const MAX_BATCH_SIZE: usize = 100;

/// Period of the timer that flushes the buffer regardless of its size.
pub const FLUSH_INTERVAL_SECS: u64 = 5;

/// Period of the observability poll of the store.
pub const STATS_INTERVAL_SECS: u64 = 30;

/// Fixed delay between losing a subscription and the next attempt.
pub const RECONNECT_DELAY_SECS: u64 = 5;

/// Connection lifecycle of one upstream feed.
#[derive(Clone, Copy, Debug, PartialEq, Eq, Structural)]
pub enum ConnectorState {
    Disconnected,
    Subscribing,
    Streaming,
}

/// What the embedding program observed on the connection.
#[derive(Clone, Copy, Debug, PartialEq, Eq, Structural)]
pub enum ConnectorEvent {
    /// The connector is asked to run (initially, or after the delay).
    Start,
    /// The subscription was established.
    SubscribeOk,
    /// The subscription could not be established.
    SubscribeFailed,
    /// The live stream ended or failed.
    StreamEnded,
}

/// The transition table of the connector: reconnection is unbounded, every
/// failure leads back through `Disconnected` after the fixed delay, and no
/// state is terminal.
pub open spec fn spec_connector_step(state: ConnectorState, event: ConnectorEvent) -> (
    ConnectorState,
    u64,
) {
    match (state, event) {
        (ConnectorState::Disconnected, ConnectorEvent::Start) => (ConnectorState::Subscribing, 0),
        (ConnectorState::Subscribing, ConnectorEvent::SubscribeOk) => (
            ConnectorState::Streaming,
            0,
        ),
        (ConnectorState::Subscribing, ConnectorEvent::SubscribeFailed) => (
            ConnectorState::Disconnected,
            RECONNECT_DELAY_SECS,
        ),
        (ConnectorState::Streaming, ConnectorEvent::StreamEnded) => (
            ConnectorState::Disconnected,
            RECONNECT_DELAY_SECS,
        ),
        (s, _) => (s, 0),
    }
}

/// One step of the connector state machine; the second component is how many
/// seconds to wait before acting again.
pub fn connector_step(state: ConnectorState, event: ConnectorEvent) -> (r: (ConnectorState, u64))
    ensures
        r == spec_connector_step(state, event),
{
    match (state, event) {
        (ConnectorState::Disconnected, ConnectorEvent::Start) => (ConnectorState::Subscribing, 0),
        (ConnectorState::Subscribing, ConnectorEvent::SubscribeOk) => (
            ConnectorState::Streaming,
            0,
        ),
        (ConnectorState::Subscribing, ConnectorEvent::SubscribeFailed) => (
            ConnectorState::Disconnected,
            RECONNECT_DELAY_SECS,
        ),
        (ConnectorState::Streaming, ConnectorEvent::StreamEnded) => (
            ConnectorState::Disconnected,
            RECONNECT_DELAY_SECS,
        ),
        (s, _) => (s, 0),
    }
}

/// What the fetch of one notified transaction came back with.
#[derive(Debug)]
pub enum FetchOutcome {
    /// The full transaction body.
    Found(EncodedConfirmedTransaction),
    /// Not visible yet; an expected transient condition, not an error.
    NotFound,
    /// Any other fetch failure.
    FetchFailed,
}

/// What the connector does with one notification.
#[derive(Debug)]
pub enum FetchDisposition {
    /// Hand the transaction to the shared channel.
    Deliver(EncodedConfirmedTransaction),
    /// Drop it without an error (logged at debug level at most).
    SkipSilently,
    /// Drop it and log an error.
    SkipWithErrorLog,
}

/// Dispose of one fetch outcome: a found body is delivered, a missing one is
/// dropped silently, any other failure is dropped with an error log; the
/// connector never retries a single notification.
pub fn handle_fetch_outcome(outcome: FetchOutcome) -> (d: FetchDisposition)
    ensures
        outcome matches FetchOutcome::Found(tx) ==> (d matches FetchDisposition::Deliver(t)
            && t == tx),
        d matches FetchDisposition::Deliver(t) ==> (outcome matches FetchOutcome::Found(tx)
            && t == tx),
        outcome is NotFound <==> d is SkipSilently,
        outcome is FetchFailed <==> d is SkipWithErrorLog,
{
    match outcome {
        FetchOutcome::Found(tx) => FetchDisposition::Deliver(tx),
        FetchOutcome::NotFound => FetchDisposition::SkipSilently,
        FetchOutcome::FetchFailed => FetchDisposition::SkipWithErrorLog,
    }
}

/// Whether a raw transaction is kept by the retention policy: it must be
/// readable and neither control traffic nor failed.
pub open spec fn spec_retained(tx: EncodedConfirmedTransaction) -> bool {
    &&& spec_processable(tx)
    &&& spec_error(tx.meta) is None
    &&& (tx.transaction matches EncodedTransaction::Json { message, .. } ==> !spec_is_vote(
        spec_account_keys(message),
    ))
}

/// The record that the writer files for a retained raw transaction: its first
/// signature, the height and timestamp it was observed at, and the raw body
/// verbatim.
pub open spec fn spec_record_of(tx: EncodedConfirmedTransaction) -> StoredTransactionView {
    StoredTransactionView {
        signature: match tx.transaction {
            EncodedTransaction::Json { signatures, .. } => encode_utf8(signatures@[0]@),
            EncodedTransaction::Unsupported => Seq::empty(),
        },
        slot: tx.slot,
        timestamp: match tx.block_time {
            Some(t) => t,
            None => 0,
        },
        transaction: tx@,
    }
}

/// The state of the store after flushing a buffer into it: the whole batch
/// applied when every buffered record carries an identifier, and nothing
/// otherwise.
pub open spec fn spec_flush_result(
    pre: Map<Seq<u8>, StoreValueView>,
    buffered: Seq<StoredTransactionView>,
    post: Map<Seq<u8>, StoreValueView>,
) -> bool {
    if spec_batch_valid(buffered) {
        post == spec_apply_batch(pre, buffered)
    } else {
        post == pre
    }
}

/// Single consumer of the shared channel: normalizes each record, applies the
/// retention policy, accumulates survivors and writes them out in batches.
pub struct BatchWriter {
    processor: TransactionProcessor,
    buffer: Vec<StoredTransaction>,
}

impl BatchWriter {
    /// The buffer never reaches the flush threshold between calls.
    pub closed spec fn inv(&self) -> bool {
        self.buffer@.len() < MAX_BATCH_SIZE
    }

    /// The records accumulated and not yet flushed, in arrival order.
    pub closed spec fn buffered(&self) -> Seq<StoredTransactionView> {
        spec_views(self.buffer@)
    }

    pub fn new() -> (w: BatchWriter)
        ensures
            w.inv(),
            w.buffered() == Seq::<StoredTransactionView>::empty(),
    {
        let w = BatchWriter { processor: TransactionProcessor::new(), buffer: Vec::new() };
        proof {
            assert(w.buffered() =~= Seq::<StoredTransactionView>::empty());
        }
        w
    }

    /// Write the whole buffer to the store in one atomic batch and clear the
    /// buffer; a rejected batch is logged by the embedder and dropped, and
    /// never halts ingestion.
    pub fn flush(&mut self, storage: &mut Storage)
        requires
            old(storage).wf(),
        ensures
            final(self).inv(),
            final(storage).wf(),
            final(self).buffered() == Seq::<StoredTransactionView>::empty(),
            spec_flush_result(old(storage)@, old(self).buffered(), final(storage)@),
    {
        let _write_result = storage.store_transactions_batch(&self.buffer);
        self.buffer = Vec::new();
        proof {
            assert(final(self).buffered() =~= Seq::<StoredTransactionView>::empty());
        }
    }

    /// Consume one raw transaction from the channel: normalize it, drop it if
    /// normalization fails or the retention policy rejects it, otherwise
    /// append its record to the buffer — and flush once the buffer holds
    /// `MAX_BATCH_SIZE` records.
    pub fn on_transaction(&mut self, storage: &mut Storage, tx: EncodedConfirmedTransaction)
        requires
            old(self).inv(),
            old(storage).wf(),
        ensures
            final(self).inv(),
            final(storage).wf(),
            !spec_retained(tx) ==> final(self).buffered() == old(self).buffered()
                && *final(storage) == *old(storage),
            spec_retained(tx) && old(self).buffered().len() + 1 < MAX_BATCH_SIZE
                ==> final(self).buffered() == old(self).buffered().push(spec_record_of(tx))
                && *final(storage) == *old(storage),
            spec_retained(tx) && old(self).buffered().len() + 1 == MAX_BATCH_SIZE
                ==> final(self).buffered() == Seq::<StoredTransactionView>::empty()
                && spec_flush_result(
                old(storage)@,
                old(self).buffered().push(spec_record_of(tx)),
                final(storage)@,
            ),
    {
        let ghost pre_buf = self.buffered();
        match self.processor.process_encoded_transaction(&tx) {
            Err(_) => {
                // unreadable: logged by the embedder and discarded
            },
            Ok(processed) => {
                if self.processor.should_store_transaction(&processed) {
                    let timestamp: i64 = match tx.block_time {
                        Some(t) => t,
                        None => 0,
                    };
                    let record = StoredTransaction {
                        signature: processed.signature,
                        slot: tx.slot,
                        timestamp,
                        transaction: tx,
                    };
                    proof {
                        assert(record@ =~= spec_record_of(tx));
                    }
                    self.buffer.push(record);
                    proof {
                        assert(self.buffered() =~= pre_buf.push(spec_record_of(tx)));
                    }
                    if self.buffer.len() >= MAX_BATCH_SIZE {
                        self.flush(storage);
                    }
                } else {
                    // control traffic or a failed transaction: not archived
                }
            },
        }
    }

    /// The periodic flush trigger: runs a flush whatever the buffer holds (an
    /// empty buffer makes it a no-op write).
    pub fn on_tick(&mut self, storage: &mut Storage)
        requires
            old(self).inv(),
            old(storage).wf(),
        ensures
            final(self).inv(),
            final(storage).wf(),
            final(self).buffered() == Seq::<StoredTransactionView>::empty(),
            spec_flush_result(old(storage)@, old(self).buffered(), final(storage)@),
    {
        self.flush(storage);
    }
}

} // verus!
