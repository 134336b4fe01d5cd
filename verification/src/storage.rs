//! The dual-indexed embedded store.
//!
//! An ordered byte-key store holds two namespaces over one keyspace: each
//! archived record lives under its primary key `record:<id>`, and a pointer to
//! the identifier lives under the height-index key
//! `byheight:<padded height>:<id>`. Batched writes are atomic: a rejected
//! batch leaves the store exactly as it was. The store is abstracted by a
//! [`Map`] from byte keys to entry views, and every operation is specified
//! against that map.

use vstd::prelude::*;
use vstd::string::StringSliceAdditionalSpecFns;
use vstd::utf8::encode_utf8;
use crate::keys::{
    byheight_prefix, record_prefix, spec_height_bound_key, spec_pad20, lemma_secondary_key_range,
    lemma_primary_key_injective,
    lemma_namespaces_disjoint, lemma_secondary_key_injective, primary_key, secondary_key,
    spec_primary_key, spec_secondary_key,
};
use crate::lex::{
    lex_le, lemma_lex_sandwich,
    lemma_lex_asymmetric, lemma_lex_transitive, lemma_lex_trichotomy,
    lex_lt, lex_lt_bytes,
};
use crate::transaction_processor::{EncodedConfirmedTransaction, EncodedConfirmedTransactionView};

verus! {

/// What the store keeps for one archived transaction: its identifier, the
/// height it was observed at, its timestamp, and the raw body verbatim.
#[derive(Debug, PartialEq)]
pub struct StoredTransaction {
    pub signature: String,
    pub slot: u64,
    pub timestamp: i64,
    pub transaction: EncodedConfirmedTransaction,
}

/// Mathematical image of a stored record; the identifier appears as the byte
/// string that keys are built from.
#[verifier::ext_equal]
pub struct StoredTransactionView {
    pub signature: Seq<u8>,
    pub slot: u64,
    pub timestamp: i64,
    pub transaction: EncodedConfirmedTransactionView,
}

impl View for StoredTransaction {
    type V = StoredTransactionView;

    open spec fn view(&self) -> StoredTransactionView {
        StoredTransactionView {
            signature: encode_utf8(self.signature@),
            slot: self.slot,
            timestamp: self.timestamp,
            transaction: self.transaction@,
        }
    }
}

impl Clone for StoredTransaction {
    fn clone(&self) -> (r: StoredTransaction)
        ensures
            r@ == self@,
    {
        let r = StoredTransaction {
            signature: self.signature.clone(),
            slot: self.slot,
            timestamp: self.timestamp,
            transaction: self.transaction.clone(),
        };
        proof {
            assert(r@ =~= self@);
        }
        r
    }
}

/// A value of the keyspace: an archived record in the primary namespace, or
/// an identifier pointer in the height index.
#[derive(Debug)]
pub enum StoreValue {
    Record(StoredTransaction),
    Pointer(Vec<u8>),
}

/// Mathematical image of a store value.
#[verifier::ext_equal]
pub enum StoreValueView {
    Record(StoredTransactionView),
    Pointer(Seq<u8>),
}

impl View for StoreValue {
    type V = StoreValueView;

    open spec fn view(&self) -> StoreValueView {
        match self {
            StoreValue::Record(tx) => StoreValueView::Record(tx@),
            StoreValue::Pointer(p) => StoreValueView::Pointer(p@),
        }
    }
}

/// One key-value pair of the underlying ordered store.
pub struct KvEntry {
    pub key: Vec<u8>,
    pub value: StoreValue,
}

/// The map abstraction of a sequence of entries; a later entry overrides an
/// earlier one with the same key.
pub open spec fn kv_map(entries: Seq<KvEntry>) -> Map<Seq<u8>, StoreValueView>
    decreases entries.len(),
{
    if entries.len() == 0 {
        Map::empty()
    } else {
        kv_map(entries.drop_last()).insert(entries.last().key@, entries.last().value@)
    }
}

/// Keys strictly increase through the entry sequence.
pub open spec fn sorted_entries(entries: Seq<KvEntry>) -> bool {
    forall|i: int, j: int|
        0 <= i < j < entries.len() ==> lex_lt(
            #[trigger] entries[i].key@,
            #[trigger] entries[j].key@,
        )
}

/// Whether `k` is the height-index key of identifier `sig` at some height.
pub open spec fn is_secondary_form(k: Seq<u8>, sig: Seq<u8>) -> bool {
    exists|h: u64| k == #[trigger] spec_secondary_key(h, sig)
}

/// A value is filed under the key its namespace prescribes: records under
/// their primary key, pointers under a height-index key naming the same
/// identifier.
pub open spec fn wf_value(k: Seq<u8>, v: StoreValueView) -> bool {
    match v {
        StoreValueView::Record(tx) => k == spec_primary_key(tx.signature) && tx.signature.len()
            > 0,
        StoreValueView::Pointer(sig) => is_secondary_form(k, sig),
    }
}

/// The store invariant over the map abstraction: every entry is well-filed,
/// and every archived record has its height-index pointer.
pub open spec fn wf_map(m: Map<Seq<u8>, StoreValueView>) -> bool {
    &&& forall|k: Seq<u8>| #[trigger] m.contains_key(k) ==> wf_value(k, m[k])
    &&& forall|k: Seq<u8>|
        #[trigger] m.contains_key(k) ==> match m[k] {
            StoreValueView::Record(tx) => m.contains_key(spec_secondary_key(tx.slot, tx.signature))
                && m[spec_secondary_key(tx.slot, tx.signature)] == StoreValueView::Pointer(
                tx.signature,
            ),
            StoreValueView::Pointer(_) => true,
        }
}

/// One record written into the map: its primary entry and its height-index
/// pointer.
pub open spec fn spec_apply_record(
    m: Map<Seq<u8>, StoreValueView>,
    tx: StoredTransactionView,
) -> Map<Seq<u8>, StoreValueView> {
    m.insert(spec_primary_key(tx.signature), StoreValueView::Record(tx)).insert(
        spec_secondary_key(tx.slot, tx.signature),
        StoreValueView::Pointer(tx.signature),
    )
}

/// A whole batch written into the map, first record first.
pub open spec fn spec_apply_batch(
    m: Map<Seq<u8>, StoreValueView>,
    txs: Seq<StoredTransactionView>,
) -> Map<Seq<u8>, StoreValueView>
    decreases txs.len(),
{
    if txs.len() == 0 {
        m
    } else {
        spec_apply_batch(spec_apply_record(m, txs[0]), txs.drop_first())
    }
}

/// A record is storable when it carries an identifier.
pub open spec fn spec_batch_valid(txs: Seq<StoredTransactionView>) -> bool {
    forall|i: int| 0 <= i < txs.len() ==> (#[trigger] txs[i].signature).len() > 0
}

/// The views of a batch, in order.
pub open spec fn spec_views(txs: Seq<StoredTransaction>) -> Seq<StoredTransactionView> {
    txs.map_values(|t: StoredTransaction| t@)
}

/// Why the store rejected a batch.
#[derive(Clone, Copy, Debug, PartialEq, Eq, Structural)]
pub enum StorageError {
    /// A record without an identifier cannot be filed.
    InvalidRecord,
}

/// Aggregate observability metrics of the store.
#[derive(Clone, Copy, Debug, PartialEq, Eq, Structural)]
pub struct StorageStats {
    pub transaction_count: u64,
    pub db_size_bytes: u64,
}

proof fn lemma_sorted_distinct(entries: Seq<KvEntry>)
    requires
        sorted_entries(entries),
    ensures
        forall|i: int, j: int|
            0 <= i < j < entries.len() ==> (#[trigger] entries[i].key@) != (
            #[trigger] entries[j].key@),
{
    assert forall|i: int, j: int| 0 <= i < j < entries.len() implies (#[trigger] entries[i].key@)
        != (#[trigger] entries[j].key@) by {
        lemma_lex_asymmetric(entries[i].key@, entries[j].key@);
    }
}

proof fn lemma_kv_map_contains(entries: Seq<KvEntry>, k: Seq<u8>)
    ensures
        kv_map(entries).contains_key(k) <==> exists|i: int|
            0 <= i < entries.len() && (#[trigger] entries[i].key@) == k,
    decreases entries.len(),
{
    if entries.len() > 0 {
        lemma_kv_map_contains(entries.drop_last(), k);
        if entries.last().key@ == k {
            assert(entries[entries.len() - 1].key@ == k);
        } else if kv_map(entries).contains_key(k) {
            let i = choose|i: int|
                0 <= i < entries.drop_last().len() && (#[trigger] entries.drop_last()[i].key@)
                    == k;
            assert(entries[i].key@ == k);
        } else if exists|i: int| 0 <= i < entries.len() && (#[trigger] entries[i].key@) == k {
            let i = choose|i: int| 0 <= i < entries.len() && (#[trigger] entries[i].key@) == k;
            assert(i < entries.len() - 1);
            assert(entries.drop_last()[i].key@ == k);
        }
    }
}

proof fn lemma_kv_map_at(entries: Seq<KvEntry>, i: int)
    requires
        sorted_entries(entries),
        0 <= i < entries.len(),
    ensures
        kv_map(entries).contains_key(entries[i].key@),
        kv_map(entries)[entries[i].key@] == entries[i].value@,
    decreases entries.len(),
{
    lemma_sorted_distinct(entries);
    if i == entries.len() - 1 {
    } else {
        assert(sorted_entries(entries.drop_last()));
        lemma_kv_map_at(entries.drop_last(), i);
        assert(entries.drop_last()[i].key@ == entries[i].key@);
        assert(entries.last().key@ != entries[i].key@);
    }
}

proof fn lemma_kv_map_update(entries: Seq<KvEntry>, i: int, e: KvEntry)
    requires
        forall|a: int, b: int|
            0 <= a < b < entries.len() ==> (#[trigger] entries[a].key@) != (
            #[trigger] entries[b].key@),
        0 <= i < entries.len(),
        e.key@ == entries[i].key@,
    ensures
        kv_map(entries.update(i, e)) =~= kv_map(entries).insert(e.key@, e.value@),
    decreases entries.len(),
{
    let s = entries.update(i, e);
    if i == entries.len() - 1 {
        assert(s.drop_last() =~= entries.drop_last());
        assert(s.last() == e);
        assert(kv_map(s) =~= kv_map(entries.drop_last()).insert(e.key@, e.value@));
        assert(kv_map(entries.drop_last()).insert(entries.last().key@, entries.last().value@)
            .insert(e.key@, e.value@) =~= kv_map(entries.drop_last()).insert(e.key@, e.value@));
    } else {
        assert(s.drop_last() =~= entries.drop_last().update(i, e));
        assert(s.last() == entries.last());
        lemma_kv_map_update(entries.drop_last(), i, e);
        assert(e.key@ != entries.last().key@);
        assert(kv_map(entries.drop_last()).insert(e.key@, e.value@).insert(
            entries.last().key@,
            entries.last().value@,
        ) =~= kv_map(entries.drop_last()).insert(entries.last().key@, entries.last().value@)
            .insert(e.key@, e.value@));
    }
}

proof fn lemma_kv_map_insert(entries: Seq<KvEntry>, i: int, e: KvEntry)
    requires
        0 <= i <= entries.len(),
        forall|j: int| 0 <= j < entries.len() ==> (#[trigger] entries[j].key@) != e.key@,
    ensures
        kv_map(entries.insert(i, e)) =~= kv_map(entries).insert(e.key@, e.value@),
    decreases entries.len(),
{
    let s = entries.insert(i, e);
    if i == entries.len() {
        assert(s.drop_last() =~= entries);
        assert(s.last() == e);
    } else {
        assert(s.drop_last() =~= entries.drop_last().insert(i, e));
        assert(s.last() == entries.last());
        lemma_kv_map_insert(entries.drop_last(), i, e);
        assert(e.key@ != entries.last().key@);
        assert(kv_map(entries.drop_last()).insert(e.key@, e.value@).insert(
            entries.last().key@,
            entries.last().value@,
        ) =~= kv_map(entries.drop_last()).insert(entries.last().key@, entries.last().value@)
            .insert(e.key@, e.value@));
    }
}

/// Writing one valid record preserves the store invariant.
#[verifier::rlimit(50)]
proof fn lemma_wf_apply_record(m: Map<Seq<u8>, StoreValueView>, tx: StoredTransactionView)
    requires
        wf_map(m),
        tx.signature.len() > 0,
    ensures
        wf_map(spec_apply_record(m, tx)),
{
    let pk = spec_primary_key(tx.signature);
    let sk = spec_secondary_key(tx.slot, tx.signature);
    let m2 = spec_apply_record(m, tx);
    lemma_namespaces_disjoint(tx.signature, tx.slot, tx.signature);
    assert forall|k: Seq<u8>| #[trigger] m2.contains_key(k) implies wf_value(k, m2[k]) by {
        if k == sk {
            assert(m2[k] == StoreValueView::Pointer(tx.signature));
            assert(k == spec_secondary_key(tx.slot, tx.signature));
            assert(is_secondary_form(k, tx.signature));
            assert(wf_value(k, StoreValueView::Pointer(tx.signature)));
        } else if k == pk {
            assert(m2[k] == StoreValueView::Record(tx));
            assert(wf_value(k, StoreValueView::Record(tx)));
        } else {
            assert(m.contains_key(k) && m2[k] == m[k]);
            assert(wf_value(k, m[k]));
        }
    }
    assert forall|k: Seq<u8>| #[trigger] m2.contains_key(k) implies match m2[k] {
        StoreValueView::Record(t) => m2.contains_key(spec_secondary_key(t.slot, t.signature))
            && m2[spec_secondary_key(t.slot, t.signature)] == StoreValueView::Pointer(t.signature),
        StoreValueView::Pointer(_) => true,
    } by {
        if k == sk {
        } else if k == pk {
            assert(m2[k] == StoreValueView::Record(tx));
        } else {
            assert(m.contains_key(k) && m2[k] == m[k]);
            match m[k] {
                StoreValueView::Record(t) => {
                    let skt = spec_secondary_key(t.slot, t.signature);
                    assert(m.contains_key(skt) && m[skt] == StoreValueView::Pointer(t.signature));
                    lemma_namespaces_disjoint(tx.signature, t.slot, t.signature);
                    if skt == sk {
                        lemma_secondary_key_injective(t.slot, t.signature, tx.slot, tx.signature);
                        assert(m2[skt] == StoreValueView::Pointer(t.signature));
                    } else {
                        assert(m2[skt] == m[skt]);
                    }
                },
                StoreValueView::Pointer(_) => {},
            }
        }
    }
}

/// Appending one record to a batch is one more write after the batch.
pub proof fn lemma_apply_batch_push(
    m: Map<Seq<u8>, StoreValueView>,
    txs: Seq<StoredTransactionView>,
    tx: StoredTransactionView,
)
    ensures
        spec_apply_batch(m, txs.push(tx)) == spec_apply_record(spec_apply_batch(m, txs), tx),
    decreases txs.len(),
{
    let s = txs.push(tx);
    if txs.len() == 0 {
        assert(s[0] == tx);
        assert(s.drop_first() =~= Seq::<StoredTransactionView>::empty());
        assert(spec_apply_batch(m, s) == spec_apply_batch(spec_apply_record(m, tx), s.drop_first()));
        assert(spec_apply_batch(spec_apply_record(m, tx), s.drop_first()) == spec_apply_record(
            m,
            tx,
        ));
        assert(spec_apply_batch(m, txs) == m);
    } else {
        assert(s[0] == txs[0]);
        assert(s.drop_first() =~= txs.drop_first().push(tx));
        lemma_apply_batch_push(spec_apply_record(m, txs[0]), txs.drop_first(), tx);
        assert(spec_apply_batch(m, s) == spec_apply_batch(
            spec_apply_record(m, txs[0]),
            s.drop_first(),
        ));
        assert(spec_apply_batch(m, txs) == spec_apply_batch(
            spec_apply_record(m, txs[0]),
            txs.drop_first(),
        ));
    }
}

/// The embedded store: an in-memory ordered byte-key/value store with atomic
/// batched writes, point lookup, height-range scans and aggregate statistics.
pub struct Storage {
    entries: Vec<KvEntry>,
}

impl View for Storage {
    type V = Map<Seq<u8>, StoreValueView>;

    closed spec fn view(&self) -> Map<Seq<u8>, StoreValueView> {
        kv_map(self.entries@)
    }
}

impl Storage {
    /// The store invariant: entries sorted strictly by key, and the map
    /// abstraction well-filed.
    pub closed spec fn wf(&self) -> bool {
        sorted_entries(self.entries@) && wf_map(kv_map(self.entries@))
    }

    /// An empty store.
    pub fn new() -> (s: Storage)
        ensures
            s.wf(),
            s@ == Map::<Seq<u8>, StoreValueView>::empty(),
    {
        let s = Storage { entries: Vec::new() };
        proof {
            assert(s@ =~= Map::<Seq<u8>, StoreValueView>::empty());
        }
        s
    }

    /// Index of the entry holding `key`, if any.
    fn find_index(&self, key: &Vec<u8>) -> (r: Option<usize>)
        ensures
            match r {
                Some(i) => i < self.entries@.len() && self.entries@[i as int].key@ == key@,
                None => forall|j: int|
                    0 <= j < self.entries@.len() ==> (#[trigger] self.entries@[j].key@) != key@,
            },
    {
        let mut i: usize = 0;
        while i < self.entries.len()
            invariant
                i <= self.entries@.len(),
                forall|j: int| 0 <= j < i ==> (#[trigger] self.entries@[j].key@) != key@,
            decreases self.entries@.len() - i,
        {
            if self.entries[i].key == *key {
                proof {
                    assert(self.entries@[i as int].key@ =~= key@);
                }
                return Some(i);
            }
            proof {
                if self.entries@[i as int].key@ == key@ {
                    assert(self.entries@[i as int].key@ =~= key@);
                    assert(false);
                }
            }
            i += 1;
        }
        None
    }

    /// Insert or overwrite one key, keeping the entries sorted.
    fn upsert(&mut self, key: Vec<u8>, value: StoreValue)
        requires
            sorted_entries(old(self).entries@),
        ensures
            sorted_entries(final(self).entries@),
            kv_map(final(self).entries@) == kv_map(old(self).entries@).insert(key@, value@),
    {
        let ghost old_entries = self.entries@;
        let mut i: usize = 0;
        while i < self.entries.len() && lex_lt_bytes(&self.entries[i].key, &key)
            invariant
                self.entries@ == old_entries,
                i <= self.entries@.len(),
                forall|j: int| 0 <= j < i ==> lex_lt(#[trigger] self.entries@[j].key@, key@),
            decreases self.entries@.len() - i,
        {
            i += 1;
        }
        if i < self.entries.len() && self.entries[i].key == *(&key) {
            proof {
                assert(self.entries@[i as int].key@ =~= key@);
                lemma_sorted_distinct(self.entries@);
            }
            let e = KvEntry { key, value };
            proof {
                lemma_kv_map_update(self.entries@, i as int, e);
            }
            self.entries.set(i, e);
            proof {
                assert forall|a: int, b: int|
                    0 <= a < b < self.entries@.len() implies lex_lt(
                    #[trigger] self.entries@[a].key@,
                    #[trigger] self.entries@[b].key@,
                ) by {
                    assert(old_entries[a].key@ == self.entries@[a].key@);
                    assert(old_entries[b].key@ == self.entries@[b].key@);
                }
            }
        } else {
            proof {
                if i < self.entries@.len() {
                    assert(!lex_lt(self.entries@[i as int].key@, key@));
                    lemma_lex_trichotomy(self.entries@[i as int].key@, key@);
                    if self.entries@[i as int].key@ == key@ {
                        assert(self.entries@[i as int].key@ =~= key@);
                        assert(false);
                    }
                    assert(lex_lt(key@, self.entries@[i as int].key@));
                }
                assert forall|j: int| 0 <= j < self.entries@.len() implies (
                #[trigger] self.entries@[j].key@) != key@ by {
                    if j < i {
                        lemma_lex_asymmetric(self.entries@[j].key@, key@);
                    } else if j == i {
                        lemma_lex_asymmetric(key@, self.entries@[i as int].key@);
                    } else {
                        lemma_lex_transitive(key@, self.entries@[i as int].key@, self.entries@[j].key@);
                        lemma_lex_asymmetric(key@, self.entries@[j].key@);
                    }
                }
            }
            let e = KvEntry { key, value };
            proof {
                lemma_kv_map_insert(self.entries@, i as int, e);
            }
            self.entries.insert(i, e);
            proof {
                assert forall|a: int, b: int|
                    0 <= a < b < self.entries@.len() implies lex_lt(
                    #[trigger] self.entries@[a].key@,
                    #[trigger] self.entries@[b].key@,
                ) by {
                    let n = i as int;
                    if b < n {
                        assert(old_entries[a].key@ == self.entries@[a].key@);
                        assert(old_entries[b].key@ == self.entries@[b].key@);
                    } else if a < n && b == n {
                        assert(old_entries[a].key@ == self.entries@[a].key@);
                    } else if a < n && b > n {
                        assert(old_entries[a].key@ == self.entries@[a].key@);
                        assert(old_entries[b - 1].key@ == self.entries@[b].key@);
                    } else if a == n {
                        assert(old_entries[b - 1].key@ == self.entries@[b].key@);
                        if b - 1 > n {
                            lemma_lex_transitive(
                                e.key@,
                                old_entries[n].key@,
                                old_entries[b - 1].key@,
                            );
                        }
                    } else {
                        assert(old_entries[a - 1].key@ == self.entries@[a].key@);
                        assert(old_entries[b - 1].key@ == self.entries@[b].key@);
                    }
                }
            }
        }
    }

    /// Write one record: its primary entry and its height-index pointer.
    fn put_one(&mut self, tx: &StoredTransaction)
        requires
            old(self).wf(),
            tx@.signature.len() > 0,
        ensures
            final(self).wf(),
            final(self)@ == spec_apply_record(old(self)@, tx@),
    {
        let pk = primary_key(sig_str(tx));
        let record = StoreValue::Record(tx.clone());
        self.upsert(pk, record);
        let sk = secondary_key(tx.slot, sig_str(tx));
        let mut sig_bytes: Vec<u8> = Vec::new();
        crate::keys::push_bytes(&mut sig_bytes, sig_str(tx).as_bytes());
        proof {
            assert(sig_bytes@ =~= tx@.signature);
        }
        self.upsert(sk, StoreValue::Pointer(sig_bytes));
        proof {
            lemma_wf_apply_record(old(self)@, tx@);
            assert(final(self)@ =~= spec_apply_record(old(self)@, tx@));
        }
    }

    /// Store a single record; equivalent to a batch of one.
    pub fn store_transaction(&mut self, tx: &StoredTransaction) -> (r: Result<(), StorageError>)
        requires
            old(self).wf(),
        ensures
            final(self).wf(),
            r is Ok <==> tx@.signature.len() > 0,
            r is Ok ==> final(self)@ == spec_apply_record(old(self)@, tx@),
            r is Err ==> *final(self) == *old(self),
    {
        if sig_str(tx).as_bytes().len() == 0 {
            return Err(StorageError::InvalidRecord);
        }
        self.put_one(tx);
        Ok(())
    }

    /// Store a batch of records in one atomic write: either the whole batch
    /// becomes visible, or — when any record is invalid — nothing does.
    pub fn store_transactions_batch(&mut self, transactions: &Vec<StoredTransaction>) -> (r:
        Result<(), StorageError>)
        requires
            old(self).wf(),
        ensures
            final(self).wf(),
            r is Ok <==> spec_batch_valid(spec_views(transactions@)),
            r is Ok ==> final(self)@ == spec_apply_batch(old(self)@, spec_views(transactions@)),
            r is Err ==> *final(self) == *old(self),
    {
        let ghost views = spec_views(transactions@);
        let mut i: usize = 0;
        while i < transactions.len()
            invariant
                *self == *old(self),
                old(self).wf(),
                i <= transactions@.len(),
                views == spec_views(transactions@),
                forall|j: int| 0 <= j < i ==> (#[trigger] views[j].signature).len() > 0,
            decreases transactions@.len() - i,
        {
            if sig_str(&transactions[i]).as_bytes().len() == 0 {
                proof {
                    assert(views[i as int].signature.len() == 0);
                }
                return Err(StorageError::InvalidRecord);
            }
            i += 1;
        }
        let mut k: usize = 0;
        while k < transactions.len()
            invariant
                k <= transactions@.len(),
                views == spec_views(transactions@),
                forall|j: int| 0 <= j < transactions@.len() ==> (#[trigger] views[j].signature).len() > 0,
                self.wf(),
                self@ == spec_apply_batch(old(self)@, views.take(k as int)),
            decreases transactions@.len() - k,
        {
            proof {
                lemma_apply_batch_push(old(self)@, views.take(k as int), views[k as int]);
                assert(views.take(k as int).push(views[k as int]) =~= views.take(k as int + 1));
            }
            self.put_one(&transactions[k]);
            k += 1;
        }
        proof {
            assert(views.take(transactions@.len() as int) =~= views);
        }
        Ok(())
    }

    /// Point lookup by identifier in the primary namespace; absence is not an
    /// error.
    pub fn get_transaction(&self, signature: &str) -> (r: Option<StoredTransaction>)
        requires
            self.wf(),
        ensures
            match r {
                Some(tx) => self@.contains_key(spec_primary_key(signature.spec_bytes()))
                    && self@[spec_primary_key(signature.spec_bytes())] == StoreValueView::Record(
                    tx@,
                ),
                None => !self@.contains_key(spec_primary_key(signature.spec_bytes())),
            },
    {
        let key = primary_key(signature);
        match self.find_index(&key) {
            Some(i) => {
                proof {
                    lemma_kv_map_at(self.entries@, i as int);
                }
                match &self.entries[i].value {
                    StoreValue::Record(tx) => Some(tx.clone()),
                    StoreValue::Pointer(_) => {
                        proof {
                            let v = self.entries@[i as int].value@;
                            assert(wf_value(key@, v));
                            assert(is_secondary_form(key@, v->Pointer_0));
                            let h = choose|h: u64|
                                key@ == #[trigger] spec_secondary_key(h, v->Pointer_0);
                            lemma_namespaces_disjoint(signature.spec_bytes(), h, v->Pointer_0);
                            assert(false);
                        }
                        None
                    },
                }
            },
            None => {
                proof {
                    lemma_kv_map_contains(self.entries@, key@);
                }
                None
            },
        }
    }
}

/// The set of primary keys of a store map: one per archived record.
pub open spec fn spec_primary_keys(m: Map<Seq<u8>, StoreValueView>) -> Set<Seq<u8>> {
    m.dom().filter(|k: Seq<u8>| m[k] is Record)
}

/// The number of archived records of a store map.
pub open spec fn spec_record_count(m: Map<Seq<u8>, StoreValueView>) -> nat {
    spec_primary_keys(m).len()
}

spec fn spec_count_records(entries: Seq<KvEntry>) -> nat
    decreases entries.len(),
{
    if entries.len() == 0 {
        0
    } else {
        spec_count_records(entries.drop_last()) + if entries.last().value@ is Record {
            1nat
        } else {
            0nat
        }
    }
}

/// Addition capped at the largest representable size.
pub open spec fn spec_sat_add(a: int, b: int) -> int {
    if a + b > u64::MAX {
        u64::MAX as int
    } else {
        a + b
    }
}

spec fn spec_value_bytes(v: StoreValueView) -> int {
    match v {
        StoreValueView::Record(tx) => tx.signature.len() as int,
        StoreValueView::Pointer(p) => p.len() as int,
    }
}

spec fn spec_db_size(entries: Seq<KvEntry>) -> int
    decreases entries.len(),
{
    if entries.len() == 0 {
        0
    } else {
        spec_sat_add(
            spec_sat_add(spec_db_size(entries.drop_last()), entries.last().key@.len() as int),
            spec_value_bytes(entries.last().value@),
        )
    }
}

fn sat_add_u64(a: u64, b: u64) -> (r: u64)
    ensures
        r as int == spec_sat_add(a as int, b as int),
{
    if a > u64::MAX - b {
        u64::MAX
    } else {
        a + b
    }
}

proof fn lemma_record_count(entries: Seq<KvEntry>)
    requires
        forall|a: int, b: int|
            0 <= a < b < entries.len() ==> (#[trigger] entries[a].key@) != (
            #[trigger] entries[b].key@),
    ensures
        spec_primary_keys(kv_map(entries)).finite(),
        spec_record_count(kv_map(entries)) == spec_count_records(entries),
    decreases entries.len(),
{
    broadcast use vstd::set::axiom_set_insert_len;

    if entries.len() == 0 {
        assert(spec_primary_keys(kv_map(entries)) =~= Set::<Seq<u8>>::empty());
    } else {
        let s = entries.drop_last();
        lemma_record_count(s);
        let m0 = kv_map(s);
        let e = entries.last();
        let m = kv_map(entries);
        lemma_kv_map_contains(s, e.key@);
        assert forall|i: int| 0 <= i < s.len() implies (#[trigger] s[i].key@) != e.key@ by {
            assert(s[i] == entries[i]);
            assert(e == entries[entries.len() - 1]);
        }
        assert(!m0.contains_key(e.key@));
        if e.value@ is Record {
            assert(spec_primary_keys(m) =~= spec_primary_keys(m0).insert(e.key@));
            assert(!spec_primary_keys(m0).contains(e.key@));
        } else {
            assert(spec_primary_keys(m) =~= spec_primary_keys(m0));
        }
    }
}

/// Writes elsewhere in the keyspace leave a key untouched.
proof fn lemma_apply_batch_frame(
    m: Map<Seq<u8>, StoreValueView>,
    txs: Seq<StoredTransactionView>,
    k: Seq<u8>,
)
    requires
        forall|j: int|
            0 <= j < txs.len() ==> spec_primary_key((#[trigger] txs[j]).signature) != k
                && spec_secondary_key(txs[j].slot, txs[j].signature) != k,
    ensures
        spec_apply_batch(m, txs).contains_key(k) <==> m.contains_key(k),
        m.contains_key(k) ==> spec_apply_batch(m, txs)[k] == m[k],
    decreases txs.len(),
{
    if txs.len() > 0 {
        assert forall|j: int| 0 <= j < txs.drop_first().len() implies spec_primary_key(
            (#[trigger] txs.drop_first()[j]).signature,
        ) != k && spec_secondary_key(
            txs.drop_first()[j].slot,
            txs.drop_first()[j].signature,
        ) != k by {
            assert(txs.drop_first()[j] == txs[j + 1]);
        }
        lemma_apply_batch_frame(spec_apply_record(m, txs[0]), txs.drop_first(), k);
    }
}

/// Round trip: after a batch write, the identifier of each written record
/// points at exactly that record — provided no later record in the batch
/// reuses the identifier — so a point lookup returns it field for field.
pub proof fn lemma_batch_round_trip(
    m: Map<Seq<u8>, StoreValueView>,
    txs: Seq<StoredTransactionView>,
    i: int,
)
    requires
        0 <= i < txs.len(),
        forall|j: int| i < j < txs.len() ==> (#[trigger] txs[j]).signature != txs[i].signature,
    ensures
        spec_apply_batch(m, txs).contains_key(spec_primary_key(txs[i].signature)),
        spec_apply_batch(m, txs)[spec_primary_key(txs[i].signature)] == StoreValueView::Record(
            txs[i],
        ),
    decreases txs.len(),
{
    let m1 = spec_apply_record(m, txs[0]);
    if i == 0 {
        let pk = spec_primary_key(txs[0].signature);
        lemma_namespaces_disjoint(txs[0].signature, txs[0].slot, txs[0].signature);
        assert(m1.contains_key(pk) && m1[pk] == StoreValueView::Record(txs[0]));
        assert forall|j: int| 0 <= j < txs.drop_first().len() implies spec_primary_key(
            (#[trigger] txs.drop_first()[j]).signature,
        ) != pk && spec_secondary_key(
            txs.drop_first()[j].slot,
            txs.drop_first()[j].signature,
        ) != pk by {
            let t = txs.drop_first()[j];
            assert(t == txs[j + 1]);
            if spec_primary_key(t.signature) == pk {
                lemma_primary_key_injective(t.signature, txs[0].signature);
            }
            lemma_namespaces_disjoint(txs[0].signature, t.slot, t.signature);
        }
        lemma_apply_batch_frame(m1, txs.drop_first(), pk);
    } else {
        assert forall|j: int| i - 1 < j < txs.drop_first().len() implies (
        #[trigger] txs.drop_first()[j]).signature != txs.drop_first()[i - 1].signature by {
            assert(txs.drop_first()[j] == txs[j + 1]);
            assert(txs.drop_first()[i - 1] == txs[i]);
        }
        lemma_batch_round_trip(m1, txs.drop_first(), i - 1);
        assert(txs.drop_first()[i - 1] == txs[i]);
    }
}

/// Idempotence: rewriting a record at its recorded height changes nothing —
/// the store map and therefore the archived-record count and every lookup
/// stay exactly as after the first write.
pub proof fn lemma_rewrite_same_record_idempotent(
    m: Map<Seq<u8>, StoreValueView>,
    tx: StoredTransactionView,
)
    ensures
        spec_apply_record(spec_apply_record(m, tx), tx) == spec_apply_record(m, tx),
        spec_record_count(spec_apply_record(spec_apply_record(m, tx), tx)) == spec_record_count(
            spec_apply_record(m, tx),
        ),
{
    assert(spec_apply_record(spec_apply_record(m, tx), tx) =~= spec_apply_record(m, tx));
}

impl Storage {
    /// The store's live-data size estimate: the keys plus the identifying
    /// fields of the values, saturating at the largest representable size.
    pub closed spec fn spec_size(&self) -> int {
        spec_db_size(self.entries@)
    }

    /// Aggregate metrics: the number of archived records (a full scan of the
    /// primary namespace) and an estimate of the live data size.
    pub fn get_stats(&self) -> (r: StorageStats)
        requires
            self.wf(),
        ensures
            r.transaction_count == spec_record_count(self@),
            r.db_size_bytes as int == self.spec_size(),
    {
        let mut count: u64 = 0;
        let mut size: u64 = 0;
        let mut i: usize = 0;
        while i < self.entries.len()
            invariant
                i <= self.entries@.len(),
                count <= i as u64,
                count as int == spec_count_records(self.entries@.take(i as int)),
                size as int == spec_db_size(self.entries@.take(i as int)),
            decreases self.entries@.len() - i,
        {
            proof {
                assert(self.entries@.take(i + 1).drop_last() =~= self.entries@.take(i as int));
                assert(self.entries@.take(i + 1).last() == self.entries@[i as int]);
            }
            match &self.entries[i].value {
                StoreValue::Record(_) => {
                    count = count + 1;
                },
                StoreValue::Pointer(_) => {},
            }
            let key_len = self.entries[i].key.len();
            let val_len = match &self.entries[i].value {
                StoreValue::Record(tx) => tx.signature.as_str().as_bytes().len(),
                StoreValue::Pointer(p) => p.len(),
            };
            size = sat_add_u64(size, key_len as u64);
            size = sat_add_u64(size, val_len as u64);
            i += 1;
        }
        proof {
            assert(self.entries@.take(self.entries@.len() as int) =~= self.entries@);
            lemma_sorted_distinct(self.entries@);
            lemma_record_count(self.entries@);
        }
        StorageStats { transaction_count: count, db_size_bytes: size }
    }

    /// Ordered scan of the height index over the inclusive height interval
    /// `[start_slot, end_slot]`: every pointer whose encoded key lies between
    /// the two zero-padded bounds is resolved through the primary namespace
    /// and the record yielded. Exactly the archived records indexed at a
    /// height in the interval come back.
    pub fn get_transactions_by_slot_range(&self, start_slot: u64, end_slot: u64) -> (r: Vec<
        StoredTransaction,
    >)
        requires
            self.wf(),
            end_slot < u64::MAX,
        ensures
            forall|idx: int|
                0 <= idx < r@.len() ==> {
                    let txv = (#[trigger] r@[idx])@;
                    &&& self@.contains_key(spec_primary_key(txv.signature))
                    &&& self@[spec_primary_key(txv.signature)] == StoreValueView::Record(txv)
                    &&& exists|h: u64|
                        start_slot <= h <= end_slot && self@.contains_key(
                            #[trigger] spec_secondary_key(h, txv.signature),
                        )
                },
            forall|h: u64, sig: Seq<u8>|
                start_slot <= h <= end_slot && self@.contains_key(
                    #[trigger] spec_secondary_key(h, sig),
                ) && self@.contains_key(#[trigger] spec_primary_key(sig)) ==> exists|idx: int|
                    0 <= idx < r@.len() && StoreValueView::Record((#[trigger] r@[idx])@) == self@[
                        spec_primary_key(sig)],
            start_slot > end_slot ==> r@.len() == 0,
    {
        let lo = crate::keys::height_bound_key(start_slot);
        let hi = crate::keys::height_bound_key(end_slot + 1);
        let ghost m = self@;
        let ghost bound = (end_slot + 1) as u64;
        let mut out: Vec<StoredTransaction> = Vec::new();
        let mut i: usize = 0;
        while i < self.entries.len()
            invariant
                self.wf(),
                m == self@,
                end_slot < u64::MAX,
                bound == end_slot + 1,
                lo@ == spec_height_bound_key(start_slot),
                hi@ == spec_height_bound_key(bound),
                i <= self.entries@.len(),
                forall|idx: int|
                    0 <= idx < out@.len() ==> {
                        let txv = (#[trigger] out@[idx])@;
                        &&& m.contains_key(spec_primary_key(txv.signature))
                        &&& m[spec_primary_key(txv.signature)] == StoreValueView::Record(txv)
                        &&& exists|h: u64|
                            start_slot <= h <= end_slot && m.contains_key(
                                #[trigger] spec_secondary_key(h, txv.signature),
                            )
                    },
                forall|h: u64, sig: Seq<u8>, j: int|
                    #![trigger spec_secondary_key(h, sig), self.entries@[j]]
                    0 <= j < i && self.entries@[j].key@ == spec_secondary_key(h, sig)
                        && start_slot <= h <= end_slot && m.contains_key(spec_primary_key(sig))
                        ==> exists|idx: int|
                        0 <= idx < out@.len() && StoreValueView::Record((#[trigger] out@[idx])@)
                            == m[spec_primary_key(sig)],
            decreases self.entries@.len() - i,
        {
            let ghost k = self.entries@[i as int].key@;
            let key_lt_lo = lex_lt_bytes(&self.entries[i].key, &lo);
            let key_lt_hi = lex_lt_bytes(&self.entries[i].key, &hi);
            if !key_lt_lo && key_lt_hi {
                proof {
                    lemma_kv_map_at(self.entries@, i as int);
                    lemma_lex_trichotomy(k, lo@);
                    assert(lex_le(lo@, k));
                    assert(lo@ =~= byheight_prefix() + (spec_pad20(start_slot) + seq![58u8]));
                    assert(hi@ =~= byheight_prefix() + (spec_pad20(bound) + seq![58u8]));
                    lemma_lex_sandwich(
                        byheight_prefix(),
                        spec_pad20(start_slot) + seq![58u8],
                        spec_pad20(bound) + seq![58u8],
                        k,
                    );
                    assert(k.take(9)[0] == k[0]);
                    assert(k[0] == 98u8);
                    assert(wf_value(k, m[k]));
                    if m[k] is Record {
                        assert(k == spec_primary_key(m[k]->Record_0.signature));
                        assert(k[0] == 114u8);
                        assert(false);
                    }
                }
                match &self.entries[i].value {
                    StoreValue::Pointer(p) => {
                        proof {
                            assert(m[k] == StoreValueView::Pointer(p@));
                            assert(is_secondary_form(k, p@));
                        }
                        let ghost hh = choose|h: u64| k == #[trigger] spec_secondary_key(h, p@);
                        proof {
                            lemma_secondary_key_range(hh, p@, start_slot, bound);
                            assert(start_slot <= hh <= end_slot);
                        }
                        let mut pkey: Vec<u8> = Vec::new();
                        pkey.push(114u8);
                        pkey.push(101u8);
                        pkey.push(99u8);
                        pkey.push(111u8);
                        pkey.push(114u8);
                        pkey.push(100u8);
                        pkey.push(58u8);
                        proof {
                            assert(pkey@ =~= record_prefix());
                        }
                        push_vec_bytes(&mut pkey, p);
                        proof {
                            assert(pkey@ == spec_primary_key(p@));
                        }
                        match self.find_index(&pkey) {
                            Some(j) => {
                                proof {
                                    lemma_kv_map_at(self.entries@, j as int);
                                    assert(wf_value(pkey@, m[pkey@]));
                                    if m[pkey@] is Pointer {
                                        assert(is_secondary_form(pkey@, m[pkey@]->Pointer_0));
                                        let h2 = choose|h: u64|
                                            pkey@ == #[trigger] spec_secondary_key(
                                                h,
                                                m[pkey@]->Pointer_0,
                                            );
                                        lemma_namespaces_disjoint(p@, h2, m[pkey@]->Pointer_0);
                                        assert(false);
                                    }
                                }
                                match &self.entries[j].value {
                                    StoreValue::Record(tx) => {
                                        proof {
                                            assert(m[pkey@] == StoreValueView::Record(tx@));
                                            assert(pkey@ == spec_primary_key(tx@.signature));
                                            lemma_primary_key_injective(tx@.signature, p@);
                                            assert(tx@.signature == p@);
                                        }
                                        let ghost pre = out@;
                                        out.push(tx.clone());
                                        proof {
                                            assert(m.contains_key(
                                                spec_secondary_key(hh, tx@.signature),
                                            ));
                                            assert(out@[out@.len() - 1]@ == tx@);
                                            assert forall|h: u64, sig: Seq<u8>, j: int|
                                                #![trigger spec_secondary_key(h, sig), self.entries@[j]]
                                                0 <= j < i + 1 && self.entries@[j].key@
                                                    == spec_secondary_key(h, sig) && start_slot
                                                    <= h <= end_slot && m.contains_key(
                                                    spec_primary_key(sig),
                                                ) implies exists|idx: int|
                                                0 <= idx < out@.len() && StoreValueView::Record(
                                                    (#[trigger] out@[idx])@,
                                                ) == m[spec_primary_key(sig)] by {
                                                if j == i {
                                                    lemma_secondary_key_injective(h, sig, hh, p@);
                                                    assert(StoreValueView::Record(
                                                        out@[out@.len() - 1]@,
                                                    ) == m[spec_primary_key(sig)]);
                                                } else {
                                                    let idx0 = choose|idx: int|
                                                        0 <= idx < pre.len()
                                                            && StoreValueView::Record(
                                                            (#[trigger] pre[idx])@,
                                                        ) == m[spec_primary_key(sig)];
                                                    assert(out@[idx0] == pre[idx0]);
                                                }
                                            }
                                        }
                                    },
                                    StoreValue::Pointer(_) => {
                                        proof {
                                            assert(false);
                                        }
                                    },
                                }
                            },
                            None => {
                                proof {
                                    lemma_kv_map_contains(self.entries@, pkey@);
                                    assert(!m.contains_key(spec_primary_key(p@)));
                                    assert forall|h: u64, sig: Seq<u8>|
                                        self.entries@[i as int].key@ == spec_secondary_key(h, sig)
                                            implies !m.contains_key(spec_primary_key(sig)) by {
                                        lemma_secondary_key_injective(h, sig, hh, p@);
                                    }
                                }
                            },
                        }
                    },
                    StoreValue::Record(_) => {
                        proof {
                            assert(false);
                        }
                    },
                }
            } else {
                proof {
                    assert forall|h: u64, sig: Seq<u8>|
                        self.entries@[i as int].key@ == spec_secondary_key(h, sig) && start_slot
                            <= h <= end_slot implies false by {
                        lemma_secondary_key_range(h, sig, start_slot, bound);
                        assert(lex_le(lo@, k) && lex_lt(k, hi@));
                        if key_lt_lo {
                            lemma_lex_asymmetric(k, lo@);
                            assert(lo@ != k);
                        }
                    }
                }
            }
            i += 1;
        }
        proof {
            assert forall|h: u64, sig: Seq<u8>|
                start_slot <= h <= end_slot && m.contains_key(
                    #[trigger] spec_secondary_key(h, sig),
                ) && m.contains_key(#[trigger] spec_primary_key(sig)) implies exists|idx: int|
                0 <= idx < out@.len() && StoreValueView::Record((#[trigger] out@[idx])@) == m[
                    spec_primary_key(sig)] by {
                lemma_kv_map_contains(self.entries@, spec_secondary_key(h, sig));
            }
            if start_slot > end_slot && out@.len() > 0 {
                let txv = out@[0]@;
                assert(exists|h: u64|
                    start_slot <= h <= end_slot && m.contains_key(
                        #[trigger] spec_secondary_key(h, txv.signature),
                    ));
                assert(false);
            }
        }
        out
    }
}

/// Append the bytes of one vector to another.
fn push_vec_bytes(v: &mut Vec<u8>, b: &Vec<u8>)
    ensures
        final(v)@ == old(v)@ + b@,
{
    let mut i: usize = 0;
    while i < b.len()
        invariant
            i <= b@.len(),
            v@ == old(v)@ + b@.take(i as int),
        decreases b@.len() - i,
    {
        v.push(b[i]);
        proof {
            assert(old(v)@ + b@.take(i + 1) =~= (old(v)@ + b@.take(i as int)).push(b@[i as int]));
        }
        i += 1;
    }
    proof {
        assert(b@.take(b@.len() as int) =~= b@);
    }
}

/// The identifier field of a record, as a string slice.
fn sig_str(tx: &StoredTransaction) -> (r: &str)
    ensures
        r@ == tx.signature@,
        r.spec_bytes() == tx@.signature,
{
    tx.signature.as_str()
}

} // verus!

