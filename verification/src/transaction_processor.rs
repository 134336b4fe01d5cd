//! Normalization of raw feed notifications into canonical records, and the
//! retention policy deciding which records are archived.
//!
//! The raw payload is modeled by [`EncodedConfirmedTransaction`]: the plain
//! values that normalization reads from an upstream-encoded transaction — the
//! listed signatures, the account keys in either of the two supported message
//! encodings, the operation count, and the optional fee/error metadata block.

use vstd::prelude::*;
use vstd::string::StringExecFns;

verus! {

/// One account entry of a structured-parsed message.
#[derive(Debug, PartialEq)]
pub struct ParsedAccount {
    pub pubkey: String,
}

/// The two supported sub-encodings of a transaction message.
#[derive(Debug, PartialEq)]
pub enum UiMessage {
    /// Structured-parsed form: account entries carry their key as a field.
    Parsed { account_keys: Vec<ParsedAccount>, instruction_count: usize },
    /// Raw form: account keys are listed directly.
    Raw { account_keys: Vec<String>, instruction_count: usize },
}

/// The upstream encoding of a transaction body.
#[derive(Debug, PartialEq)]
pub enum EncodedTransaction {
    /// The supported encoding: explicit signatures and a message.
    Json { signatures: Vec<String>, message: UiMessage },
    /// Any other upstream encoding; normalization rejects it.
    Unsupported,
}

/// Optional metadata block attached to a confirmed transaction.
#[derive(Debug, PartialEq)]
pub struct TransactionMeta {
    pub fee: u64,
    /// Error payload; presence means the transaction failed on-chain.
    pub err: Option<String>,
}

/// A full confirmed transaction as delivered by an upstream feed.
#[derive(Debug, PartialEq)]
pub struct EncodedConfirmedTransaction {
    pub slot: u64,
    pub block_time: Option<i64>,
    pub transaction: EncodedTransaction,
    pub meta: Option<TransactionMeta>,
}

/// Mathematical image of a message: the key and operation lists as sequences.
#[verifier::ext_equal]
pub enum UiMessageView {
    Parsed { account_keys: Seq<Seq<char>>, instruction_count: usize },
    Raw { account_keys: Seq<Seq<char>>, instruction_count: usize },
}

/// Mathematical image of a transaction body.
#[verifier::ext_equal]
pub enum EncodedTransactionView {
    Json { signatures: Seq<Seq<char>>, message: UiMessageView },
    Unsupported,
}

/// Mathematical image of a metadata block.
#[verifier::ext_equal]
pub struct TransactionMetaView {
    pub fee: u64,
    pub err: Option<Seq<char>>,
}

/// Mathematical image of a confirmed transaction.
#[verifier::ext_equal]
pub struct EncodedConfirmedTransactionView {
    pub slot: u64,
    pub block_time: Option<i64>,
    pub transaction: EncodedTransactionView,
    pub meta: Option<TransactionMetaView>,
}

impl View for UiMessage {
    type V = UiMessageView;

    open spec fn view(&self) -> UiMessageView {
        match self {
            UiMessage::Parsed { account_keys, instruction_count } => UiMessageView::Parsed {
                account_keys: account_keys@.map_values(|a: ParsedAccount| a.pubkey@),
                instruction_count: *instruction_count,
            },
            UiMessage::Raw { account_keys, instruction_count } => UiMessageView::Raw {
                account_keys: account_keys@.map_values(|s: String| s@),
                instruction_count: *instruction_count,
            },
        }
    }
}

impl View for EncodedTransaction {
    type V = EncodedTransactionView;

    open spec fn view(&self) -> EncodedTransactionView {
        match self {
            EncodedTransaction::Json { signatures, message } => EncodedTransactionView::Json {
                signatures: signatures@.map_values(|s: String| s@),
                message: message@,
            },
            EncodedTransaction::Unsupported => EncodedTransactionView::Unsupported,
        }
    }
}

impl View for TransactionMeta {
    type V = TransactionMetaView;

    open spec fn view(&self) -> TransactionMetaView {
        TransactionMetaView {
            fee: self.fee,
            err: match self.err {
                Some(e) => Some(e@),
                None => None,
            },
        }
    }
}

impl View for EncodedConfirmedTransaction {
    type V = EncodedConfirmedTransactionView;

    open spec fn view(&self) -> EncodedConfirmedTransactionView {
        EncodedConfirmedTransactionView {
            slot: self.slot,
            block_time: self.block_time,
            transaction: self.transaction@,
            meta: match self.meta {
                Some(m) => Some(m@),
                None => None,
            },
        }
    }
}

impl Clone for ParsedAccount {
    fn clone(&self) -> (r: ParsedAccount)
        ensures
            r == *self,
    {
        ParsedAccount { pubkey: self.pubkey.clone() }
    }
}

fn clone_string_vec(v: &Vec<String>) -> (r: Vec<String>)
    ensures
        r@ == v@,
{
    let mut r: Vec<String> = Vec::new();
    let mut i: usize = 0;
    while i < v.len()
        invariant
            i <= v.len(),
            r@.len() == i,
            forall|j: int| 0 <= j < i ==> r@[j] == v@[j],
        decreases v.len() - i,
    {
        r.push(v[i].clone());
        i += 1;
    }
    proof {
        assert(r@ =~= v@);
    }
    r
}

impl Clone for UiMessage {
    fn clone(&self) -> (r: UiMessage)
        ensures
            r@ == self@,
    {
        match self {
            UiMessage::Parsed { account_keys, instruction_count } => {
                let mut keys: Vec<ParsedAccount> = Vec::new();
                let mut i: usize = 0;
                while i < account_keys.len()
                    invariant
                        i <= account_keys.len(),
                        keys@.len() == i,
                        forall|j: int| 0 <= j < i ==> keys@[j] == account_keys@[j],
                    decreases account_keys.len() - i,
                {
                    keys.push(account_keys[i].clone());
                    i += 1;
                }
                let r = UiMessage::Parsed {
                    account_keys: keys,
                    instruction_count: *instruction_count,
                };
                proof {
                    assert(r@ =~= self@);
                }
                r
            },
            UiMessage::Raw { account_keys, instruction_count } => {
                let r = UiMessage::Raw {
                    account_keys: clone_string_vec(account_keys),
                    instruction_count: *instruction_count,
                };
                proof {
                    assert(r@ =~= self@);
                }
                r
            },
        }
    }
}

impl Clone for EncodedTransaction {
    fn clone(&self) -> (r: EncodedTransaction)
        ensures
            r@ == self@,
    {
        match self {
            EncodedTransaction::Json { signatures, message } => {
                let r = EncodedTransaction::Json {
                    signatures: clone_string_vec(signatures),
                    message: message.clone(),
                };
                proof {
                    assert(r@ =~= self@);
                }
                r
            },
            EncodedTransaction::Unsupported => EncodedTransaction::Unsupported,
        }
    }
}

impl Clone for TransactionMeta {
    fn clone(&self) -> (r: TransactionMeta)
        ensures
            r == *self,
    {
        TransactionMeta {
            fee: self.fee,
            err: match &self.err {
                Some(e) => Some(e.clone()),
                None => None,
            },
        }
    }
}

impl Clone for EncodedConfirmedTransaction {
    fn clone(&self) -> (r: EncodedConfirmedTransaction)
        ensures
            r@ == self@,
    {
        let r = EncodedConfirmedTransaction {
            slot: self.slot,
            block_time: self.block_time,
            transaction: self.transaction.clone(),
            meta: match &self.meta {
                Some(m) => Some(m.clone()),
                None => None,
            },
        };
        proof {
            assert(r@ =~= self@);
        }
        r
    }
}

/// Why a raw transaction could not be normalized.
#[derive(Clone, Copy, Debug, PartialEq, Eq)]
pub enum ProcessError {
    /// The transaction body uses an encoding this pipeline does not read.
    UnsupportedEncoding,
    /// The body is readable but carries no identifier.
    MalformedRecord,
}

/// The canonical record produced from one raw transaction.
#[derive(Clone, Debug, PartialEq)]
pub struct ProcessedTransaction {
    pub signature: String,
    pub slot: u64,
    pub block_time: Option<i64>,
    pub fee: u64,
    pub is_vote: bool,
    pub error: Option<String>,
    pub account_keys: Vec<String>,
    pub instruction_count: usize,
}

/// The well-known identifier of the protocol's vote program; a transaction
/// referencing it is control traffic, not user activity.
pub open spec fn vote_program_id() -> Seq<char> {
    "Vote111111111111111111111111111111111111111"@
}

/// The account keys listed by a message, in listed order.
pub open spec fn spec_account_keys(m: UiMessage) -> Seq<String> {
    match m {
        UiMessage::Parsed { account_keys, .. } => account_keys@.map_values(|a: ParsedAccount| a.pubkey),
        UiMessage::Raw { account_keys, .. } => account_keys@,
    }
}

/// The number of operations listed by a message.
pub open spec fn spec_instruction_count(m: UiMessage) -> usize {
    match m {
        UiMessage::Parsed { instruction_count, .. } => instruction_count,
        UiMessage::Raw { instruction_count, .. } => instruction_count,
    }
}

/// Whether a key list references the vote program.
pub open spec fn spec_is_vote(keys: Seq<String>) -> bool {
    exists|i: int| 0 <= i < keys.len() && keys[i]@ == vote_program_id()
}

/// The fee recorded by an optional metadata block; zero when absent.
pub open spec fn spec_fee(meta: Option<TransactionMeta>) -> u64 {
    match meta {
        Some(m) => m.fee,
        None => 0,
    }
}

/// The error payload recorded by an optional metadata block; absent when the
/// block is absent.
pub open spec fn spec_error(meta: Option<TransactionMeta>) -> Option<String> {
    match meta {
        Some(m) => m.err,
        None => None,
    }
}

/// Whether normalization accepts a raw transaction: the body must use the
/// supported encoding and list at least one signature.
pub open spec fn spec_processable(tx: EncodedConfirmedTransaction) -> bool {
    tx.transaction matches EncodedTransaction::Json { signatures, .. } && signatures@.len() > 0
}

/// Pure transformation from raw transactions to canonical records.
#[derive(Clone)]
pub struct TransactionProcessor;

impl TransactionProcessor {
    pub fn new() -> TransactionProcessor {
        TransactionProcessor
    }

    /// Normalize one raw transaction into a canonical record.
    pub fn process_encoded_transaction(
        &self,
        encoded_tx: &EncodedConfirmedTransaction,
    ) -> (r: Result<ProcessedTransaction, ProcessError>)
        ensures
            r is Ok <==> spec_processable(*encoded_tx),
            r matches Ok(p) ==> encoded_tx.transaction matches EncodedTransaction::Json {
                signatures,
                message,
            } && {
                &&& p.signature == signatures@[0]
                &&& p.slot == encoded_tx.slot
                &&& p.block_time == encoded_tx.block_time
                &&& p.fee == spec_fee(encoded_tx.meta)
                &&& p.error == spec_error(encoded_tx.meta)
                &&& p.account_keys@ =~= spec_account_keys(message)
                &&& p.is_vote == spec_is_vote(spec_account_keys(message))
                &&& p.instruction_count == spec_instruction_count(message)
            },
            r matches Err(e) ==> {
                &&& (e is UnsupportedEncoding <==> !(encoded_tx.transaction is Json))
                &&& (e is MalformedRecord <==> (encoded_tx.transaction is Json
                    && !spec_processable(*encoded_tx)))
            },
    {
        let slot = encoded_tx.slot;
        let block_time = encoded_tx.block_time;

        let (signatures, message) = match &encoded_tx.transaction {
            EncodedTransaction::Json { signatures, message } => (signatures, message),
            _ => {
                return Err(ProcessError::UnsupportedEncoding);
            },
        };
        if signatures.len() == 0 {
            return Err(ProcessError::MalformedRecord);
        }
        let primary_signature = signatures[0].clone();

        let account_keys = Self::extract_account_keys(message);
        let is_vote = Self::is_vote_transaction(&account_keys);

        let fee = match &encoded_tx.meta {
            Some(m) => m.fee,
            None => 0,
        };
        let error = match &encoded_tx.meta {
            Some(m) => match &m.err {
                Some(e) => Some(e.clone()),
                None => None,
            },
            None => None,
        };

        Ok(ProcessedTransaction {
            signature: primary_signature,
            slot,
            block_time,
            fee,
            is_vote,
            error,
            account_keys,
            instruction_count: Self::count_instructions(message),
        })
    }

    /// Collect the account keys of either message form into one list.
    fn extract_account_keys(message: &UiMessage) -> (r: Vec<String>)
        ensures
            r@ =~= spec_account_keys(*message),
    {
        match message {
            UiMessage::Parsed { account_keys, .. } => {
                let mut keys: Vec<String> = Vec::new();
                let mut i: usize = 0;
                while i < account_keys.len()
                    invariant
                        i <= account_keys.len(),
                        keys@.len() == i,
                        forall|j: int| 0 <= j < i ==> keys@[j] == account_keys@[j].pubkey,
                    decreases account_keys.len() - i,
                {
                    keys.push(account_keys[i].pubkey.clone());
                    i += 1;
                }
                keys
            },
            UiMessage::Raw { account_keys, .. } => {
                let mut keys: Vec<String> = Vec::new();
                let mut i: usize = 0;
                while i < account_keys.len()
                    invariant
                        i <= account_keys.len(),
                        keys@.len() == i,
                        forall|j: int| 0 <= j < i ==> keys@[j] == account_keys@[j],
                    decreases account_keys.len() - i,
                {
                    keys.push(account_keys[i].clone());
                    i += 1;
                }
                keys
            },
        }
    }

    /// Whether the key list marks a control (vote) transaction.
    pub fn is_vote_transaction(account_keys: &Vec<String>) -> (r: bool)
        ensures
            r == spec_is_vote(account_keys@),
    {
        let vote_key: String = String::from_str("Vote111111111111111111111111111111111111111");
        let mut i: usize = 0;
        while i < account_keys.len()
            invariant
                vote_key@ == vote_program_id(),
                i <= account_keys.len(),
                forall|j: int| 0 <= j < i ==> account_keys@[j]@ != vote_program_id(),
            decreases account_keys.len() - i,
        {
            if account_keys[i] == vote_key {
                return true;
            }
            i += 1;
        }
        false
    }

    /// The operation count of the message.
    fn count_instructions(message: &UiMessage) -> (r: usize)
        ensures
            r == spec_instruction_count(*message),
    {
        match message {
            UiMessage::Parsed { instruction_count, .. } => *instruction_count,
            UiMessage::Raw { instruction_count, .. } => *instruction_count,
        }
    }

    /// Retention policy: control traffic and failed transactions are dropped,
    /// everything else is archived.
    pub fn should_store_transaction(&self, tx: &ProcessedTransaction) -> (r: bool)
        ensures
            r == (!tx.is_vote && tx.error is None),
    {
        if tx.is_vote {
            return false;
        }
        if tx.error.is_some() {
            return false;
        }
        true
    }
}

} // verus!
