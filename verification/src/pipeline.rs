use vstd::prelude::*;
use core::str::FromStr;
use crate::record::{models_of, RecordModel, TransactionData};
use crate::store::InMemoryDatabase;

verus! {

// The ingestion pipeline: one fetch cycle per tracked address.  The cycle's
// decisions live here, verified; its remote calls do not.  A driver performs
// one remote call per non-terminal state, turns what came back into a
// `FetchEvent`, and hands it to `step`, which computes the next state and
// does every insert into the store.  The wall-clock deadline is the
// driver's: when it fires the driver hands in `DeadlineExceeded`.  Epoch
// resolution runs before the deadline is armed; everything from address
// validation on is under it.
/// Why a fetch cycle ended without a result.
#[derive(Debug, Clone, PartialEq)]
pub enum AggregatorError {
    /// The tracked address is not a well-formed account identifier.
    InvalidPublicKey,
    /// The signature list for the address could not be fetched.
    FetchSignaturesError(String),
    /// Epoch metadata or a block time could not be fetched.
    FetchTransactionError(String),
    /// A fetched transaction identifier is not a well-formed signature; one
    /// such identifier fails the whole batch.
    ParseSignatureError(String),
    /// The cycle overran its deadline.
    Elapsed,
}

/// The mathematical value of an `AggregatorError`.
pub enum ErrorModel {
    InvalidPublicKey,
    FetchSignaturesError(Seq<char>),
    FetchTransactionError(Seq<char>),
    ParseSignatureError(Seq<char>),
    Elapsed,
}

impl View for AggregatorError {
    type V = ErrorModel;

    open spec fn view(&self) -> ErrorModel {
        match self {
            AggregatorError::InvalidPublicKey => ErrorModel::InvalidPublicKey,
            AggregatorError::FetchSignaturesError(c) => ErrorModel::FetchSignaturesError(c@),
            AggregatorError::FetchTransactionError(c) => ErrorModel::FetchTransactionError(c@),
            AggregatorError::ParseSignatureError(c) => ErrorModel::ParseSignatureError(c@),
            AggregatorError::Elapsed => ErrorModel::Elapsed,
        }
    }
}

/// What normalization reads from one fetched transaction, as plain values:
/// the block time, whether balance metadata came along, whether the
/// transaction came in the structured JSON encoding, the account list, and
/// the per-account balances before and after.
#[derive(Debug)]
pub struct TransactionDetail {
    pub block_time: Option<i64>,
    pub has_meta: bool,
    pub json_encoded: bool,
    pub account_keys: Vec<String>,
    pub pre_balances: Vec<u64>,
    pub post_balances: Vec<u64>,
}

/// The mathematical value of a `TransactionDetail`.
pub struct DetailModel {
    pub block_time: Option<i64>,
    pub has_meta: bool,
    pub json_encoded: bool,
    pub account_keys: Seq<Seq<char>>,
    pub pre_balances: Seq<u64>,
    pub post_balances: Seq<u64>,
}

impl View for TransactionDetail {
    type V = DetailModel;

    open spec fn view(&self) -> DetailModel {
        DetailModel {
            block_time: self.block_time,
            has_meta: self.has_meta,
            json_encoded: self.json_encoded,
            account_keys: self.account_keys@.map_values(|s: String| s@),
            pre_balances: self.pre_balances@,
            post_balances: self.post_balances@,
        }
    }
}

/// What became of one fetched transaction.
#[derive(Debug)]
pub enum NormalizeOutcome {
    /// Normalized into a record to store and return.
    Accepted(TransactionData),
    /// No block time came along; the transaction is skipped.
    NoBlockTime,
    /// The block time lies before the epoch's start; dropped.
    PreEpoch,
    /// The block time lies before 1970 and fits no timestamp; dropped.
    NegativeBlockTime,
    /// No balance metadata came along; skipped.
    NoMeta,
    /// The transaction came in an encoding without an account list; skipped.
    NotJsonEncoded,
    /// Fewer than two balance slots, so no receiver balance delta; skipped.
    NoBalanceSlot,
    /// The receiver's balance decreased; rejected rather than wrapped.
    NegativeAmount,
}

/// The mathematical value of a `NormalizeOutcome`.
pub enum OutcomeModel {
    Accepted(RecordModel),
    NoBlockTime,
    PreEpoch,
    NegativeBlockTime,
    NoMeta,
    NotJsonEncoded,
    NoBalanceSlot,
    NegativeAmount,
}

impl View for NormalizeOutcome {
    type V = OutcomeModel;

    open spec fn view(&self) -> OutcomeModel {
        match self {
            NormalizeOutcome::Accepted(t) => OutcomeModel::Accepted(t@),
            NormalizeOutcome::NoBlockTime => OutcomeModel::NoBlockTime,
            NormalizeOutcome::PreEpoch => OutcomeModel::PreEpoch,
            NormalizeOutcome::NegativeBlockTime => OutcomeModel::NegativeBlockTime,
            NormalizeOutcome::NoMeta => OutcomeModel::NoMeta,
            NormalizeOutcome::NotJsonEncoded => OutcomeModel::NotJsonEncoded,
            NormalizeOutcome::NoBalanceSlot => OutcomeModel::NoBalanceSlot,
            NormalizeOutcome::NegativeAmount => OutcomeModel::NegativeAmount,
        }
    }
}

/// The sentinel account label used when a positional account is missing.
pub open spec fn unknown_label() -> Seq<char> {
    "unknown"@
}

/// The account at slot `i`, or the sentinel when the list is shorter.
pub open spec fn key_or_unknown(keys: Seq<Seq<char>>, i: int) -> Seq<char> {
    if i < keys.len() {
        keys[i]
    } else {
        unknown_label()
    }
}

/// What normalization makes of one fetched transaction, given the epoch
/// start and the transaction's signature: the first test that fails names
/// the outcome, and a transaction that passes them all becomes a record.
pub open spec fn normalize_spec(d: DetailModel, epoch_start: i64, sig: Seq<char>) -> OutcomeModel {
    match d.block_time {
        None => OutcomeModel::NoBlockTime,
        Some(bt) => if bt < epoch_start {
            OutcomeModel::PreEpoch
        } else if bt < 0 {
            OutcomeModel::NegativeBlockTime
        } else if !d.has_meta {
            OutcomeModel::NoMeta
        } else if !d.json_encoded {
            OutcomeModel::NotJsonEncoded
        } else if d.pre_balances.len() < 2 || d.post_balances.len() < 2 {
            OutcomeModel::NoBalanceSlot
        } else if d.post_balances[1] < d.pre_balances[1] {
            OutcomeModel::NegativeAmount
        } else {
            OutcomeModel::Accepted(
                RecordModel {
                    signature: sig,
                    sender: key_or_unknown(d.account_keys, 0),
                    receiver: key_or_unknown(d.account_keys, 1),
                    amount: (d.post_balances[1] - d.pre_balances[1]) as u64,
                    timestamp: bt as u64,
                },
            )
        },
    }
}

/// The account at slot `i` of `keys`, or `"unknown"`, executably.
fn key_at_or_unknown(keys: &Vec<String>, i: usize) -> (r: String)
    ensures
        r@ == key_or_unknown(keys@.map_values(|s: String| s@), i as int),
{
    if i < keys.len() {
        keys[i].clone()
    } else {
        crate::strutil::str_to_string("unknown")
    }
}

/// Normalizes one fetched transaction against the epoch-start threshold.
pub fn normalize(detail: &TransactionDetail, epoch_start: i64, signature: &str) -> (r:
    NormalizeOutcome)
    ensures
        r@ == normalize_spec(detail@, epoch_start, signature@),
{
    match detail.block_time {
        None => NormalizeOutcome::NoBlockTime,
        Some(bt) => {
            if bt < epoch_start {
                NormalizeOutcome::PreEpoch
            } else if bt < 0 {
                NormalizeOutcome::NegativeBlockTime
            } else if !detail.has_meta {
                NormalizeOutcome::NoMeta
            } else if !detail.json_encoded {
                NormalizeOutcome::NotJsonEncoded
            } else if detail.pre_balances.len() < 2 || detail.post_balances.len() < 2 {
                NormalizeOutcome::NoBalanceSlot
            } else if detail.post_balances[1] < detail.pre_balances[1] {
                NormalizeOutcome::NegativeAmount
            } else {
                NormalizeOutcome::Accepted(
                    TransactionData {
                        signature: crate::strutil::str_to_string(signature),
                        sender: key_at_or_unknown(&detail.account_keys, 0),
                        receiver: key_at_or_unknown(&detail.account_keys, 1),
                        amount: detail.post_balances[1] - detail.pre_balances[1],
                        timestamp: bt as u64,
                    },
                )
            }
        },
    }
}

/// The estimated second at which the current epoch began: the block time of
/// the current slot, less two fifths of a second for each slot since the
/// epoch's first (the ledger produces about one slot per 0.4 s), clipped at
/// the representable minimum.
pub open spec fn epoch_start_spec(slot_index: u64, current_time: i64) -> int {
    current_time - (2 * slot_index) / 5
}

/// `epoch_start_spec` clipped into an `i64`.
pub open spec fn epoch_start_clamped(slot_index: u64, current_time: i64) -> i64 {
    if epoch_start_spec(slot_index, current_time) < i64::MIN {
        i64::MIN
    } else {
        epoch_start_spec(slot_index, current_time) as i64
    }
}

/// The epoch-start estimate, executably.
pub fn epoch_start_from(slot_index: u64, current_time: i64) -> (r: i64)
    ensures
        r == epoch_start_clamped(slot_index, current_time),
{
    let q = slot_index / 5;
    let rem = slot_index % 5;
    let offset: u64 = q * 2 + (rem * 2) / 5;
    proof {
        vstd::arithmetic::div_mod::lemma_fundamental_div_mod(slot_index as int, 5);
        vstd::arithmetic::div_mod::lemma_hoist_over_denominator(
            2 * rem as int,
            2 * q as int,
            5nat,
        );
        assert(2 * rem as int + (2 * q as int) * 5 == 2 * slot_index);
        assert(offset == (2 * slot_index) / 5);
    }
    let diff: i128 = current_time as i128 - offset as i128;
    if diff < i64::MIN as i128 {
        i64::MIN
    } else {
        diff as i64
    }
}

/// Whether the ledger accepts `s` as an account identifier.
pub uninterp spec fn pubkey_wellformed(s: Seq<char>) -> bool;

/// Whether the ledger accepts `s` as a transaction signature.
pub uninterp spec fn signature_wellformed(s: Seq<char>) -> bool;

/// Relies on `solana_pubkey::Pubkey::from_str`: a deterministic base58
/// decode to 32 bytes whose outcome depends on the characters alone.
#[verifier::external_body]
fn pubkey_parses(s: &str) -> (r: bool)
    ensures
        r == pubkey_wellformed(s@),
{
    solana_pubkey::Pubkey::from_str(s).is_ok()
}

/// Relies on `solana_signature::Signature::from_str`: a deterministic
/// base58 decode to 64 bytes whose outcome depends on the characters alone.
#[verifier::external_body]
fn signature_parses(s: &str) -> (r: bool)
    ensures
        r == signature_wellformed(s@),
{
    solana_signature::Signature::from_str(s).is_ok()
}

/// Where one fetch cycle stands.  Each non-terminal state names the one
/// remote call the driver owes next.
#[derive(Debug)]
pub enum FetchState {
    /// Next: fetch epoch metadata.
    ResolvingEpoch,
    /// Next: fetch the block time of `absolute_slot`.
    ResolvingBlockTime { slot_index: u64, absolute_slot: u64 },
    /// Next: fetch the signature list for the cycle's address.
    FetchingSignatures { epoch_start: i64 },
    /// Next: fetch the detail of `pending[next]`; `collected` holds the
    /// records accepted so far, in fetch order.
    FetchingDetails {
        epoch_start: i64,
        pending: Vec<String>,
        next: usize,
        collected: Vec<TransactionData>,
    },
    /// The cycle finished; `records` is what it returned.
    Done { records: Vec<TransactionData> },
    /// The cycle failed; nothing more happens in it.
    Failed { error: AggregatorError },
}

/// The mathematical value of a `FetchState`.
pub enum StateModel {
    ResolvingEpoch,
    ResolvingBlockTime { slot_index: u64, absolute_slot: u64 },
    FetchingSignatures { epoch_start: i64 },
    FetchingDetails {
        epoch_start: i64,
        pending: Seq<Seq<char>>,
        next: int,
        collected: Seq<RecordModel>,
    },
    Done { records: Seq<RecordModel> },
    Failed { error: ErrorModel },
}

impl View for FetchState {
    type V = StateModel;

    open spec fn view(&self) -> StateModel {
        match self {
            FetchState::ResolvingEpoch => StateModel::ResolvingEpoch,
            FetchState::ResolvingBlockTime { slot_index, absolute_slot } => {
                StateModel::ResolvingBlockTime {
                    slot_index: *slot_index,
                    absolute_slot: *absolute_slot,
                }
            },
            FetchState::FetchingSignatures { epoch_start } => {
                StateModel::FetchingSignatures { epoch_start: *epoch_start }
            },
            FetchState::FetchingDetails { epoch_start, pending, next, collected } => {
                StateModel::FetchingDetails {
                    epoch_start: *epoch_start,
                    pending: pending@.map_values(|s: String| s@),
                    next: *next as int,
                    collected: models_of(collected@),
                }
            },
            FetchState::Done { records } => StateModel::Done { records: models_of(records@) },
            FetchState::Failed { error } => StateModel::Failed { error: error@ },
        }
    }
}

/// What the driver's last remote call came back with.
#[derive(Debug)]
pub enum FetchEvent {
    /// Epoch metadata arrived.
    EpochInfo { slot_index: u64, absolute_slot: u64 },
    /// Epoch metadata could not be fetched.
    EpochInfoFailed { cause: String },
    /// The block time of the epoch's reference slot arrived.
    BlockTime { unix_seconds: i64 },
    /// The block time could not be fetched.
    BlockTimeFailed { cause: String },
    /// The signature list for the address arrived.
    Signatures { signatures: Vec<String> },
    /// The signature list could not be fetched.
    SignaturesFailed { cause: String },
    /// One transaction's detail arrived, or, with `None`, its fetch failed
    /// and that one transaction is skipped.
    Detail { detail: Option<TransactionDetail> },
    /// The cycle's deadline fired.
    DeadlineExceeded,
}

/// The mathematical value of a `FetchEvent`.
pub enum EventModel {
    EpochInfo { slot_index: u64, absolute_slot: u64 },
    EpochInfoFailed { cause: Seq<char> },
    BlockTime { unix_seconds: i64 },
    BlockTimeFailed { cause: Seq<char> },
    Signatures { signatures: Seq<Seq<char>> },
    SignaturesFailed { cause: Seq<char> },
    Detail { detail: Option<DetailModel> },
    DeadlineExceeded,
}

impl View for FetchEvent {
    type V = EventModel;

    open spec fn view(&self) -> EventModel {
        match self {
            FetchEvent::EpochInfo { slot_index, absolute_slot } => {
                EventModel::EpochInfo { slot_index: *slot_index, absolute_slot: *absolute_slot }
            },
            FetchEvent::EpochInfoFailed { cause } => EventModel::EpochInfoFailed { cause: cause@ },
            FetchEvent::BlockTime { unix_seconds } => {
                EventModel::BlockTime { unix_seconds: *unix_seconds }
            },
            FetchEvent::BlockTimeFailed { cause } => EventModel::BlockTimeFailed { cause: cause@ },
            FetchEvent::Signatures { signatures } => {
                EventModel::Signatures { signatures: signatures@.map_values(|s: String| s@) }
            },
            FetchEvent::SignaturesFailed { cause } => {
                EventModel::SignaturesFailed { cause: cause@ }
            },
            FetchEvent::Detail { detail } => {
                EventModel::Detail {
                    detail: match detail {
                        Some(d) => Some(d@),
                        None => None,
                    },
                }
            },
            FetchEvent::DeadlineExceeded => EventModel::DeadlineExceeded,
        }
    }
}

/// Moves to the next pending signature: done past the last one; the whole
/// batch fails on the first identifier the ledger's signature form rejects.
pub open spec fn advance_spec(
    epoch_start: i64,
    pending: Seq<Seq<char>>,
    next: int,
    collected: Seq<RecordModel>,
) -> StateModel {
    if next >= pending.len() {
        StateModel::Done { records: collected }
    } else if !signature_wellformed(pending[next]) {
        StateModel::Failed { error: ErrorModel::ParseSignatureError(pending[next]) }
    } else {
        StateModel::FetchingDetails { epoch_start, pending, next, collected }
    }
}

/// One transition of a fetch cycle: the next state, and the entries the
/// transition appends to the store.
pub open spec fn step_spec(state: StateModel, event: EventModel, address: Seq<char>) -> (
    StateModel,
    Seq<(Seq<char>, RecordModel)>,
) {
    let none = Seq::<(Seq<char>, RecordModel)>::empty();
    match event {
        EventModel::DeadlineExceeded => match state {
            StateModel::Done { records } => (StateModel::Done { records }, none),
            StateModel::Failed { error } => (StateModel::Failed { error }, none),
            _ => (StateModel::Failed { error: ErrorModel::Elapsed }, none),
        },
        EventModel::EpochInfo { slot_index, absolute_slot } => match state {
            StateModel::ResolvingEpoch => {
                (StateModel::ResolvingBlockTime { slot_index, absolute_slot }, none)
            },
            _ => (state, none),
        },
        EventModel::EpochInfoFailed { cause } => match state {
            StateModel::ResolvingEpoch => {
                (StateModel::Failed { error: ErrorModel::FetchTransactionError(cause) }, none)
            },
            _ => (state, none),
        },
        EventModel::BlockTime { unix_seconds } => match state {
            StateModel::ResolvingBlockTime { slot_index, .. } => {
                if pubkey_wellformed(address) {
                    (
                        StateModel::FetchingSignatures {
                            epoch_start: epoch_start_clamped(slot_index, unix_seconds),
                        },
                        none,
                    )
                } else {
                    (StateModel::Failed { error: ErrorModel::InvalidPublicKey }, none)
                }
            },
            _ => (state, none),
        },
        EventModel::BlockTimeFailed { cause } => match state {
            StateModel::ResolvingBlockTime { .. } => {
                (StateModel::Failed { error: ErrorModel::FetchTransactionError(cause) }, none)
            },
            _ => (state, none),
        },
        EventModel::Signatures { signatures } => match state {
            StateModel::FetchingSignatures { epoch_start } => {
                (advance_spec(epoch_start, signatures, 0, Seq::empty()), none)
            },
            _ => (state, none),
        },
        EventModel::SignaturesFailed { cause } => match state {
            StateModel::FetchingSignatures { .. } => {
                (StateModel::Failed { error: ErrorModel::FetchSignaturesError(cause) }, none)
            },
            _ => (state, none),
        },
        EventModel::Detail { detail } => match state {
            StateModel::FetchingDetails { epoch_start, pending, next, collected } => {
                if next < pending.len() {
                    match detail {
                        Some(d) => match normalize_spec(d, epoch_start, pending[next]) {
                            OutcomeModel::Accepted(r) => {
                                (
                                    advance_spec(epoch_start, pending, next + 1, collected.push(r)),
                                    seq![(address, r)],
                                )
                            },
                            _ => (advance_spec(epoch_start, pending, next + 1, collected), none),
                        },
                        None => (advance_spec(epoch_start, pending, next + 1, collected), none),
                    }
                } else {
                    (StateModel::FetchingDetails { epoch_start, pending, next, collected }, none)
                }
            },
            _ => (state, none),
        },
    }
}

/// Law: a deadline that fires while a cycle is underway fails the cycle
/// with the timeout kind and appends nothing, so records stored earlier in
/// the cycle remain as they are.
pub proof fn lemma_deadline_is_terminal(state: StateModel, address: Seq<char>)
    requires
        !(state is Done),
        !(state is Failed),
    ensures
        step_spec(state, EventModel::DeadlineExceeded, address) == (
            StateModel::Failed { error: ErrorModel::Elapsed },
            Seq::<(Seq<char>, RecordModel)>::empty(),
        ),
{
}

/// Moves to the next pending signature, executably.
fn advance(
    epoch_start: i64,
    pending: Vec<String>,
    next: usize,
    collected: Vec<TransactionData>,
) -> (r: FetchState)
    ensures
        r@ == advance_spec(
            epoch_start,
            pending@.map_values(|s: String| s@),
            next as int,
            models_of(collected@),
        ),
{
    if next >= pending.len() {
        FetchState::Done { records: collected }
    } else if !signature_parses(pending[next].as_str()) {
        FetchState::Failed { error: AggregatorError::ParseSignatureError(pending[next].clone()) }
    } else {
        FetchState::FetchingDetails { epoch_start, pending, next, collected }
    }
}

/// Performs one transition of a fetch cycle: takes the state the cycle was
/// in and the event the driver's last remote call produced, inserts any
/// record the event yielded into the store under the cycle's address, and
/// returns the next state.  An event that does not belong to the current
/// state changes nothing.
pub fn step(
    state: FetchState,
    event: FetchEvent,
    address: &str,
    db: &mut InMemoryDatabase,
) -> (next: FetchState)
    ensures
        next@ == step_spec(state@, event@, address@).0,
        final(db)@ == old(db)@ + step_spec(state@, event@, address@).1,
        final(db).path() == old(db).path(),
{
    let ghost spec_result = step_spec(state@, event@, address@);
    let r = match event {
        FetchEvent::DeadlineExceeded => match state {
            FetchState::Done { records } => FetchState::Done { records },
            FetchState::Failed { error } => FetchState::Failed { error },
            _ => FetchState::Failed { error: AggregatorError::Elapsed },
        },
        FetchEvent::EpochInfo { slot_index, absolute_slot } => match state {
            FetchState::ResolvingEpoch => {
                FetchState::ResolvingBlockTime { slot_index, absolute_slot }
            },
            other => other,
        },
        FetchEvent::EpochInfoFailed { cause } => match state {
            FetchState::ResolvingEpoch => {
                FetchState::Failed { error: AggregatorError::FetchTransactionError(cause) }
            },
            other => other,
        },
        FetchEvent::BlockTime { unix_seconds } => match state {
            FetchState::ResolvingBlockTime { slot_index, absolute_slot: _ } => {
                if pubkey_parses(address) {
                    FetchState::FetchingSignatures {
                        epoch_start: epoch_start_from(slot_index, unix_seconds),
                    }
                } else {
                    FetchState::Failed { error: AggregatorError::InvalidPublicKey }
                }
            },
            other => other,
        },
        FetchEvent::BlockTimeFailed { cause } => match state {
            FetchState::ResolvingBlockTime { slot_index: _, absolute_slot: _ } => {
                FetchState::Failed { error: AggregatorError::FetchTransactionError(cause) }
            },
            other => other,
        },
        FetchEvent::Signatures { signatures } => match state {
            FetchState::FetchingSignatures { epoch_start } => {
                let fresh: Vec<TransactionData> = Vec::new();
                proof {
                    assert(models_of(fresh@) =~= Seq::<RecordModel>::empty());
                }
                advance(epoch_start, signatures, 0, fresh)
            },
            other => other,
        },
        FetchEvent::SignaturesFailed { cause } => match state {
            FetchState::FetchingSignatures { epoch_start: _ } => {
                FetchState::Failed { error: AggregatorError::FetchSignaturesError(cause) }
            },
            other => other,
        },
        FetchEvent::Detail { detail } => match state {
            FetchState::FetchingDetails { epoch_start, pending, next, collected } => {
                if next < pending.len() {
                    match detail {
                        Some(d) => {
                            let outcome = normalize(&d, epoch_start, pending[next].as_str());
                            match outcome {
                                NormalizeOutcome::Accepted(t) => {
                                    let mut collected = collected;
                                    let ghost prev_collected = models_of(collected@);
                                    collected.push(t.duplicate());
                                    proof {
                                        assert(models_of(collected@) =~= prev_collected.push(t@));
                                    }
                                    db.add_transaction(address, t);
                                    proof {
                                        assert(old(db)@.push(
                                            (address@, spec_result.1[0].1),
                                        ) =~= old(db)@ + spec_result.1);
                                    }
                                    advance(epoch_start, pending, next + 1, collected)
                                },
                                _ => advance(epoch_start, pending, next + 1, collected),
                            }
                        },
                        None => advance(epoch_start, pending, next + 1, collected),
                    }
                } else {
                    FetchState::FetchingDetails { epoch_start, pending, next, collected }
                }
            },
            other => other,
        },
    };
    proof {
        if db@ != old(db)@ + spec_result.1 {
            assert(db@ =~= old(db)@ + spec_result.1);
        }
    }
    r
}

} // verus!
