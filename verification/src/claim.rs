//! Making an event and claiming its credential.
//!
//! A claim is decided in a fixed order: the leaf must be the claimant's own
//! identity, the leaf must not have been redeemed, the proof must lead from
//! the leaf to the claimed root, and the ledger must have room. The first
//! test that fails names the error, and a claim that is turned down leaves
//! the record as it was.

use crate::event::{ErrorCode, EventAccount, EventRecord, MAX_ATTENDEES};
use crate::merkle::{bytes_equal, merkle_proof_valid, proof_steps, verify_merkle_proof};
use vstd::prelude::*;

verus! {

/// What an initialization works on: the place where the record of the event
/// is kept, empty until the event is made, and the identity of who makes it.
#[derive(Debug)]
pub struct InitializeEvent<'a> {
    pub event_account: &'a mut Option<EventAccount>,
    pub creator: [u8; 32],
}

/// What a claim works on: the record of the event, and the identity of the
/// claimant.
#[derive(Debug)]
pub struct ClaimCToken<'a> {
    pub event_account: &'a mut EventAccount,
    pub attendee: [u8; 32],
}

/// The order to issue one credential, which an authorized claim hands to
/// whoever mints: from which collection, to whom, and for which leaf.
#[derive(Clone, Debug, PartialEq, Eq)]
pub struct MintRequest {
    pub collection_mint: [u8; 32],
    pub recipient: [u8; 32],
    pub leaf_bytes: Vec<u8>,
}

/// A mint order, as plain values.
pub struct MintOrder {
    pub credential_collection: Seq<u8>,
    pub recipient: Seq<u8>,
    pub leaf_bytes: Seq<u8>,
}

impl View for MintRequest {
    type V = MintOrder;

    open spec fn view(&self) -> MintOrder {
        MintOrder {
            credential_collection: self.collection_mint@,
            recipient: self.recipient@,
            leaf_bytes: self.leaf_bytes@,
        }
    }
}

/// One attempt to claim, as plain values.
pub struct ClaimAttempt {
    pub root: Seq<u8>,
    pub leaf_index: u32,
    pub proof: Seq<Seq<u8>>,
    pub leaf_bytes: Seq<u8>,
    pub claimant: Seq<u8>,
}

/// How a claim attempt on a record ends.
pub open spec fn claim_outcome(record: EventRecord, attempt: ClaimAttempt) -> Result<
    (),
    ErrorCode,
> {
    if attempt.leaf_bytes != attempt.claimant {
        Err(ErrorCode::InvalidLeaf)
    } else if record.claimed.contains(attempt.leaf_index) {
        Err(ErrorCode::AlreadyClaimed)
    } else if !merkle_proof_valid(
        attempt.root,
        attempt.leaf_bytes,
        attempt.leaf_index as nat,
        attempt.proof,
    ) {
        Err(ErrorCode::InvalidMerkleProof)
    } else if record.claimed.len() >= MAX_ATTENDEES {
        Err(ErrorCode::MaxAttendeesReached)
    } else {
        Ok(())
    }
}

/// The record after a claim attempt: with the leaf at the end of the ledger
/// where the claim was authorized, as before where it was not.
pub open spec fn after_claim(record: EventRecord, attempt: ClaimAttempt) -> EventRecord {
    if claim_outcome(record, attempt) is Ok {
        record.with_claim(attempt.leaf_index)
    } else {
        record
    }
}

/// The mint order that an authorized claim hands out.
pub open spec fn mint_order(record: EventRecord, attempt: ClaimAttempt) -> MintOrder {
    MintOrder {
        credential_collection: record.credential_collection,
        recipient: attempt.claimant,
        leaf_bytes: attempt.leaf_bytes,
    }
}

/// Makes the record of an event, with an empty ledger and the creator as its
/// authority, and keeps it in the place that `ctx` names. Where that place
/// holds a record already the event exists: nothing changes and the answer
/// is `DuplicateEvent`.
pub fn initialize_event(
    ctx: InitializeEvent<'_>,
    event_id: String,
    merkle_tree_pubkey: [u8; 32],
    collection_mint: [u8; 32],
) -> (result: Result<(), ErrorCode>)
    ensures
        *old(ctx.event_account) is Some ==> {
            &&& result == Err::<(), ErrorCode>(ErrorCode::DuplicateEvent)
            &&& *final(ctx.event_account) == *old(ctx.event_account)
        },
        *old(ctx.event_account) is None ==> {
            &&& result is Ok
            &&& *final(ctx.event_account) is Some
            &&& (*final(ctx.event_account))->0@ == (EventRecord {
                creator: ctx.creator@,
                event_id: event_id@,
                tree_root_source: merkle_tree_pubkey@,
                credential_collection: collection_mint@,
                claimed: Seq::empty(),
                authority: ctx.creator@,
            })
        },
{
    if ctx.event_account.is_some() {
        return Err(ErrorCode::DuplicateEvent);
    }
    *ctx.event_account = Some(
        EventAccount::new(event_id, merkle_tree_pubkey, collection_mint, ctx.creator),
    );
    Ok(())
}

/// Decides a claim on the event in `ctx` by its attendee, and on success
/// records the leaf and hands out the mint order.
pub fn claim_ctoken(
    ctx: ClaimCToken<'_>,
    root: [u8; 32],
    leaf_index: u32,
    proof: Vec<[u8; 32]>,
    leaf_bytes: Vec<u8>,
) -> (result: Result<MintRequest, ErrorCode>)
    ensures
        ({
            let record = old(ctx.event_account)@;
            let attempt = ClaimAttempt {
                root: root@,
                leaf_index,
                proof: proof_steps(proof@),
                leaf_bytes: leaf_bytes@,
                claimant: ctx.attendee@,
            };
            &&& match result {
                Ok(mint) => claim_outcome(record, attempt) is Ok && mint@ == mint_order(
                    record,
                    attempt,
                ),
                Err(e) => claim_outcome(record, attempt) == Err::<(), ErrorCode>(e),
            }
            &&& final(ctx.event_account)@ == after_claim(record, attempt)
        }),
        leaf_bytes@ != ctx.attendee@ ==> result == Err::<MintRequest, ErrorCode>(
            ErrorCode::InvalidLeaf,
        ),
        result is Err ==> *final(ctx.event_account) == *old(ctx.event_account),
        old(ctx.event_account).wf() ==> final(ctx.event_account).wf(),
{
    if !bytes_equal(leaf_bytes.as_slice(), &ctx.attendee) {
        return Err(ErrorCode::InvalidLeaf);
    }
    if ctx.event_account.contains(leaf_index) {
        return Err(ErrorCode::AlreadyClaimed);
    }
    if !verify_merkle_proof(&root, leaf_bytes.as_slice(), leaf_index, proof.as_slice()) {
        return Err(ErrorCode::InvalidMerkleProof);
    }
    match ctx.event_account.record(leaf_index) {
        Ok(()) => Ok(
            MintRequest {
                collection_mint: ctx.event_account.collection_mint,
                recipient: ctx.attendee,
                leaf_bytes,
            },
        ),
        Err(e) => Err(e),
    }
}

/// The record after a run of claim attempts, made one after the other.
pub open spec fn after_claims(record: EventRecord, attempts: Seq<ClaimAttempt>) -> EventRecord
    decreases attempts.len(),
{
    if attempts.len() == 0 {
        record
    } else {
        after_claim(after_claims(record, attempts.drop_last()), attempts.last())
    }
}

/// Whether every attempt of a run is authorized.
pub open spec fn all_authorized(record: EventRecord, attempts: Seq<ClaimAttempt>) -> bool
    decreases attempts.len(),
{
    attempts.len() == 0 || {
        &&& all_authorized(record, attempts.drop_last())
        &&& claim_outcome(after_claims(record, attempts.drop_last()), attempts.last()) is Ok
    }
}

/// The leaves that a run of attempts asks for, in order.
pub open spec fn claimed_leaves(attempts: Seq<ClaimAttempt>) -> Seq<u32> {
    attempts.map_values(|attempt: ClaimAttempt| attempt.leaf_index)
}

/// A leaf is redeemed once: after an authorized claim, a second claim for
/// the same leaf by someone who shows their own identity is turned down as
/// already claimed, whatever root and proof come with it, and the two claims
/// together have made the ledger longer by that one leaf.
pub proof fn lemma_second_claim_rejected(
    record: EventRecord,
    first: ClaimAttempt,
    second: ClaimAttempt,
)
    requires
        claim_outcome(record, first) is Ok,
        second.leaf_index == first.leaf_index,
        second.leaf_bytes == second.claimant,
    ensures
        claim_outcome(after_claim(record, first), second) == Err::<(), ErrorCode>(
            ErrorCode::AlreadyClaimed,
        ),
        after_claim(after_claim(record, first), second).claimed == record.claimed.push(
            first.leaf_index,
        ),
        after_claim(after_claim(record, first), second).claimed.len() == record.claimed.len() + 1,
{
    let once = record.claimed.push(first.leaf_index);
    assert(once[record.claimed.len() as int] == first.leaf_index);
}

/// A claim whose leaf bytes are not the claimant's identity is turned down
/// as an invalid leaf, whatever the record, the root and the proof, and the
/// record stays as it was.
pub proof fn lemma_foreign_leaf_rejected(record: EventRecord, attempt: ClaimAttempt)
    requires
        attempt.leaf_bytes != attempt.claimant,
    ensures
        claim_outcome(record, attempt) == Err::<(), ErrorCode>(ErrorCode::InvalidLeaf),
        after_claim(record, attempt) == record,
{
}

/// A claim, authorized or not, keeps the ledger in order, changes nothing of
/// the event but the ledger, and takes nothing out of the ledger.
pub proof fn lemma_claim_keeps_record(record: EventRecord, attempt: ClaimAttempt)
    requires
        record.wf(),
    ensures
        after_claim(record, attempt).wf(),
        after_claim(record, attempt).same_event(record),
        record.claimed.is_prefix_of(after_claim(record, attempt).claimed),
{
}

/// Every run of claims keeps the ledger in order: no leaf is ever in it
/// twice and it never holds more than `MAX_ATTENDEES`; what was fixed when
/// the event was made stays fixed; and what was redeemed stays redeemed.
pub proof fn lemma_claims_keep_record(record: EventRecord, attempts: Seq<ClaimAttempt>)
    requires
        record.wf(),
    ensures
        after_claims(record, attempts).wf(),
        after_claims(record, attempts).same_event(record),
        record.claimed.is_prefix_of(after_claims(record, attempts).claimed),
    decreases attempts.len(),
{
    if attempts.len() > 0 {
        lemma_claims_keep_record(record, attempts.drop_last());
        lemma_claim_keeps_record(after_claims(record, attempts.drop_last()), attempts.last());
    }
}

/// A run of authorized claims puts its leaves at the end of the ledger, one
/// for each claim and in the order of the claims.
pub proof fn lemma_authorized_claims_fill_ledger(record: EventRecord, attempts: Seq<ClaimAttempt>)
    requires
        all_authorized(record, attempts),
    ensures
        after_claims(record, attempts).claimed == record.claimed + claimed_leaves(attempts),
        after_claims(record, attempts).claimed.len() == record.claimed.len() + attempts.len(),
    decreases attempts.len(),
{
    if attempts.len() > 0 {
        lemma_authorized_claims_fill_ledger(record, attempts.drop_last());
    }
}

/// The ledger is bounded: once `MAX_ATTENDEES` claims on a new event were
/// authorized, the next claim that passes every other test is turned down
/// because the event is full, and the record stays as it was.
pub proof fn lemma_capacity_bound(
    record: EventRecord,
    attempts: Seq<ClaimAttempt>,
    next: ClaimAttempt,
)
    requires
        record.claimed.len() == 0,
        attempts.len() == MAX_ATTENDEES,
        all_authorized(record, attempts),
        next.leaf_bytes == next.claimant,
        !after_claims(record, attempts).claimed.contains(next.leaf_index),
        merkle_proof_valid(next.root, next.leaf_bytes, next.leaf_index as nat, next.proof),
    ensures
        claim_outcome(after_claims(record, attempts), next) == Err::<(), ErrorCode>(
            ErrorCode::MaxAttendeesReached,
        ),
        after_claim(after_claims(record, attempts), next) == after_claims(record, attempts),
{
    lemma_authorized_claims_fill_ledger(record, attempts);
}

} // verus!
