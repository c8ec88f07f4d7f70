//! The events that exist, each under its own identifier.
//!
//! A record is reached through the handle that its initialization gave out:
//! its place in the registry, which never changes. A claim works on the one
//! record it names and leaves every other record as it was.

use crate::claim::{
    after_claim, claim_ctoken, claim_outcome, initialize_event, mint_order, ClaimAttempt,
    ClaimCToken, InitializeEvent, MintRequest,
};
use crate::event::{ErrorCode, EventAccount, EventRecord};
use crate::merkle::proof_steps;
use vstd::prelude::*;

verus! {

/// The records of all events, in the order in which the events were made.
#[derive(Clone, Debug, PartialEq, Eq)]
pub struct EventRegistry {
    pub events: Vec<EventAccount>,
}

impl View for EventRegistry {
    type V = Seq<EventRecord>;

    open spec fn view(&self) -> Seq<EventRecord> {
        self.events@.map_values(|event: EventAccount| event@)
    }
}

/// Whether one of the records is that of the event `event_id`.
pub open spec fn has_event(records: Seq<EventRecord>, event_id: Seq<char>) -> bool {
    exists|i: int| 0 <= i < records.len() && #[trigger] records[i].event_id == event_id
}

/// No two records share an event identifier, and every ledger is in order.
pub open spec fn registry_wf(records: Seq<EventRecord>) -> bool {
    &&& forall|i: int, j: int|
        0 <= i < j < records.len() ==> #[trigger] records[i].event_id != #[trigger] records[j].event_id
    &&& forall|i: int| 0 <= i < records.len() ==> (#[trigger] records[i]).wf()
}

/// The records after a claim attempt on the event with the handle `event`:
/// that record is as the claim leaves it, and every other record is as it
/// was.
pub open spec fn registry_after_claim(
    records: Seq<EventRecord>,
    event: int,
    attempt: ClaimAttempt,
) -> Seq<EventRecord> {
    records.update(event, after_claim(records[event], attempt))
}

impl EventRegistry {
    /// No two records share an event identifier, and every ledger is in
    /// order.
    pub open spec fn wf(&self) -> bool {
        registry_wf(self@)
    }

    /// A registry without events.
    pub fn new() -> (registry: EventRegistry)
        ensures
            registry@ == Seq::<EventRecord>::empty(),
            registry.wf(),
    {
        EventRegistry { events: Vec::new() }
    }

    /// The handle of the first record of the event `event_id`, if there is
    /// one.
    pub fn find(&self, event_id: &String) -> (handle: Option<usize>)
        ensures
            match handle {
                Some(at) => {
                    &&& at < self@.len()
                    &&& self@[at as int].event_id == event_id@
                    &&& forall|k: int| 0 <= k < at ==> (#[trigger] self@[k]).event_id != event_id@
                },
                None => !has_event(self@, event_id@),
            },
    {
        let mut i: usize = 0;
        while i < self.events.len()
            invariant
                i <= self.events.len(),
                self@.len() == self.events.len(),
                forall|k: int| 0 <= k < i ==> (#[trigger] self@[k]).event_id != event_id@,
            decreases self.events.len() - i,
        {
            if self.events[i].event_id == *event_id {
                return Some(i);
            }
            i += 1;
        }
        None
    }

    /// Makes the event `event_id` and gives out its handle. Where an event
    /// of that identifier exists, nothing changes and the answer is
    /// `DuplicateEvent`.
    pub fn initialize_event(
        &mut self,
        event_id: String,
        merkle_tree_pubkey: [u8; 32],
        collection_mint: [u8; 32],
        creator: [u8; 32],
    ) -> (result: Result<usize, ErrorCode>)
        ensures
            has_event(old(self)@, event_id@) ==> result == Err::<usize, ErrorCode>(
                ErrorCode::DuplicateEvent,
            ) && *final(self) == *old(self),
            !has_event(old(self)@, event_id@) ==> {
                &&& result == Ok::<usize, ErrorCode>(old(self)@.len() as usize)
                &&& final(self)@ == old(self)@.push(
                    EventRecord {
                        creator: creator@,
                        event_id: event_id@,
                        tree_root_source: merkle_tree_pubkey@,
                        credential_collection: collection_mint@,
                        claimed: Seq::empty(),
                        authority: creator@,
                    },
                )
                &&& forall|k: int|
                    0 <= k < old(self).events.len() ==> final(self).events[k] == old(
                        self,
                    ).events[k]
            },
            old(self).wf() ==> final(self).wf(),
    {
        if self.find(&event_id).is_some() {
            return Err(ErrorCode::DuplicateEvent);
        }
        let mut slot: Option<EventAccount> = None;
        match initialize_event(
            InitializeEvent { event_account: &mut slot, creator },
            event_id,
            merkle_tree_pubkey,
            collection_mint,
        ) {
            Ok(()) => {
                let record = slot.unwrap();
                let handle = self.events.len();
                self.events.push(record);
                assert(self@ =~= old(self)@.push(record@));
                Ok(handle)
            },
            Err(e) => Err(e),
        }
    }

    /// Decides a claim by `attendee` on the event with the handle `event`,
    /// as `claim_ctoken` does on that record alone.
    pub fn claim_ctoken(
        &mut self,
        event: usize,
        root: [u8; 32],
        leaf_index: u32,
        proof: Vec<[u8; 32]>,
        leaf_bytes: Vec<u8>,
        attendee: [u8; 32],
    ) -> (result: Result<MintRequest, ErrorCode>)
        requires
            event < old(self)@.len(),
        ensures
            ({
                let record = old(self)@[event as int];
                let attempt = ClaimAttempt {
                    root: root@,
                    leaf_index,
                    proof: proof_steps(proof@),
                    leaf_bytes: leaf_bytes@,
                    claimant: attendee@,
                };
                &&& match result {
                    Ok(mint) => claim_outcome(record, attempt) is Ok && mint@ == mint_order(
                        record,
                        attempt,
                    ),
                    Err(e) => claim_outcome(record, attempt) == Err::<(), ErrorCode>(e),
                }
                &&& final(self)@ == registry_after_claim(old(self)@, event as int, attempt)
            }),
            final(self).events.len() == old(self).events.len(),
            forall|k: int|
                0 <= k < old(self).events.len() && k != event ==> final(self).events[k] == old(
                    self,
                ).events[k],
            result is Err ==> final(self).events@ == old(self).events@,
            old(self).wf() ==> final(self).wf(),
    {
        let result = claim_ctoken(
            ClaimCToken { event_account: &mut self.events[event], attendee },
            root,
            leaf_index,
            proof,
            leaf_bytes,
        );
        assert(self@ =~= old(self)@.update(event as int, self.events[event as int]@));
        result
    }
}

/// Events do not touch each other: a claim in one event leaves the record
/// of every other event as it was, so that whether a leaf counts as redeemed
/// there, and how a claim there ends, is the same before and after; and two
/// claims in different events lead to the same records in either order.
pub proof fn lemma_cross_event_isolation(
    records: Seq<EventRecord>,
    a: int,
    in_a: ClaimAttempt,
    b: int,
    in_b: ClaimAttempt,
)
    requires
        0 <= a < records.len(),
        0 <= b < records.len(),
        a != b,
    ensures
        registry_after_claim(records, a, in_a)[b] == records[b],
        registry_after_claim(records, a, in_a)[b].claimed.contains(in_b.leaf_index)
            == records[b].claimed.contains(in_b.leaf_index),
        claim_outcome(registry_after_claim(records, a, in_a)[b], in_b) == claim_outcome(
            records[b],
            in_b,
        ),
        registry_after_claim(registry_after_claim(records, a, in_a), b, in_b)
            == registry_after_claim(registry_after_claim(records, b, in_b), a, in_a),
{
}

/// A claim keeps the registry in order: event identifiers stay distinct and
/// every ledger stays in order.
pub proof fn lemma_claim_keeps_registry(
    records: Seq<EventRecord>,
    event: int,
    attempt: ClaimAttempt,
)
    requires
        registry_wf(records),
        0 <= event < records.len(),
    ensures
        registry_wf(registry_after_claim(records, event, attempt)),
{
}

} // verus!
