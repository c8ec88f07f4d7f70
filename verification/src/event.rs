//! The event record and its claim ledger.

use vstd::prelude::*;

verus! {

/// The most leaves that one event lets be redeemed.
pub const MAX_ATTENDEES: usize = 1000;

/// Why an initialization or a claim was turned down.
#[derive(Clone, Copy, Debug, PartialEq, Eq, Structural)]
pub enum ErrorCode {
    /// The event identifier is already in use.
    DuplicateEvent,
    /// The leaf bytes are not the claimant's identity.
    InvalidLeaf,
    /// The leaf index is already in the ledger.
    AlreadyClaimed,
    /// The proof does not lead from the leaf to the claimed root.
    InvalidMerkleProof,
    /// The ledger is full.
    MaxAttendeesReached,
}

/// The record of one event: who made it, the tree that says who may claim,
/// the collection that claims are paid from, and the ledger of the leaves
/// that were redeemed, in the order of their claims.
#[derive(Clone, Debug, PartialEq, Eq)]
pub struct EventAccount {
    pub creator: [u8; 32],
    pub event_id: String,
    pub merkle_tree_pubkey: [u8; 32],
    pub collection_mint: [u8; 32],
    pub claimed_leaf_indices: Vec<u32>,
    pub authority: [u8; 32],
}

/// What an event record holds, as plain values.
pub struct EventRecord {
    pub creator: Seq<u8>,
    pub event_id: Seq<char>,
    pub tree_root_source: Seq<u8>,
    pub credential_collection: Seq<u8>,
    pub claimed: Seq<u32>,
    pub authority: Seq<u8>,
}

impl EventRecord {
    /// The record with `leaf_index` added at the end of its ledger.
    pub open spec fn with_claim(self, leaf_index: u32) -> EventRecord {
        EventRecord { claimed: self.claimed.push(leaf_index), ..self }
    }

    /// The ledger holds no leaf twice and no more than `MAX_ATTENDEES`.
    pub open spec fn wf(self) -> bool {
        &&& self.claimed.no_duplicates()
        &&& self.claimed.len() <= MAX_ATTENDEES
    }

    /// What is fixed when the event is made: everything but the ledger.
    pub open spec fn same_event(self, other: EventRecord) -> bool {
        &&& self.creator == other.creator
        &&& self.event_id == other.event_id
        &&& self.tree_root_source == other.tree_root_source
        &&& self.credential_collection == other.credential_collection
        &&& self.authority == other.authority
    }
}

impl View for EventAccount {
    type V = EventRecord;

    open spec fn view(&self) -> EventRecord {
        EventRecord {
            creator: self.creator@,
            event_id: self.event_id@,
            tree_root_source: self.merkle_tree_pubkey@,
            credential_collection: self.collection_mint@,
            claimed: self.claimed_leaf_indices@,
            authority: self.authority@,
        }
    }
}

/// The bytes that the stored record of an event takes: a tag of 8 bytes,
/// four identities of 32 bytes, the event identifier behind its length of 4
/// bytes, and the ledger behind its length of 4 bytes, with room for
/// `MAX_ATTENDEES` leaf indices of 4 bytes.
pub open spec fn account_space(event_id_len: nat) -> nat {
    (8 + 32 + (4 + event_id_len) + 32 + 32 + (4 + MAX_ATTENDEES * 4) + 32) as nat
}

/// What recording `leaf_index` in a ledger answers: a leaf is recorded once,
/// and a full ledger takes no more.
pub open spec fn record_outcome(claimed: Seq<u32>, leaf_index: u32) -> Result<(), ErrorCode> {
    if claimed.contains(leaf_index) {
        Err(ErrorCode::AlreadyClaimed)
    } else if claimed.len() >= MAX_ATTENDEES {
        Err(ErrorCode::MaxAttendeesReached)
    } else {
        Ok(())
    }
}

impl Default for EventAccount {
    /// The record that holds nothing yet: no identities, no identifier, an
    /// empty ledger.
    fn default() -> (record: EventAccount)
        ensures
            record@ == (EventRecord {
                creator: seq![0u8; 32],
                event_id: Seq::empty(),
                tree_root_source: seq![0u8; 32],
                credential_collection: seq![0u8; 32],
                claimed: Seq::empty(),
                authority: seq![0u8; 32],
            }),
            record.wf(),
    {
        let record = EventAccount::new(String::new(), [0u8; 32], [0u8; 32], [0u8; 32]);
        assert(record.creator@ =~= seq![0u8; 32]);
        record
    }
}

impl EventAccount {
    /// The ledger holds no leaf twice and no more than `MAX_ATTENDEES`.
    pub open spec fn wf(&self) -> bool {
        self@.wf()
    }

    /// The bytes to set aside for the stored record of an event whose
    /// identifier is `event_id_len` bytes long, where that number fits.
    pub fn space(event_id_len: usize) -> (bytes: Option<usize>)
        ensures
            match bytes {
                Some(n) => n == account_space(event_id_len as nat),
                None => account_space(event_id_len as nat) > usize::MAX,
            },
    {
        let fixed: usize = 8 + 32 + 4 + 32 + 32 + (4 + MAX_ATTENDEES * 4) + 32;
        event_id_len.checked_add(fixed)
    }

    /// A new record with an empty ledger, administered by its creator.
    pub fn new(
        event_id: String,
        merkle_tree_pubkey: [u8; 32],
        collection_mint: [u8; 32],
        creator: [u8; 32],
    ) -> (record: EventAccount)
        ensures
            record@ == (EventRecord {
                creator: creator@,
                event_id: event_id@,
                tree_root_source: merkle_tree_pubkey@,
                credential_collection: collection_mint@,
                claimed: Seq::empty(),
                authority: creator@,
            }),
            record.wf(),
    {
        EventAccount {
            creator,
            event_id,
            merkle_tree_pubkey,
            collection_mint,
            claimed_leaf_indices: Vec::new(),
            authority: creator,
        }
    }

    /// Whether `leaf_index` was redeemed.
    pub fn contains(&self, leaf_index: u32) -> (present: bool)
        ensures
            present == self@.claimed.contains(leaf_index),
    {
        let mut i: usize = 0;
        while i < self.claimed_leaf_indices.len()
            invariant
                i <= self.claimed_leaf_indices.len(),
                forall|k: int| 0 <= k < i ==> self.claimed_leaf_indices@[k] != leaf_index,
            decreases self.claimed_leaf_indices.len() - i,
        {
            if self.claimed_leaf_indices[i] == leaf_index {
                return true;
            }
            i += 1;
        }
        false
    }

    /// Records that `leaf_index` was redeemed, at the end of the ledger.
    /// A leaf that is there already, and any leaf once the ledger is full,
    /// is turned down and the record stays as it was.
    pub fn record(&mut self, leaf_index: u32) -> (result: Result<(), ErrorCode>)
        ensures
            result == record_outcome(old(self)@.claimed, leaf_index),
            result is Ok ==> final(self)@ == old(self)@.with_claim(leaf_index),
            result is Err ==> *final(self) == *old(self),
            old(self).wf() ==> final(self).wf(),
    {
        if self.contains(leaf_index) {
            return Err(ErrorCode::AlreadyClaimed);
        }
        if self.claimed_leaf_indices.len() >= MAX_ATTENDEES {
            return Err(ErrorCode::MaxAttendeesReached);
        }
        self.claimed_leaf_indices.push(leaf_index);
        Ok(())
    }
}

} // verus!
