//! Claim authorization for event credentials.
//!
//! An event names a Merkle tree of participant identities. A participant
//! claims the credential of the event by showing that their identity is a
//! leaf of that tree; every leaf can be redeemed once.

pub mod claim;
pub mod event;
pub mod merkle;
pub mod registry;

pub use claim::{claim_ctoken, initialize_event, ClaimCToken, InitializeEvent, MintRequest};
pub use event::{ErrorCode, EventAccount, MAX_ATTENDEES};
pub use merkle::verify_merkle_proof;
pub use registry::EventRegistry;
