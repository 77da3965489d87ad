//! Plain data carried through the bridge pipeline.
use vstd::prelude::*;

verus! {

/// A relay-chain header that has been certified by a finality proof.
/// Only its number, hash and state root are retained.
#[derive(Clone, Copy, Debug, PartialEq, Eq, Structural)]
pub struct CertifiedHeader {
    pub number: u64,
    pub hash: u64,
    pub state_root: u64,
}

/// A relay-chain header submitted for finalization.
///
/// `authority_change` carries the weights of the successor authority set when the
/// header signals a change of authorities.
#[derive(Clone, Debug)]
pub struct RelayHeader {
    pub number: u64,
    pub hash: u64,
    pub parent_hash: u64,
    pub state_root: u64,
    pub authority_change: Option<Vec<u64>>,
}

/// A finality proof over a target header.
///
/// `signed[i]` tells whether authority `i` of the set `set_id` produced a valid
/// precommit signature for the target; signature checking happens before the
/// proof reaches the ledger, which trusts this bitmap.
#[derive(Clone, Debug)]
pub struct FinalityProof {
    pub set_id: u64,
    pub target_number: u64,
    pub target_hash: u64,
    pub signed: Vec<bool>,
}

/// The head of one parachain as recorded by the relay chain.
#[derive(Clone, Copy, Debug, PartialEq, Eq, Structural)]
pub struct ParachainHead {
    pub para_id: u32,
    pub head_hash: u64,
    pub head_number: u64,
}

/// The key/value pairs that a state-trie proof establishes under `state_root`,
/// as decoded before the proof reaches the ledger, which trusts them.
#[derive(Clone, Debug)]
pub struct HeadsProof {
    pub state_root: u64,
    pub entries: Vec<ParachainHead>,
}

/// One message of a lane: its nonce and its opaque payload.
#[derive(Clone, Debug)]
pub struct Message {
    pub nonce: u64,
    pub payload: Vec<u8>,
}

/// Proof that messages exist in the outbound lane of a bridged parachain,
/// at the parachain head `para_head_hash`. The membership paths are checked
/// before the proof reaches the ledger, which trusts the message list.
#[derive(Clone, Debug)]
pub struct MessagesProof {
    pub bridged_para_id: u32,
    pub para_head_hash: u64,
    pub lane: u32,
    pub messages: Vec<Message>,
}

/// How many messages one relayer delivered on the bridged side.
#[derive(Clone, Copy, Debug, PartialEq, Eq, Structural)]
pub struct DeliveredMessages {
    pub relayer: u64,
    pub messages: u64,
}

/// Proof, at a certified parachain head, that the bridged side received the
/// messages of `lane` up to `last_delivered_nonce`, and by which relayers.
/// The relayer entries must account for exactly the messages being confirmed.
#[derive(Clone, Debug)]
pub struct DeliveryProof {
    pub bridged_para_id: u32,
    pub para_head_hash: u64,
    pub lane: u32,
    pub last_delivered_nonce: u64,
    pub relayers: Vec<DeliveredMessages>,
}

/// Summary of the relayer entries that still await reward settlement on a lane.
#[derive(Clone, Copy, Debug, PartialEq, Eq, Structural)]
pub struct UnrewardedRelayersState {
    pub unrewarded_relayer_entries: u64,
    pub total_messages: u64,
}

/// State of one message lane.
#[derive(Clone, Copy, Debug, PartialEq, Eq, Structural)]
pub struct LaneState {
    pub latest_received_nonce: u64,
    pub latest_confirmed_nonce: u64,
    pub unrewarded: UnrewardedRelayersState,
}

/// Which side of the bridge a reward account belongs to.
#[derive(Clone, Copy, Debug, PartialEq, Eq, Structural)]
pub enum RewardsAccountOwner {
    ThisChain,
    BridgedChain,
}

/// Identity of a reward account: lane, bridged chain and owner role.
#[derive(Clone, Copy, Debug, PartialEq, Eq, Structural)]
pub struct RewardsAccountParams {
    pub lane: u32,
    pub chain_id: u32,
    pub owner: RewardsAccountOwner,
}

/// Fixed parameters of one bridge instance.
#[derive(Clone, Copy, Debug, PartialEq, Eq, Structural)]
pub struct BridgeConfig {
    pub bridged_chain_id: u32,
    pub reward_per_message: u64,
}

/// Failure kinds of the bridge operations.
#[derive(Clone, Copy, Debug, PartialEq, Eq, Structural)]
pub enum BridgeError {
    /// An older-or-equal header or nonce range was resubmitted.
    StaleProof,
    /// The finality proof does not reach quorum or does not match the header.
    InvalidFinalityProof,
    /// A proposed authority set is empty, weightless, or too heavy.
    InvalidAuthoritySet,
    /// The anchor relay block is not a certified header.
    UnknownRelayAnchor,
    /// The head-inclusion proof does not establish the submitted heads.
    InvalidHeadInclusionProof,
    /// A message proof refers to a parachain head that is not certified.
    UnknownParachainHead,
    /// A message or delivery proof does not match the call that carries it.
    InvalidMessagesProof,
    /// A gap or regression in message nonces.
    NonceSequenceViolation,
    /// The declared unrewarded-relayers state differs from the lane's own.
    InvalidUnrewardedRelayersState,
}

/// A lane that has never seen a message.
pub open spec fn empty_lane() -> LaneState {
    LaneState {
        latest_received_nonce: 0,
        latest_confirmed_nonce: 0,
        unrewarded: UnrewardedRelayersState { unrewarded_relayer_entries: 0, total_messages: 0 },
    }
}

/// The per-lane invariant.
pub open spec fn lane_wf(l: LaneState) -> bool {
    &&& l.latest_confirmed_nonce <= l.latest_received_nonce
    &&& l.unrewarded.total_messages == l.latest_received_nonce - l.latest_confirmed_nonce
    &&& l.unrewarded.unrewarded_relayer_entries <= l.unrewarded.total_messages
}

} // verus!

verus! {

/// One step of a batch submitted by a relayer.
#[derive(Clone, Debug)]
pub enum Step {
    Finality { header: RelayHeader, proof: FinalityProof },
    ParachainHeads {
        anchor_number: u64,
        anchor_hash: u64,
        heads: Vec<ParachainHead>,
        proof: HeadsProof,
    },
    Messages {
        lane: u32,
        relayer: u64,
        proof: MessagesProof,
        declared_count: u64,
        declared_weight: u64,
    },
    Confirmation { lane: u32, proof: DeliveryProof, declared: UnrewardedRelayersState },
}

/// The step of a batch that failed, and why.
#[derive(Clone, Copy, Debug, PartialEq, Eq, Structural)]
pub struct BatchError {
    pub step: usize,
    pub error: BridgeError,
}

} // verus!

verus! {

/// Why a batch could not be priced.
#[derive(Clone, Copy, Debug, PartialEq, Eq, Structural)]
pub enum FeeError {
    /// The batch would fail at this step.
    Batch(BatchError),
    /// The fee exceeds `u128::MAX`.
    Overflow,
}

} // verus!
