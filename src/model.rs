//! The abstract bridge state and the meaning of every operation on it.
use vstd::prelude::*;
use crate::types::{
    BridgeConfig, BridgeError, CertifiedHeader, DeliveredMessages, DeliveryProof, FinalityProof,
    HeadsProof, LaneState, MessagesProof, ParachainHead, RelayHeader, RewardsAccountOwner,
    RewardsAccountParams, Step, UnrewardedRelayersState, empty_lane, lane_wf,
};
use crate::weights::{reaches_quorum, valid_authority_set};

verus! {

/// Everything the bridge remembers.
pub struct BridgeModel {
    pub config: BridgeConfig,
    pub best: CertifiedHeader,
    pub set_id: u64,
    pub authorities: Seq<u64>,
    /// Certified relay headers, by hash.
    pub certified: Map<u64, CertifiedHeader>,
    /// Best known head of each parachain, by para id.
    pub heads: Map<u32, ParachainHead>,
    pub lanes: Map<u32, LaneState>,
    /// Balances of accounts owned by this chain, by `reward_key`.
    pub rewards_this: Map<u128, u64>,
    /// Balances of accounts owned by the bridged chain, by `reward_key`.
    pub rewards_bridged: Map<u128, u64>,
}

pub open spec fn model_wf(m: BridgeModel) -> bool {
    &&& valid_authority_set(m.authorities)
    &&& m.certified.contains_key(m.best.hash)
    &&& m.certified[m.best.hash] == m.best
    &&& forall|l: u32| #[trigger] m.lanes.contains_key(l) ==> lane_wf(m.lanes[l])
}

/// Packs a relayer and a (lane, chain) pair into one key; injective.
pub open spec fn reward_key(relayer: u64, lane: u32, chain_id: u32) -> u128 {
    (relayer as int * 0x1_0000_0000_0000_0000 + lane as int * 0x1_0000_0000 + chain_id as int) as u128
}

pub open spec fn balance_in(b: Map<u128, u64>, k: u128) -> u64 {
    if b.contains_key(k) {
        b[k]
    } else {
        0
    }
}

/// Adds `amount` to the balance at `k`, saturating at `u64::MAX`.
pub open spec fn credit(b: Map<u128, u64>, k: u128, amount: int) -> Map<u128, u64> {
    let sum = balance_in(b, k) + amount;
    b.insert(k, if sum > u64::MAX { u64::MAX } else { sum as u64 })
}

/// Balance of `relayer` in the account `params`.
pub open spec fn reward_balance(m: BridgeModel, relayer: u64, params: RewardsAccountParams) -> u64 {
    let k = reward_key(relayer, params.lane, params.chain_id);
    match params.owner {
        RewardsAccountOwner::ThisChain => balance_in(m.rewards_this, k),
        RewardsAccountOwner::BridgedChain => balance_in(m.rewards_bridged, k),
    }
}

pub open spec fn certified_from(h: RelayHeader) -> CertifiedHeader {
    CertifiedHeader { number: h.number, hash: h.hash, state_root: h.state_root }
}

/// Result of `submit_finality_proof`.
pub open spec fn finality_result(m: BridgeModel, h: RelayHeader, p: FinalityProof) -> Result<
    BridgeModel,
    BridgeError,
> {
    if h.number <= m.best.number {
        Err(BridgeError::StaleProof)
    } else if p.set_id != m.set_id || p.target_hash != h.hash || p.target_number != h.number
        || p.signed@.len() != m.authorities.len() || !reaches_quorum(m.authorities, p.signed@) {
        Err(BridgeError::InvalidFinalityProof)
    } else {
        let c = certified_from(h);
        let m1 = BridgeModel { best: c, certified: m.certified.insert(h.hash, c), ..m };
        match h.authority_change {
            Some(ws) => if !valid_authority_set(ws@) || m.set_id == u64::MAX {
                Err(BridgeError::InvalidAuthoritySet)
            } else {
                Ok(BridgeModel { authorities: ws@, set_id: (m.set_id + 1) as u64, ..m1 })
            },
            None => Ok(m1),
        }
    }
}

/// Records each head in turn, keeping a stored head unless the new one is higher.
pub open spec fn apply_heads(hm: Map<u32, ParachainHead>, s: Seq<ParachainHead>) -> Map<u32, ParachainHead>
    decreases s.len(),
{
    if s.len() == 0 {
        hm
    } else {
        let h0 = apply_heads(hm, s.drop_last());
        let x = s.last();
        if h0.contains_key(x.para_id) && h0[x.para_id].head_number >= x.head_number {
            h0
        } else {
            h0.insert(x.para_id, x)
        }
    }
}

pub open spec fn all_proven(heads: Seq<ParachainHead>, entries: Seq<ParachainHead>) -> bool {
    forall|i: int| 0 <= i < heads.len() ==> entries.contains(#[trigger] heads[i])
}

/// Result of `submit_parachain_heads`.
pub open spec fn heads_result(
    m: BridgeModel,
    anchor_number: u64,
    anchor_hash: u64,
    heads: Seq<ParachainHead>,
    p: HeadsProof,
) -> Result<BridgeModel, BridgeError> {
    if !(m.certified.contains_key(anchor_hash) && m.certified[anchor_hash].number == anchor_number) {
        Err(BridgeError::UnknownRelayAnchor)
    } else if p.state_root != m.certified[anchor_hash].state_root || !all_proven(heads, p.entries@) {
        Err(BridgeError::InvalidHeadInclusionProof)
    } else {
        Ok(BridgeModel { heads: apply_heads(m.heads, heads), ..m })
    }
}

pub open spec fn head_certified(m: BridgeModel, para_id: u32, head_hash: u64) -> bool {
    m.heads.contains_key(para_id) && m.heads[para_id].head_hash == head_hash
}

pub open spec fn lane_of(m: BridgeModel, lane: u32) -> LaneState {
    if m.lanes.contains_key(lane) {
        m.lanes[lane]
    } else {
        empty_lane()
    }
}

/// The nonces of `msgs` are exactly `after + 1, after + 2, ...`.
pub open spec fn contiguous_after(msgs: Seq<crate::types::Message>, after: u64) -> bool {
    forall|i: int| 0 <= i < msgs.len() ==> #[trigger] msgs[i].nonce == after + 1 + i
}

/// The nonces of `msgs` follow one another without gap, from the first one on.
pub open spec fn consecutive(msgs: Seq<crate::types::Message>) -> bool {
    forall|i: int| 0 <= i < msgs.len() ==> #[trigger] msgs[i].nonce == msgs[0].nonce + i
}

pub open spec fn lane_after_delivery(l: LaneState, n: int) -> LaneState {
    LaneState {
        latest_received_nonce: (l.latest_received_nonce + n) as u64,
        latest_confirmed_nonce: l.latest_confirmed_nonce,
        unrewarded: UnrewardedRelayersState {
            unrewarded_relayer_entries: (l.unrewarded.unrewarded_relayer_entries + 1) as u64,
            total_messages: (l.unrewarded.total_messages + n) as u64,
        },
    }
}

/// Result of `receive_messages_proof`.
pub open spec fn messages_result(
    m: BridgeModel,
    lane: u32,
    relayer: u64,
    p: MessagesProof,
    declared_count: u64,
) -> Result<BridgeModel, BridgeError> {
    let msgs = p.messages@;
    let l = lane_of(m, lane);
    if !head_certified(m, p.bridged_para_id, p.para_head_hash) {
        Err(BridgeError::UnknownParachainHead)
    } else if p.lane != lane || msgs.len() == 0 || declared_count != msgs.len() {
        Err(BridgeError::InvalidMessagesProof)
    } else if !consecutive(msgs) {
        Err(BridgeError::NonceSequenceViolation)
    } else if msgs.last().nonce <= l.latest_received_nonce {
        Err(BridgeError::StaleProof)
    } else if msgs[0].nonce != l.latest_received_nonce + 1 {
        Err(BridgeError::NonceSequenceViolation)
    } else {
        let k = reward_key(relayer, lane, m.config.bridged_chain_id);
        Ok(
            BridgeModel {
                lanes: m.lanes.insert(lane, lane_after_delivery(l, msgs.len() as int)),
                rewards_this: credit(
                    m.rewards_this,
                    k,
                    msgs.len() * m.config.reward_per_message,
                ),
                ..m
            },
        )
    }
}

pub open spec fn lane_after_confirmation(l: LaneState, n: u64) -> LaneState {
    let total = l.latest_received_nonce - n;
    LaneState {
        latest_received_nonce: l.latest_received_nonce,
        latest_confirmed_nonce: n,
        unrewarded: UnrewardedRelayersState {
            unrewarded_relayer_entries: if l.unrewarded.unrewarded_relayer_entries <= total {
                l.unrewarded.unrewarded_relayer_entries
            } else {
                total as u64
            },
            total_messages: total as u64,
        },
    }
}

/// Messages that the entries of `rs` account for.
pub open spec fn relayers_total(rs: Seq<DeliveredMessages>) -> int
    decreases rs.len(),
{
    if rs.len() == 0 {
        0
    } else {
        relayers_total(rs.drop_last()) + rs.last().messages
    }
}

/// The messages of a prefix of `rs` are at most those of all of `rs`.
pub proof fn lemma_relayers_total_prefix(rs: Seq<DeliveredMessages>, i: int)
    requires
        0 <= i <= rs.len(),
    ensures
        0 <= relayers_total(rs.take(i)) <= relayers_total(rs),
    decreases rs.len() - i,
{
    lemma_relayers_total_nonneg(rs.take(i));
    if i < rs.len() {
        lemma_relayers_total_prefix(rs, i + 1);
        assert(rs.take(i + 1).drop_last() =~= rs.take(i));
    } else {
        assert(rs.take(i) =~= rs);
    }
}

pub proof fn lemma_relayers_total_nonneg(rs: Seq<DeliveredMessages>)
    ensures
        relayers_total(rs) >= 0,
    decreases rs.len(),
{
    if rs.len() > 0 {
        lemma_relayers_total_nonneg(rs.drop_last());
    }
}

/// Credits each relayer of `rs`, in order, for the messages it delivered.
pub open spec fn credit_relayers(
    b: Map<u128, u64>,
    lane: u32,
    chain_id: u32,
    rs: Seq<DeliveredMessages>,
    per_message: u64,
) -> Map<u128, u64>
    decreases rs.len(),
{
    if rs.len() == 0 {
        b
    } else {
        let x = rs.last();
        credit(
            credit_relayers(b, lane, chain_id, rs.drop_last(), per_message),
            reward_key(x.relayer, lane, chain_id),
            x.messages * per_message,
        )
    }
}

/// Result of `receive_messages_delivery_proof`.
pub open spec fn confirmation_result(
    m: BridgeModel,
    lane: u32,
    p: DeliveryProof,
    declared: UnrewardedRelayersState,
) -> Result<BridgeModel, BridgeError> {
    let l = lane_of(m, lane);
    let n = p.last_delivered_nonce;
    if !head_certified(m, p.bridged_para_id, p.para_head_hash) {
        Err(BridgeError::UnknownParachainHead)
    } else if p.lane != lane {
        Err(BridgeError::InvalidMessagesProof)
    } else if n <= l.latest_confirmed_nonce {
        Err(BridgeError::StaleProof)
    } else if n > l.latest_received_nonce {
        Err(BridgeError::NonceSequenceViolation)
    } else if declared != l.unrewarded {
        Err(BridgeError::InvalidUnrewardedRelayersState)
    } else if relayers_total(p.relayers@) != n - l.latest_confirmed_nonce {
        Err(BridgeError::InvalidMessagesProof)
    } else {
        Ok(
            BridgeModel {
                lanes: m.lanes.insert(lane, lane_after_confirmation(l, n)),
                rewards_bridged: credit_relayers(
                    m.rewards_bridged,
                    lane,
                    m.config.bridged_chain_id,
                    p.relayers@,
                    m.config.reward_per_message,
                ),
                ..m
            },
        )
    }
}

/// Result of `register_reward`.
pub open spec fn reward_result(
    m: BridgeModel,
    relayer: u64,
    params: RewardsAccountParams,
    amount: u64,
) -> BridgeModel {
    let k = reward_key(relayer, params.lane, params.chain_id);
    match params.owner {
        RewardsAccountOwner::ThisChain => BridgeModel {
            rewards_this: credit(m.rewards_this, k, amount as int),
            ..m
        },
        RewardsAccountOwner::BridgedChain => BridgeModel {
            rewards_bridged: credit(m.rewards_bridged, k, amount as int),
            ..m
        },
    }
}

/// Result of one batch step.
pub open spec fn step_result(m: BridgeModel, s: Step) -> Result<BridgeModel, BridgeError> {
    match s {
        Step::Finality { header, proof } => finality_result(m, header, proof),
        Step::ParachainHeads { anchor_number, anchor_hash, heads, proof } => heads_result(
            m,
            anchor_number,
            anchor_hash,
            heads@,
            proof,
        ),
        Step::Messages { lane, relayer, proof, declared_count, declared_weight } => messages_result(
            m,
            lane,
            relayer,
            proof,
            declared_count,
        ),
        Step::Confirmation { lane, proof, declared } => confirmation_result(m, lane, proof, declared),
    }
}

/// Result of a batch: every step applied in order, or the first failing step.
pub open spec fn batch_result(m: BridgeModel, steps: Seq<Step>) -> Result<BridgeModel, (int, BridgeError)>
    decreases steps.len(),
{
    if steps.len() == 0 {
        Ok(m)
    } else {
        match batch_result(m, steps.drop_last()) {
            Err(e) => Err(e),
            Ok(m1) => match step_result(m1, steps.last()) {
                Ok(m2) => Ok(m2),
                Err(e) => Err((steps.len() - 1, e)),
            },
        }
    }
}

} // verus!
