//! Properties of the bridge that hold for every input.
use vstd::prelude::*;
use crate::fee::{FeeSchedule, valid_schedule, batch_fee, payload_bytes, step_bytes, steps_fee};
use crate::model::{
    BridgeModel, balance_in, batch_result, consecutive, contiguous_after, credit,
    credit_relayers, finality_result, head_certified, lane_of, messages_result,
    model_wf, reward_balance, reward_result, step_result,
};
use crate::types::{
    BridgeError, DeliveredMessages, FinalityProof, Message, MessagesProof, RelayHeader,
    RewardsAccountParams, Step, lane_wf,
};
use crate::weights::{reaches_quorum, valid_authority_set};

verus! {

/// A finality proof that reaches quorum of the live set, for a header above the
/// best finalized one, is accepted; and every accepted proof strictly raises the
/// best finalized number, to the header's number.
pub proof fn lemma_finality_advances(m: BridgeModel, h: RelayHeader, p: FinalityProof)
    requires
        model_wf(m),
    ensures
        (h.number > m.best.number && p.set_id == m.set_id && p.target_hash == h.hash
            && p.target_number == h.number && p.signed@.len() == m.authorities.len()
            && reaches_quorum(m.authorities, p.signed@) && (h.authority_change matches Some(ws)
            ==> valid_authority_set(ws@) && m.set_id < u64::MAX)) ==> finality_result(m, h, p) is Ok,
        finality_result(m, h, p) matches Ok(m2) ==> m2.best.number > m.best.number
            && m2.best.number == h.number,
{
}

/// Messages numbered from the lane's received nonce plus one up to `b` advance the
/// received nonce to exactly `b`; submitting the same proof again is stale and
/// changes nothing.
pub proof fn lemma_delivery_then_replay(
    m: BridgeModel,
    lane: u32,
    relayer: u64,
    p: MessagesProof,
    declared_count: u64,
)
    requires
        model_wf(m),
        head_certified(m, p.bridged_para_id, p.para_head_hash),
        p.lane == lane,
        p.messages@.len() > 0,
        declared_count == p.messages@.len(),
        contiguous_after(p.messages@, lane_of(m, lane).latest_received_nonce),
    ensures
        messages_result(m, lane, relayer, p, declared_count) matches Ok(m2) && lane_of(
            m2,
            lane,
        ).latest_received_nonce == p.messages@.last().nonce && messages_result(
            m2,
            lane,
            relayer,
            p,
            declared_count,
        ) == Err::<BridgeModel, BridgeError>(BridgeError::StaleProof),
{
    let msgs = p.messages@;
    assert(msgs[msgs.len() - 1].nonce == lane_of(m, lane).latest_received_nonce + msgs.len());
}

/// Every step keeps the bridge well formed; in particular every lane keeps its
/// confirmed nonce at or below its received nonce.
pub proof fn lemma_step_keeps_wf(m: BridgeModel, s: Step)
    requires
        model_wf(m),
    ensures
        step_result(m, s) matches Ok(m2) ==> model_wf(m2) && forall|l: u32|
            #[trigger] m2.lanes.contains_key(l) ==> m2.lanes[l].latest_confirmed_nonce
                <= m2.lanes[l].latest_received_nonce,
{
    if let Ok(m2) = step_result(m, s) {
        assert forall|l: u32| #[trigger] m2.lanes.contains_key(l) implies lane_wf(m2.lanes[l]) by {
            if m.lanes.contains_key(l) {
                assert(lane_wf(m.lanes[l]));
            }
        }
    }
}

/// Registering a reward keeps the bridge well formed.
pub proof fn lemma_reward_keeps_wf(m: BridgeModel, relayer: u64, params: RewardsAccountParams, amount: u64)
    requires
        model_wf(m),
    ensures
        model_wf(reward_result(m, relayer, params, amount)),
{
}

/// A batch, whatever its steps, keeps every lane's confirmed nonce at or below its
/// received nonce.
pub proof fn lemma_batch_keeps_wf(m: BridgeModel, steps: Seq<Step>)
    requires
        model_wf(m),
    ensures
        batch_result(m, steps) matches Ok(m2) ==> model_wf(m2) && forall|l: u32|
            #[trigger] m2.lanes.contains_key(l) ==> m2.lanes[l].latest_confirmed_nonce
                <= m2.lanes[l].latest_received_nonce,
    decreases steps.len(),
{
    if steps.len() > 0 {
        lemma_batch_keeps_wf(m, steps.drop_last());
        if let Ok(m1) = batch_result(m, steps.drop_last()) {
            lemma_step_keeps_wf(m1, steps.last());
        }
    }
}

proof fn lemma_credit_monotone(b: Map<u128, u64>, k: u128, amount: int, j: u128)
    requires
        amount >= 0,
    ensures
        balance_in(credit(b, k, amount), j) >= balance_in(b, j),
{
}

proof fn lemma_credit_relayers_monotone(
    b: Map<u128, u64>,
    lane: u32,
    chain_id: u32,
    rs: Seq<DeliveredMessages>,
    per_message: u64,
    j: u128,
)
    ensures
        balance_in(credit_relayers(b, lane, chain_id, rs, per_message), j) >= balance_in(b, j),
    decreases rs.len(),
{
    if rs.len() > 0 {
        lemma_credit_relayers_monotone(b, lane, chain_id, rs.drop_last(), per_message, j);
        let x = rs.last();
        assert(x.messages * per_message >= 0) by (nonlinear_arith);
    }
}

/// No step lowers any reward balance.
pub proof fn lemma_step_rewards_monotone(m: BridgeModel, s: Step, relayer: u64, params: RewardsAccountParams)
    ensures
        step_result(m, s) matches Ok(m2) ==> reward_balance(m2, relayer, params) >= reward_balance(
            m,
            relayer,
            params,
        ),
{
    let k = crate::model::reward_key(relayer, params.lane, params.chain_id);
    match s {
        Step::Messages { lane, relayer: r, proof, declared_count, declared_weight } => {
            let n = proof.messages@.len();
            assert(n * m.config.reward_per_message >= 0) by (nonlinear_arith);
            lemma_credit_monotone(
                m.rewards_this,
                crate::model::reward_key(r, lane, m.config.bridged_chain_id),
                n * m.config.reward_per_message,
                k,
            );
        },
        Step::Confirmation { lane, proof, declared } => {
            lemma_credit_relayers_monotone(
                m.rewards_bridged,
                lane,
                m.config.bridged_chain_id,
                proof.relayers@,
                m.config.reward_per_message,
                k,
            );
        },
        _ => {},
    }
}

/// Registering a reward lowers no balance.
pub proof fn lemma_reward_monotone(
    m: BridgeModel,
    relayer: u64,
    params: RewardsAccountParams,
    amount: u64,
    who: u64,
    account: RewardsAccountParams,
)
    ensures
        reward_balance(reward_result(m, relayer, params, amount), who, account) >= reward_balance(
            m,
            who,
            account,
        ),
{
}

/// Reward balances never decrease across a batch.
pub proof fn lemma_batch_rewards_monotone(
    m: BridgeModel,
    steps: Seq<Step>,
    relayer: u64,
    params: RewardsAccountParams,
)
    ensures
        batch_result(m, steps) matches Ok(m2) ==> reward_balance(m2, relayer, params)
            >= reward_balance(m, relayer, params),
    decreases steps.len(),
{
    if steps.len() > 0 {
        lemma_batch_rewards_monotone(m, steps.drop_last(), relayer, params);
        if let Ok(m1) = batch_result(m, steps.drop_last()) {
            lemma_step_rewards_monotone(m1, steps.last(), relayer, params);
        }
    }
}

/// Messages that differ only in one payload, which is longer in `ms2`, carry more bytes.
pub proof fn lemma_longer_payload_more_bytes(ms1: Seq<Message>, ms2: Seq<Message>, j: int)
    requires
        ms1.len() == ms2.len(),
        0 <= j < ms1.len(),
        forall|k: int| 0 <= k < ms1.len() && k != j ==> #[trigger] ms1[k].payload@.len() == ms2[k].payload@.len(),
        ms1[j].payload@.len() < ms2[j].payload@.len(),
    ensures
        payload_bytes(ms1) < payload_bytes(ms2),
    decreases ms1.len(),
{
    if j < ms1.len() - 1 {
        lemma_longer_payload_more_bytes(ms1.drop_last(), ms2.drop_last(), j);
    } else {
        lemma_same_payload_bytes(ms1.drop_last(), ms2.drop_last());
    }
}

proof fn lemma_same_payload_bytes(ms1: Seq<Message>, ms2: Seq<Message>)
    requires
        ms1.len() == ms2.len(),
        forall|k: int| 0 <= k < ms1.len() ==> #[trigger] ms1[k].payload@.len() == ms2[k].payload@.len(),
    ensures
        payload_bytes(ms1) == payload_bytes(ms2),
    decreases ms1.len(),
{
    if ms1.len() > 0 {
        lemma_same_payload_bytes(ms1.drop_last(), ms2.drop_last());
    }
}

proof fn lemma_same_steps_fee(f: FeeSchedule, s1: Seq<Step>, s2: Seq<Step>)
    requires
        s1.len() == s2.len(),
        forall|k: int| 0 <= k < s1.len() ==> #[trigger] step_bytes(s1[k]) == step_bytes(s2[k]),
    ensures
        steps_fee(f, s1) == steps_fee(f, s2),
    decreases s1.len(),
{
    if s1.len() > 0 {
        lemma_same_steps_fee(f, s1.drop_last(), s2.drop_last());
    }
}

/// Under a valid schedule, a batch costs strictly more than one that
/// differs from it only in a step carrying fewer bytes (for instance, a message
/// with a shorter payload).
pub proof fn lemma_fee_grows_with_bytes(f: FeeSchedule, s1: Seq<Step>, s2: Seq<Step>, i: int)
    requires
        valid_schedule(f),
        s1.len() == s2.len(),
        0 <= i < s1.len(),
        forall|k: int| 0 <= k < s1.len() && k != i ==> #[trigger] s1[k] == s2[k],
        step_bytes(s1[i]) < step_bytes(s2[i]),
    ensures
        batch_fee(f, s1) < batch_fee(f, s2),
    decreases s1.len(),
{
    if i < s1.len() - 1 {
        lemma_fee_grows_with_bytes(f, s1.drop_last(), s2.drop_last(), i);
        assert(s1.last() == s2.last());
    } else {
        lemma_same_steps_fee(f, s1.drop_last(), s2.drop_last());
        let a = step_bytes(s1[i]);
        let b = step_bytes(s2[i]);
        assert(f.per_byte_fee * a < f.per_byte_fee * b) by (nonlinear_arith)
            requires
                f.per_byte_fee > 0,
                a < b,
        ;
    }
}

} // verus!

verus! {

/// Under a valid schedule, a delivery batch costs strictly more than the
/// same batch whose message at `j` of step `i` has a shorter payload.
pub proof fn lemma_fee_grows_with_payload(f: FeeSchedule, s1: Seq<Step>, s2: Seq<Step>, i: int, j: int)
    requires
        valid_schedule(f),
        s1.len() == s2.len(),
        0 <= i < s1.len(),
        forall|k: int| 0 <= k < s1.len() && k != i ==> #[trigger] s1[k] == s2[k],
        s1[i] is Messages,
        s2[i] is Messages,
        s1[i]->Messages_proof.messages@.len() == s2[i]->Messages_proof.messages@.len(),
        0 <= j < s1[i]->Messages_proof.messages@.len(),
        forall|k: int| 0 <= k < s1[i]->Messages_proof.messages@.len() && k != j
            ==> #[trigger] s1[i]->Messages_proof.messages@[k].payload@.len()
            == s2[i]->Messages_proof.messages@[k].payload@.len(),
        s1[i]->Messages_proof.messages@[j].payload@.len()
            < s2[i]->Messages_proof.messages@[j].payload@.len(),
    ensures
        batch_fee(f, s1) < batch_fee(f, s2),
{
    let ms1 = s1[i]->Messages_proof.messages@;
    let ms2 = s2[i]->Messages_proof.messages@;
    lemma_longer_payload_more_bytes(ms1, ms2, j);
    lemma_fee_grows_with_bytes(f, s1, s2, i);
}

} // verus!

verus! {

/// A message proof is stale exactly when it is a gap-free run of nonces that the
/// lane has already received; a gap or disorder is a sequence violation instead.
pub proof fn lemma_stale_only_for_delivered_runs(
    m: BridgeModel,
    lane: u32,
    relayer: u64,
    p: MessagesProof,
    declared_count: u64,
)
    requires
        head_certified(m, p.bridged_para_id, p.para_head_hash),
        p.lane == lane,
        p.messages@.len() > 0,
        declared_count == p.messages@.len(),
    ensures
        (messages_result(m, lane, relayer, p, declared_count) == Err::<BridgeModel, BridgeError>(
            BridgeError::StaleProof,
        )) <==> (consecutive(p.messages@) && p.messages@.last().nonce <= lane_of(
            m,
            lane,
        ).latest_received_nonce),
        !consecutive(p.messages@) ==> messages_result(m, lane, relayer, p, declared_count)
            == Err::<BridgeModel, BridgeError>(BridgeError::NonceSequenceViolation),
{
}

} // verus!
