//! The bridge state object and its operations.
use std::collections::HashMap;
use vstd::prelude::*;
use crate::model::{
    BridgeModel, apply_heads, batch_result, confirmation_result,
    credit, credit_relayers, finality_result, heads_result, lane_of, messages_result,
    lemma_relayers_total_prefix, model_wf, relayers_total, reward_balance, reward_key, reward_result, step_result,
};
use crate::types::{
    BatchError, BridgeConfig, FeeError, BridgeError, CertifiedHeader, DeliveryProof,
    FinalityProof, HeadsProof, LaneState, Message, MessagesProof, ParachainHead, RelayHeader,
    RewardsAccountOwner, RewardsAccountParams, Step, UnrewardedRelayersState,
    lane_wf,
};
use crate::fee::{FeeSchedule, batch_fee, compute_fee, valid_schedule};
use crate::weights::{has_quorum, is_valid_authority_set, valid_authority_set};

verus! {

broadcast use vstd::std_specs::hash::group_hash_axioms;

/// State of one bridge instance, owned by its single writer.
///
/// The ledger trusts the signature and trie-membership results carried by the
/// proofs it is given; it checks them against its own certified state.
pub struct BridgeState {
    config: BridgeConfig,
    best: CertifiedHeader,
    set_id: u64,
    authorities: Vec<u64>,
    certified: HashMap<u64, CertifiedHeader>,
    heads: HashMap<u32, ParachainHead>,
    lanes: HashMap<u32, LaneState>,
    rewards_this: HashMap<u128, u64>,
    rewards_bridged: HashMap<u128, u64>,
}

impl View for BridgeState {
    type V = BridgeModel;

    closed spec fn view(&self) -> BridgeModel {
        BridgeModel {
            config: self.config,
            best: self.best,
            set_id: self.set_id,
            authorities: self.authorities@,
            certified: self.certified@,
            heads: self.heads@,
            lanes: self.lanes@,
            rewards_this: self.rewards_this@,
            rewards_bridged: self.rewards_bridged@,
        }
    }
}

/// The state of a bridge that has just been set up.
pub open spec fn initial_model(config: BridgeConfig, genesis: CertifiedHeader, authorities: Seq<u64>) -> BridgeModel {
    BridgeModel {
        config,
        best: genesis,
        set_id: 0,
        authorities,
        certified: Map::empty().insert(genesis.hash, genesis),
        heads: Map::empty(),
        lanes: Map::empty(),
        rewards_this: Map::empty(),
        rewards_bridged: Map::empty(),
    }
}

/// How an operation's outcome and the state after it follow from its meaning.
pub open spec fn follows<T>(
    before: BridgeModel,
    after: BridgeModel,
    r: Result<T, BridgeError>,
    meaning: Result<BridgeModel, BridgeError>,
) -> bool {
    match meaning {
        Ok(m) => r is Ok && after == m,
        Err(e) => r == Err::<T, BridgeError>(e) && after == before,
    }
}

/// A message may be dispatched when its payload fits the declared weight.
pub open spec fn within_weight(m: Message, declared_weight: u64) -> bool {
    m.payload@.len() <= declared_weight
}

fn reward_key_of(relayer: u64, lane: u32, chain_id: u32) -> (r: u128)
    ensures
        r == reward_key(relayer, lane, chain_id),
{
    (relayer as u128) * 0x1_0000_0000_0000_0000u128 + (lane as u128) * 0x1_0000_0000u128 + (chain_id as u128)
}

/// Adds `amount` to the balance at `k`, saturating.
fn credit_in(b: &mut HashMap<u128, u64>, k: u128, amount: u128)
    ensures
        final(b)@ == credit(old(b)@, k, amount as int),
{
    let bal: u64 = match b.get(&k) {
        Some(v) => *v,
        None => 0,
    };
    let new_bal: u64 = if amount >= u64::MAX as u128 {
        u64::MAX
    } else {
        bal.saturating_add(amount as u64)
    };
    b.insert(k, new_bal);
}

/// A failure at step `i` of a prefix is the failure of the whole batch.
proof fn lemma_batch_error_persists(m: BridgeModel, steps: Seq<Step>, i: int)
    requires
        0 <= i <= steps.len(),
        batch_result(m, steps.take(i)) is Err,
    ensures
        batch_result(m, steps) == batch_result(m, steps.take(i)),
    decreases steps.len() - i,
{
    if i < steps.len() {
        assert(steps.take(i + 1).drop_last() =~= steps.take(i));
        lemma_batch_error_persists(m, steps, i + 1);
    } else {
        assert(steps.take(i) =~= steps);
    }
}

fn wide_mul(a: u64, b: u64) -> (r: u128)
    ensures
        r == a * b,
{
    assert(a as int * b as int <= u64::MAX as int * u64::MAX as int) by (nonlinear_arith);
    (a as u128) * (b as u128)
}

fn copy_weights(w: &Vec<u64>) -> (r: Vec<u64>)
    ensures
        r@ == w@,
{
    let mut r: Vec<u64> = Vec::new();
    let mut i: usize = 0;
    while i < w.len()
        invariant
            i <= w.len(),
            r@ == w@.take(i as int),
        decreases w.len() - i,
    {
        r.push(w[i]);
        i = i + 1;
        assert(r@ =~= w@.take(i as int));
    }
    assert(w@.take(i as int) =~= w@);
    r
}

fn contains_head(entries: &Vec<ParachainHead>, x: ParachainHead) -> (r: bool)
    ensures
        r == entries@.contains(x),
{
    let mut j: usize = 0;
    while j < entries.len()
        invariant
            j <= entries.len(),
            forall|k: int| 0 <= k < j ==> entries@[k] != x,
        decreases entries.len() - j,
    {
        if entries[j] == x {
            return true;
        }
        j = j + 1;
    }
    false
}

/// For each message, whether it fits the declared weight.
pub open spec fn plan_of(msgs: Seq<Message>, declared_weight: u64) -> Seq<bool> {
    Seq::new(msgs.len(), |i: int| within_weight(msgs[i], declared_weight))
}

/// The dispatch plan of a step: one entry per message of a `Messages` step, none
/// for the other kinds.
pub open spec fn step_plan(s: Step) -> Seq<bool> {
    match s {
        Step::Messages { proof, declared_weight, .. } => plan_of(proof.messages@, declared_weight),
        _ => Seq::empty(),
    }
}

/// Nonces of the messages whose dispatch failed; a message without an outcome
/// counts as failed.
pub open spec fn failed_nonces(msgs: Seq<Message>, outcomes: Seq<bool>) -> Seq<u64>
    decreases msgs.len(),
{
    if msgs.len() == 0 {
        Seq::empty()
    } else {
        let i = msgs.len() - 1;
        let rest = failed_nonces(msgs.drop_last(), outcomes);
        if i < outcomes.len() && outcomes[i] {
            rest
        } else {
            rest.push(msgs[i].nonce)
        }
    }
}

/// The messages whose payload failed to execute after delivery. Delivery stays
/// final; the failure is reported, not rolled back.
#[derive(Clone, Debug)]
pub struct PayloadDispatchFailure {
    pub failed_nonces: Vec<u64>,
}

/// Reads the per-message outcomes that the dispatch collaborator returned for the
/// messages of `proof` (`outcomes[i]` for message `i`), and reports the nonces of
/// those that failed.
pub fn dispatch_failures(proof: &MessagesProof, outcomes: &Vec<bool>) -> (r: Result<(), PayloadDispatchFailure>)
    ensures
        match r {
            Ok(()) => failed_nonces(proof.messages@, outcomes@).len() == 0,
            Err(f) => f.failed_nonces@ == failed_nonces(proof.messages@, outcomes@)
                && f.failed_nonces@.len() > 0,
        },
{
    let mut failed: Vec<u64> = Vec::new();
    let mut i: usize = 0;
    while i < proof.messages.len()
        invariant
            i <= proof.messages@.len(),
            failed@ == failed_nonces(proof.messages@.take(i as int), outcomes@),
        decreases proof.messages@.len() - i,
    {
        assert(proof.messages@.take(i + 1).drop_last() =~= proof.messages@.take(i as int));
        if !(i < outcomes.len() && outcomes[i]) {
            failed.push(proof.messages[i].nonce);
        }
        i = i + 1;
    }
    assert(proof.messages@.take(i as int) =~= proof.messages@);
    if failed.len() == 0 {
        Ok(())
    } else {
        Err(PayloadDispatchFailure { failed_nonces: failed })
    }
}

/// Which messages of `proof` fit the declared dispatch weight.
pub fn dispatch_plan(proof: &MessagesProof, declared_weight: u64) -> (r: Vec<bool>)
    ensures
        r@ == plan_of(proof.messages@, declared_weight),
{
    let mut r: Vec<bool> = Vec::new();
    let mut i: usize = 0;
    while i < proof.messages.len()
        invariant
            i <= proof.messages@.len(),
            r@.len() == i,
            forall|k: int| 0 <= k < i ==> r@[k] == within_weight(#[trigger] proof.messages@[k], declared_weight),
        decreases proof.messages@.len() - i,
    {
        r.push(proof.messages[i].payload.len() as u64 <= declared_weight);
        i = i + 1;
    }
    assert(r@ =~= plan_of(proof.messages@, declared_weight));
    r
}

impl BridgeState {
    pub open spec fn wf(&self) -> bool {
        model_wf(self@)
    }

    /// Sets up a bridge at a trusted genesis header with its first authority set.
    pub fn new(config: BridgeConfig, genesis: CertifiedHeader, authorities: Vec<u64>) -> (r: Result<
        BridgeState,
        BridgeError,
    >)
        ensures
            match r {
                Ok(s) => valid_authority_set(authorities@) && s.wf() && s@ == initial_model(
                    config,
                    genesis,
                    authorities@,
                ),
                Err(e) => !valid_authority_set(authorities@) && e == BridgeError::InvalidAuthoritySet,
            },
    {
        if !is_valid_authority_set(&authorities) {
            return Err(BridgeError::InvalidAuthoritySet);
        }
        let mut certified: HashMap<u64, CertifiedHeader> = HashMap::new();
        certified.insert(genesis.hash, genesis);
        let s = BridgeState {
            config,
            best: genesis,
            set_id: 0,
            authorities,
            certified,
            heads: HashMap::new(),
            lanes: HashMap::new(),
            rewards_this: HashMap::new(),
            rewards_bridged: HashMap::new(),
        };
        assert(s@.lanes =~= Map::<u32, LaneState>::empty());
        Ok(s)
    }

    /// Finalizes `header` when `proof` carries a quorum of the live authority set.
    ///
    /// A header that signals an authority change activates the successor set at
    /// once, with the next set id.
    pub fn submit_finality_proof(&mut self, header: &RelayHeader, proof: &FinalityProof) -> (r: Result<(), BridgeError>)
        requires
            old(self).wf(),
        ensures
            final(self).wf(),
            follows(old(self)@, final(self)@, r, finality_result(old(self)@, *header, *proof)),
    {
        if header.number <= self.best.number {
            return Err(BridgeError::StaleProof);
        }
        if proof.set_id != self.set_id || proof.target_hash != header.hash || proof.target_number
            != header.number || proof.signed.len() != self.authorities.len() {
            return Err(BridgeError::InvalidFinalityProof);
        }
        if !has_quorum(&self.authorities, &proof.signed) {
            return Err(BridgeError::InvalidFinalityProof);
        }
        let c = CertifiedHeader { number: header.number, hash: header.hash, state_root: header.state_root };
        match &header.authority_change {
            Some(ws) => {
                if !is_valid_authority_set(ws) || self.set_id == u64::MAX {
                    return Err(BridgeError::InvalidAuthoritySet);
                }
                self.authorities = copy_weights(ws);
                self.set_id = self.set_id + 1;
            },
            None => {},
        }
        self.best = c;
        self.certified.insert(header.hash, c);
        Ok(())
    }

    /// Records the parachain heads that `proof` establishes under the state root of
    /// the certified relay block `(anchor_number, anchor_hash)`; all or nothing.
    #[verifier::loop_isolation(false)]
    pub fn submit_parachain_heads(
        &mut self,
        anchor_number: u64,
        anchor_hash: u64,
        heads: &Vec<ParachainHead>,
        proof: &HeadsProof,
    ) -> (r: Result<(), BridgeError>)
        requires
            old(self).wf(),
        ensures
            final(self).wf(),
            follows(
                old(self)@,
                final(self)@,
                r,
                heads_result(old(self)@, anchor_number, anchor_hash, heads@, *proof),
            ),
    {
        let anchor = match self.certified.get(&anchor_hash) {
            Some(c) => *c,
            None => {
                return Err(BridgeError::UnknownRelayAnchor);
            },
        };
        if anchor.number != anchor_number {
            return Err(BridgeError::UnknownRelayAnchor);
        }
        if proof.state_root != anchor.state_root {
            return Err(BridgeError::InvalidHeadInclusionProof);
        }
        let mut i: usize = 0;
        while i < heads.len()
            invariant
                i <= heads@.len(),
                forall|k: int| 0 <= k < i ==> proof.entries@.contains(#[trigger] heads@[k]),
            decreases heads@.len() - i,
        {
            if !contains_head(&proof.entries, heads[i]) {
                return Err(BridgeError::InvalidHeadInclusionProof);
            }
            i = i + 1;
        }
        let ghost h0 = self.heads@;
        let mut hm = self.heads.clone();
        i = 0;
        while i < heads.len()
            invariant
                i <= heads@.len(),
                hm@ == apply_heads(h0, heads@.take(i as int)),
            decreases heads@.len() - i,
        {
            let x = heads[i];
            assert(heads@.take(i + 1).drop_last() =~= heads@.take(i as int));
            let keep = match hm.get(&x.para_id) {
                Some(c) => c.head_number >= x.head_number,
                None => false,
            };
            if !keep {
                hm.insert(x.para_id, x);
            }
            i = i + 1;
        }
        assert(heads@.take(i as int) =~= heads@);
        self.heads = hm;
        Ok(())
    }

    /// Accepts the messages that `proof` carries for `lane`, delivered by `relayer`.
    ///
    /// On success the lane's received nonce advances past the last message, the
    /// relayer is credited under `(lane, bridged chain, ThisChain)`, and the result
    /// tells which messages fit `declared_weight` and may be dispatched.
    #[verifier::loop_isolation(false)]
    pub fn receive_messages_proof(
        &mut self,
        lane: u32,
        relayer: u64,
        proof: &MessagesProof,
        declared_count: u64,
        declared_weight: u64,
    ) -> (r: Result<Vec<bool>, BridgeError>)
        requires
            old(self).wf(),
        ensures
            final(self).wf(),
            follows(
                old(self)@,
                final(self)@,
                r,
                messages_result(old(self)@, lane, relayer, *proof, declared_count),
            ),
            r matches Ok(plan) ==> plan@ == plan_of(proof.messages@, declared_weight),
    {
        if !self.head_is_certified(proof.bridged_para_id, proof.para_head_hash) {
            return Err(BridgeError::UnknownParachainHead);
        }
        let n = proof.messages.len();
        if proof.lane != lane || n == 0 || declared_count != n as u64 {
            return Err(BridgeError::InvalidMessagesProof);
        }
        let first = proof.messages[0].nonce;
        let mut i: usize = 0;
        while i < n
            invariant
                i <= n,
                n == proof.messages@.len(),
                first == proof.messages@[0].nonce,
                forall|k: int| 0 <= k < i ==> #[trigger] proof.messages@[k].nonce == first + k,
            decreases n - i,
        {
            if proof.messages[i].nonce as u128 != first as u128 + i as u128 {
                return Err(BridgeError::NonceSequenceViolation);
            }
            i = i + 1;
        }
        let l = self.lane(lane);
        let received = l.latest_received_nonce;
        if proof.messages[n - 1].nonce <= received {
            return Err(BridgeError::StaleProof);
        }
        if first as u128 != received as u128 + 1 {
            return Err(BridgeError::NonceSequenceViolation);
        }
        assert(proof.messages@[n - 1].nonce == received + n);
        let new_lane = LaneState {
            latest_received_nonce: received + n as u64,
            latest_confirmed_nonce: l.latest_confirmed_nonce,
            unrewarded: UnrewardedRelayersState {
                unrewarded_relayer_entries: l.unrewarded.unrewarded_relayer_entries + 1,
                total_messages: l.unrewarded.total_messages + n as u64,
            },
        };
        self.lanes.insert(lane, new_lane);
        let k = reward_key_of(relayer, lane, self.config.bridged_chain_id);
        let amount: u128 = wide_mul(n as u64, self.config.reward_per_message);
        credit_in(&mut self.rewards_this, k, amount);
        Ok(dispatch_plan(proof, declared_weight))
    }

    /// Confirms, from a delivery proof of the bridged side, the messages of `lane` up
    /// to `proof.last_delivered_nonce`, and credits the relayers that delivered them
    /// under `(lane, bridged chain, BridgedChain)`.
    #[verifier::loop_isolation(false)]
    pub fn receive_messages_delivery_proof(
        &mut self,
        lane: u32,
        proof: &DeliveryProof,
        declared: UnrewardedRelayersState,
    ) -> (r: Result<(), BridgeError>)
        requires
            old(self).wf(),
        ensures
            final(self).wf(),
            follows(
                old(self)@,
                final(self)@,
                r,
                confirmation_result(old(self)@, lane, *proof, declared),
            ),
    {
        if !self.head_is_certified(proof.bridged_para_id, proof.para_head_hash) {
            return Err(BridgeError::UnknownParachainHead);
        }
        if proof.lane != lane {
            return Err(BridgeError::InvalidMessagesProof);
        }
        let l = self.lane(lane);
        let n = proof.last_delivered_nonce;
        if n <= l.latest_confirmed_nonce {
            return Err(BridgeError::StaleProof);
        }
        if n > l.latest_received_nonce {
            return Err(BridgeError::NonceSequenceViolation);
        }
        if declared != l.unrewarded {
            return Err(BridgeError::InvalidUnrewardedRelayersState);
        }
        let expected = n - l.latest_confirmed_nonce;
        let mut sum: u64 = 0;
        let mut j: usize = 0;
        while j < proof.relayers.len()
            invariant
                j <= proof.relayers@.len(),
                sum == relayers_total(proof.relayers@.take(j as int)),
            decreases proof.relayers@.len() - j,
        {
            assert(proof.relayers@.take(j + 1).drop_last() =~= proof.relayers@.take(j as int));
            match sum.checked_add(proof.relayers[j].messages) {
                Some(x) => {
                    sum = x;
                },
                None => {
                    proof {
                        lemma_relayers_total_prefix(proof.relayers@, j + 1);
                    }
                    return Err(BridgeError::InvalidMessagesProof);
                },
            }
            j = j + 1;
        }
        assert(proof.relayers@.take(j as int) =~= proof.relayers@);
        if sum != expected {
            return Err(BridgeError::InvalidMessagesProof);
        }
        let total = l.latest_received_nonce - n;
        let entries = if l.unrewarded.unrewarded_relayer_entries <= total {
            l.unrewarded.unrewarded_relayer_entries
        } else {
            total
        };
        let new_lane = LaneState {
            latest_received_nonce: l.latest_received_nonce,
            latest_confirmed_nonce: n,
            unrewarded: UnrewardedRelayersState { unrewarded_relayer_entries: entries, total_messages: total },
        };
        self.lanes.insert(lane, new_lane);
        let chain_id = self.config.bridged_chain_id;
        let per_message = self.config.reward_per_message;
        let ghost b0 = self.rewards_bridged@;
        let mut b = self.rewards_bridged.clone();
        let mut i: usize = 0;
        while i < proof.relayers.len()
            invariant
                i <= proof.relayers@.len(),
                b@ == credit_relayers(b0, lane, chain_id, proof.relayers@.take(i as int), per_message),
            decreases proof.relayers@.len() - i,
        {
            let x = proof.relayers[i];
            assert(proof.relayers@.take(i + 1).drop_last() =~= proof.relayers@.take(i as int));
            let k = reward_key_of(x.relayer, lane, chain_id);
            let amount: u128 = wide_mul(x.messages, per_message);
            credit_in(&mut b, k, amount);
            i = i + 1;
        }
        assert(proof.relayers@.take(i as int) =~= proof.relayers@);
        self.rewards_bridged = b;
        Ok(())
    }

    /// Adds `amount` to the balance of `relayer` in the account `params`; a balance
    /// never decreases and saturates at `u64::MAX`.
    pub fn register_reward(&mut self, relayer: u64, params: RewardsAccountParams, amount: u64)
        requires
            old(self).wf(),
        ensures
            final(self).wf(),
            final(self)@ == reward_result(old(self)@, relayer, params, amount),
    {
        let k = reward_key_of(relayer, params.lane, params.chain_id);
        match params.owner {
            RewardsAccountOwner::ThisChain => credit_in(&mut self.rewards_this, k, amount as u128),
            RewardsAccountOwner::BridgedChain => credit_in(&mut self.rewards_bridged, k, amount as u128),
        }
        assert(self@.lanes == old(self)@.lanes);
    }

    /// Applies one step; a `Messages` step hands back its dispatch plan.
    pub fn apply_step(&mut self, step: &Step) -> (r: Result<Vec<bool>, BridgeError>)
        requires
            old(self).wf(),
        ensures
            final(self).wf(),
            follows(old(self)@, final(self)@, r, step_result(old(self)@, *step)),
            r matches Ok(plan) ==> plan@ == step_plan(*step),
    {
        match step {
            Step::Finality { header, proof } => match self.submit_finality_proof(header, proof) {
                Ok(()) => Ok(Vec::new()),
                Err(e) => Err(e),
            },
            Step::ParachainHeads { anchor_number, anchor_hash, heads, proof } => {
                match self.submit_parachain_heads(*anchor_number, *anchor_hash, heads, proof) {
                    Ok(()) => Ok(Vec::new()),
                    Err(e) => Err(e),
                }
            },
            Step::Messages { lane, relayer, proof, declared_count, declared_weight } => {
                self.receive_messages_proof(*lane, *relayer, proof, *declared_count, *declared_weight)
            },
            Step::Confirmation { lane, proof, declared } => {
                match self.receive_messages_delivery_proof(*lane, proof, *declared) {
                    Ok(()) => Ok(Vec::new()),
                    Err(e) => Err(e),
                }
            },
        }
    }

    /// Applies `steps` in order on a staged copy; commits only if every step
    /// succeeds, and otherwise reports the first failing step and changes nothing.
    /// On success, entry `i` of the result is the dispatch plan of step `i`.
    pub fn run_batch(&mut self, steps: &Vec<Step>) -> (r: Result<Vec<Vec<bool>>, BatchError>)
        requires
            old(self).wf(),
        ensures
            final(self).wf(),
            match batch_result(old(self)@, steps@) {
                Ok(m) => r is Ok && final(self)@ == m,
                Err((i, e)) => r == Err::<Vec<Vec<bool>>, BatchError>(BatchError { step: i as usize, error: e })
                    && final(self)@ == old(self)@,
            },
            r matches Ok(plans) ==> plans@.len() == steps@.len() && forall|i: int|
                0 <= i < plans@.len() ==> #[trigger] plans@[i]@ == step_plan(steps@[i]),
    {
        match self.dry_run(steps) {
            Ok((s, plans)) => {
                *self = s;
                Ok(plans)
            },
            Err(e) => Err(e),
        }
    }

    /// Applies `steps` in order to a copy of the state, leaving `self` untouched.
    fn dry_run(&self, steps: &Vec<Step>) -> (r: Result<(BridgeState, Vec<Vec<bool>>), BatchError>)
        requires
            self.wf(),
        ensures
            match batch_result(self@, steps@) {
                Ok(m) => r matches Ok((s, plans)) && s@ == m && s.wf() && plans@.len() == steps@.len()
                    && forall|i: int| 0 <= i < plans@.len() ==> #[trigger] plans@[i]@ == step_plan(steps@[i]),
                Err((i, e)) => r == Err::<(BridgeState, Vec<Vec<bool>>), BatchError>(BatchError { step: i as usize, error: e }),
            },
    {
        let mut stage = self.duplicate();
        let mut plans: Vec<Vec<bool>> = Vec::new();
        let mut i: usize = 0;
        while i < steps.len()
            invariant
                i <= steps@.len(),
                stage.wf(),
                batch_result(self@, steps@.take(i as int)) == Ok::<BridgeModel, (int, BridgeError)>(stage@),
                plans@.len() == i,
                forall|k: int| 0 <= k < i ==> #[trigger] plans@[k]@ == step_plan(steps@[k]),
            decreases steps@.len() - i,
        {
            assert(steps@.take(i + 1).drop_last() =~= steps@.take(i as int));
            match stage.apply_step(&steps[i]) {
                Ok(plan) => {
                    plans.push(plan);
                },
                Err(e) => {
                    proof {
                        lemma_batch_error_persists(self@, steps@, i + 1);
                    }
                    return Err(BatchError { step: i, error: e });
                },
            }
            i = i + 1;
        }
        assert(steps@.take(i as int) =~= steps@);
        Ok((stage, plans))
    }

    /// Prices `steps` under `schedule` after checking, on a discarded copy of the
    /// state, that the batch would succeed.
    pub fn estimate_fee(&self, steps: &Vec<Step>, schedule: FeeSchedule) -> (r: Result<u128, FeeError>)
        requires
            self.wf(),
            valid_schedule(schedule),
        ensures
            match batch_result(self@, steps@) {
                Err((i, e)) => r == Err::<u128, FeeError>(FeeError::Batch(BatchError { step: i as usize, error: e })),
                Ok(_) => if batch_fee(schedule, steps@) <= u128::MAX {
                    r == Ok::<u128, FeeError>(batch_fee(schedule, steps@) as u128)
                } else {
                    r == Err::<u128, FeeError>(FeeError::Overflow)
                },
            },
    {
        match self.dry_run(steps) {
            Err(e) => Err(FeeError::Batch(e)),
            Ok(_) => match compute_fee(schedule, steps) {
                Some(v) => Ok(v),
                None => Err(FeeError::Overflow),
            },
        }
    }

    /// Hash of the best finalized relay header: the trust anchor of later proofs.
    pub fn best_header_hash(&self) -> (r: u64)
        ensures
            r == self@.best.hash,
    {
        self.best.hash
    }

    /// The best finalized relay header.
    pub fn best_header(&self) -> (r: CertifiedHeader)
        ensures
            r == self@.best,
    {
        self.best
    }

    /// Id of the live authority set.
    pub fn authority_set_id(&self) -> (r: u64)
        ensures
            r == self@.set_id,
    {
        self.set_id
    }

    /// Whether `(number, hash)` names a certified relay header.
    pub fn is_certified(&self, number: u64, hash: u64) -> (r: bool)
        ensures
            r == (self@.certified.contains_key(hash) && self@.certified[hash].number == number),
    {
        match self.certified.get(&hash) {
            Some(c) => c.number == number,
            None => false,
        }
    }

    /// The stored head of parachain `para_id`, if any.
    pub fn parachain_head(&self, para_id: u32) -> (r: Option<ParachainHead>)
        ensures
            r == (if self@.heads.contains_key(para_id) {
                Some(self@.heads[para_id])
            } else {
                None
            }),
    {
        match self.heads.get(&para_id) {
            Some(h) => Some(*h),
            None => None,
        }
    }

    /// State of `lane`; a lane that has seen no message is all zeros.
    pub fn lane_state(&self, lane: u32) -> (r: LaneState)
        ensures
            r == lane_of(self@, lane),
    {
        self.lane(lane)
    }

    /// Accumulated balance of `relayer` in the account `params`.
    pub fn reward_balance(&self, relayer: u64, params: RewardsAccountParams) -> (r: u64)
        ensures
            r == reward_balance(self@, relayer, params),
    {
        let k = reward_key_of(relayer, params.lane, params.chain_id);
        let b = match params.owner {
            RewardsAccountOwner::ThisChain => &self.rewards_this,
            RewardsAccountOwner::BridgedChain => &self.rewards_bridged,
        };
        match b.get(&k) {
            Some(v) => *v,
            None => 0,
        }
    }

    fn duplicate(&self) -> (r: BridgeState)
        ensures
            r@ == self@,
    {
        BridgeState {
            config: self.config,
            best: self.best,
            set_id: self.set_id,
            authorities: copy_weights(&self.authorities),
            certified: self.certified.clone(),
            heads: self.heads.clone(),
            lanes: self.lanes.clone(),
            rewards_this: self.rewards_this.clone(),
            rewards_bridged: self.rewards_bridged.clone(),
        }
    }

    fn lane(&self, lane: u32) -> (r: LaneState)
        ensures
            r == lane_of(self@, lane),
    {
        match self.lanes.get(&lane) {
            Some(l) => *l,
            None => LaneState {
                latest_received_nonce: 0,
                latest_confirmed_nonce: 0,
                unrewarded: UnrewardedRelayersState { unrewarded_relayer_entries: 0, total_messages: 0 },
            },
        }
    }

    fn head_is_certified(&self, para_id: u32, head_hash: u64) -> (r: bool)
        ensures
            r == crate::model::head_certified(self@, para_id, head_hash),
    {
        match self.heads.get(&para_id) {
            Some(h) => h.head_hash == head_hash,
            None => false,
        }
    }
}

} // verus!
