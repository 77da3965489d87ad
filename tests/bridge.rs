use parachain_bridge::bridge::{dispatch_failures, dispatch_plan, BridgeState};
use parachain_bridge::fee::{compute_fee, FeeSchedule};
use parachain_bridge::types::{
    BatchError, BridgeConfig, BridgeError, CertifiedHeader, DeliveredMessages, DeliveryProof,
    FeeError, FinalityProof, HeadsProof, Message, MessagesProof, ParachainHead, RelayHeader,
    RewardsAccountOwner, RewardsAccountParams, Step, UnrewardedRelayersState,
};
use parachain_bridge::weights::{checked_total_weight, has_quorum, is_valid_authority_set};

const CHAIN: u32 = 0x6272_6964;
const LANE: u32 = 0;
const PARA: u32 = 1000;
const RELAYER: u64 = 42;
const PER_MESSAGE: u64 = 10;

fn config() -> BridgeConfig {
    BridgeConfig { bridged_chain_id: CHAIN, reward_per_message: PER_MESSAGE }
}

fn genesis() -> CertifiedHeader {
    CertifiedHeader { number: 0, hash: 100, state_root: 200 }
}

fn fresh() -> BridgeState {
    BridgeState::new(config(), genesis(), vec![1, 1, 1]).unwrap()
}

fn header(number: u64) -> RelayHeader {
    RelayHeader {
        number,
        hash: 100 + number,
        parent_hash: 100 + number - 1,
        state_root: 200 + number,
        authority_change: None,
    }
}

fn proof_for(h: &RelayHeader, set_id: u64, signed: Vec<bool>) -> FinalityProof {
    FinalityProof { set_id, target_number: h.number, target_hash: h.hash, signed }
}

fn para_head(number: u64) -> ParachainHead {
    ParachainHead { para_id: PARA, head_hash: 5000 + number, head_number: number }
}

fn heads_proof(relay: &RelayHeader, heads: Vec<ParachainHead>) -> HeadsProof {
    HeadsProof { state_root: relay.state_root, entries: heads }
}

fn messages(first: u64, count: u64, payload_len: usize) -> MessagesProof {
    let mut ms = Vec::new();
    for i in 0..count {
        ms.push(Message { nonce: first + i, payload: vec![0x0a; payload_len] });
    }
    MessagesProof { bridged_para_id: PARA, para_head_hash: para_head(5).head_hash, lane: LANE, messages: ms }
}

fn this_chain_account() -> RewardsAccountParams {
    RewardsAccountParams { lane: LANE, chain_id: CHAIN, owner: RewardsAccountOwner::ThisChain }
}

fn bridged_account() -> RewardsAccountParams {
    RewardsAccountParams { lane: LANE, chain_id: CHAIN, owner: RewardsAccountOwner::BridgedChain }
}

fn delivery_steps(payload_len: usize) -> Vec<Step> {
    let h = header(1);
    let p = proof_for(&h, 0, vec![true, true, true]);
    let hp = heads_proof(&h, vec![para_head(5)]);
    vec![
        Step::Finality { header: h.clone(), proof: p },
        Step::ParachainHeads { anchor_number: 1, anchor_hash: h.hash, heads: vec![para_head(5)], proof: hp },
        Step::Messages {
            lane: LANE,
            relayer: RELAYER,
            proof: messages(1, 1, payload_len),
            declared_count: 1,
            declared_weight: 1_000_000_000,
        },
    ]
}

/// A bridge where header #1 is final, para head #5 is known and nonce 1 delivered.
fn delivered() -> BridgeState {
    let mut s = fresh();
    s.run_batch(&delivery_steps(4)).unwrap();
    s
}

fn schedule() -> FeeSchedule {
    FeeSchedule { base_fee: 1000, per_step_fee: 100, per_byte_fee: 3 }
}

#[test]
fn relayed_incoming_message_works() {
    let mut s = fresh();
    let h = header(1);
    s.submit_finality_proof(&h, &proof_for(&h, 0, vec![true, true, false])).unwrap();
    assert_eq!(s.best_header_hash(), h.hash);
    s.submit_parachain_heads(1, h.hash, &vec![para_head(5)], &heads_proof(&h, vec![para_head(5)])).unwrap();
    assert_eq!(s.parachain_head(PARA), Some(para_head(5)));
    let plan = s.receive_messages_proof(LANE, RELAYER, &messages(1, 1, 8), 1, 1_000_000_000).unwrap();
    assert_eq!(plan, vec![true]);
    assert_eq!(s.lane_state(LANE).latest_received_nonce, 1);
    assert_eq!(s.reward_balance(RELAYER, this_chain_account()), PER_MESSAGE);
}

#[test]
fn complex_relay_extrinsic_works() {
    let mut s = fresh();
    assert_eq!(s.run_batch(&delivery_steps(8)), Ok(vec![vec![], vec![], vec![true]]));
    assert_eq!(s.best_header_hash(), header(1).hash);
    assert_eq!(s.parachain_head(PARA), Some(para_head(5)));
    assert_eq!(s.lane_state(LANE).latest_received_nonce, 1);
    assert_eq!(s.reward_balance(RELAYER, this_chain_account()), PER_MESSAGE);
    assert_eq!(s.reward_balance(RELAYER, bridged_account()), 0);
}

#[test]
fn batch_with_uncertified_anchor_is_rolled_back() {
    let mut s = fresh();
    let h1 = header(1);
    let h2 = header(2);
    let steps = vec![
        Step::Finality { header: h1.clone(), proof: proof_for(&h1, 0, vec![true, true, true]) },
        Step::ParachainHeads {
            anchor_number: 2,
            anchor_hash: h2.hash,
            heads: vec![para_head(5)],
            proof: heads_proof(&h2, vec![para_head(5)]),
        },
    ];
    assert_eq!(
        s.run_batch(&steps),
        Err(BatchError { step: 1, error: BridgeError::UnknownRelayAnchor })
    );
    assert_eq!(s.best_header(), genesis());
    assert!(!s.is_certified(1, h1.hash));
    assert_eq!(s.parachain_head(PARA), None);
}

#[test]
fn resubmitted_nonce_is_stale() {
    let mut s = delivered();
    let r = s.receive_messages_proof(LANE, RELAYER, &messages(1, 1, 4), 1, 1_000_000_000);
    assert_eq!(r, Err(BridgeError::StaleProof));
    assert_eq!(s.lane_state(LANE).latest_received_nonce, 1);
    assert_eq!(s.reward_balance(RELAYER, this_chain_account()), PER_MESSAGE);
}

#[test]
fn can_calculate_fee_for_complex_message_delivery_transaction() {
    let s = fresh();
    let large = s.estimate_fee(&delivery_steps(1024), schedule()).unwrap();
    let small = s.estimate_fee(&delivery_steps(1), schedule()).unwrap();
    assert!(large > small);
    // base + 3 steps + 3 bytes each for: 3 precommits, 1 trie entry, payload bytes
    assert_eq!(small, 1000 + 300 + 3 * (3 + 1 + 1));
    assert_eq!(large, 1000 + 300 + 3 * (3 + 1 + 1024));
    // estimation leaves the state as it was
    assert_eq!(s.best_header(), genesis());
}

#[test]
fn can_calculate_fee_for_complex_message_confirmation_transaction() {
    let s = delivered();
    let h = header(2);
    let steps = vec![
        Step::Finality { header: h.clone(), proof: proof_for(&h, 0, vec![true, true, true]) },
        Step::ParachainHeads {
            anchor_number: 2,
            anchor_hash: h.hash,
            heads: vec![para_head(6)],
            proof: heads_proof(&h, vec![para_head(6)]),
        },
        Step::Confirmation {
            lane: LANE,
            proof: DeliveryProof {
                bridged_para_id: PARA,
                para_head_hash: para_head(6).head_hash,
                lane: LANE,
                last_delivered_nonce: 1,
                relayers: vec![DeliveredMessages { relayer: 7, messages: 1 }],
            },
            declared: UnrewardedRelayersState { unrewarded_relayer_entries: 1, total_messages: 1 },
        },
    ];
    assert_eq!(s.estimate_fee(&steps, schedule()), Ok(1000 + 300 + 3 * (3 + 1 + 1)));
}

#[test]
fn sub_quorum_finality_is_rejected() {
    let mut s = fresh();
    let h = header(1);
    let r = s.submit_finality_proof(&h, &proof_for(&h, 0, vec![true, false, false]));
    assert_eq!(r, Err(BridgeError::InvalidFinalityProof));
    assert_eq!(s.best_header(), genesis());
}

#[test]
fn quorum_is_two_thirds_of_weight() {
    assert!(has_quorum(&vec![2, 1], &vec![true, false]));
    assert!(!has_quorum(&vec![1, 2], &vec![true, false]));
    assert!(has_quorum(&vec![1, 1, 1], &vec![false, true, true]));
    assert!(!has_quorum(&vec![1, 1, 1, 1], &vec![true, true, false, false]));
}

#[test]
fn authority_set_validity() {
    assert_eq!(checked_total_weight(&vec![3, 4]), Some(7));
    assert_eq!(checked_total_weight(&vec![u64::MAX, 1]), None);
    assert!(is_valid_authority_set(&vec![0, 1]));
    assert!(!is_valid_authority_set(&vec![]));
    assert!(!is_valid_authority_set(&vec![0, 0]));
    assert!(!is_valid_authority_set(&vec![u64::MAX, 1]));
    assert_eq!(
        BridgeState::new(config(), genesis(), vec![]).err(),
        Some(BridgeError::InvalidAuthoritySet)
    );
}

#[test]
fn finality_proof_must_match_header() {
    let mut s = fresh();
    let h = header(1);
    let mut p = proof_for(&h, 0, vec![true, true, true]);
    p.target_hash = 999;
    assert_eq!(s.submit_finality_proof(&h, &p), Err(BridgeError::InvalidFinalityProof));
    let p = proof_for(&h, 1, vec![true, true, true]);
    assert_eq!(s.submit_finality_proof(&h, &p), Err(BridgeError::InvalidFinalityProof));
    let p = proof_for(&h, 0, vec![true, true]);
    assert_eq!(s.submit_finality_proof(&h, &p), Err(BridgeError::InvalidFinalityProof));
}

#[test]
fn older_or_equal_header_is_stale() {
    let mut s = fresh();
    let h2 = header(2);
    s.submit_finality_proof(&h2, &proof_for(&h2, 0, vec![true, true, true])).unwrap();
    for n in [1, 2] {
        let h = header(n);
        let r = s.submit_finality_proof(&h, &proof_for(&h, 0, vec![true, true, true]));
        assert_eq!(r, Err(BridgeError::StaleProof));
    }
    assert_eq!(s.best_header().number, 2);
}

#[test]
fn authority_change_rotates_the_set() {
    let mut s = fresh();
    let mut h = header(1);
    h.authority_change = Some(vec![5, 5]);
    s.submit_finality_proof(&h, &proof_for(&h, 0, vec![true, true, false])).unwrap();
    assert_eq!(s.authority_set_id(), 1);
    let h2 = header(2);
    // the old set no longer finalizes
    let r = s.submit_finality_proof(&h2, &proof_for(&h2, 0, vec![true, true, true]));
    assert_eq!(r, Err(BridgeError::InvalidFinalityProof));
    // the new one needs both of its members
    let r = s.submit_finality_proof(&h2, &proof_for(&h2, 1, vec![true, false]));
    assert_eq!(r, Err(BridgeError::InvalidFinalityProof));
    s.submit_finality_proof(&h2, &proof_for(&h2, 1, vec![true, true])).unwrap();
    assert_eq!(s.best_header().number, 2);
}

#[test]
fn invalid_authority_change_is_rejected() {
    let mut s = fresh();
    let mut h = header(1);
    h.authority_change = Some(vec![0]);
    let r = s.submit_finality_proof(&h, &proof_for(&h, 0, vec![true, true, true]));
    assert_eq!(r, Err(BridgeError::InvalidAuthoritySet));
    assert_eq!(s.authority_set_id(), 0);
    assert_eq!(s.best_header(), genesis());
}

#[test]
fn head_proof_must_hold_the_heads() {
    let mut s = fresh();
    let h = header(1);
    s.submit_finality_proof(&h, &proof_for(&h, 0, vec![true, true, true])).unwrap();
    let r = s.submit_parachain_heads(1, h.hash, &vec![para_head(5)], &heads_proof(&h, vec![para_head(4)]));
    assert_eq!(r, Err(BridgeError::InvalidHeadInclusionProof));
    let mut bad_root = heads_proof(&h, vec![para_head(5)]);
    bad_root.state_root = 1;
    let r = s.submit_parachain_heads(1, h.hash, &vec![para_head(5)], &bad_root);
    assert_eq!(r, Err(BridgeError::InvalidHeadInclusionProof));
    let r = s.submit_parachain_heads(2, h.hash, &vec![para_head(5)], &heads_proof(&h, vec![para_head(5)]));
    assert_eq!(r, Err(BridgeError::UnknownRelayAnchor));
    assert_eq!(s.parachain_head(PARA), None);
}

#[test]
fn older_head_does_not_overwrite() {
    let mut s = fresh();
    let h = header(1);
    s.submit_finality_proof(&h, &proof_for(&h, 0, vec![true, true, true])).unwrap();
    let proof = heads_proof(&h, vec![para_head(5), para_head(3), para_head(5)]);
    s.submit_parachain_heads(1, h.hash, &vec![para_head(5)], &proof).unwrap();
    s.submit_parachain_heads(1, h.hash, &vec![para_head(3)], &proof).unwrap();
    assert_eq!(s.parachain_head(PARA), Some(para_head(5)));
    s.submit_parachain_heads(1, h.hash, &vec![para_head(5)], &proof).unwrap();
    assert_eq!(s.parachain_head(PARA), Some(para_head(5)));
}

#[test]
fn nonce_gap_is_rejected() {
    let mut s = delivered();
    let r = s.receive_messages_proof(LANE, RELAYER, &messages(3, 2, 4), 2, 1_000_000_000);
    assert_eq!(r, Err(BridgeError::NonceSequenceViolation));
    let r = s.receive_messages_proof(LANE, RELAYER, &messages(1, 2, 4), 2, 1_000_000_000);
    assert_eq!(r, Err(BridgeError::NonceSequenceViolation));
    assert_eq!(s.lane_state(LANE).latest_received_nonce, 1);
}

#[test]
fn range_delivery_reaches_its_end() {
    let mut s = delivered();
    s.receive_messages_proof(LANE, RELAYER, &messages(2, 3, 4), 3, 1_000_000_000).unwrap();
    let l = s.lane_state(LANE);
    assert_eq!(l.latest_received_nonce, 4);
    assert_eq!(l.unrewarded, UnrewardedRelayersState { unrewarded_relayer_entries: 2, total_messages: 4 });
    assert_eq!(s.reward_balance(RELAYER, this_chain_account()), 4 * PER_MESSAGE);
    let r = s.receive_messages_proof(LANE, RELAYER, &messages(2, 3, 4), 3, 1_000_000_000);
    assert_eq!(r, Err(BridgeError::StaleProof));
    assert_eq!(s.lane_state(LANE), l);
}

#[test]
fn message_proof_must_match_call() {
    let mut s = delivered();
    let r = s.receive_messages_proof(LANE, RELAYER, &messages(2, 1, 4), 2, 1_000_000_000);
    assert_eq!(r, Err(BridgeError::InvalidMessagesProof));
    let r = s.receive_messages_proof(LANE + 1, RELAYER, &messages(2, 1, 4), 1, 1_000_000_000);
    assert_eq!(r, Err(BridgeError::InvalidMessagesProof));
    let r = s.receive_messages_proof(LANE, RELAYER, &messages(2, 0, 4), 0, 1_000_000_000);
    assert_eq!(r, Err(BridgeError::InvalidMessagesProof));
    let mut p = messages(2, 1, 4);
    p.para_head_hash = 1;
    let r = s.receive_messages_proof(LANE, RELAYER, &p, 1, 1_000_000_000);
    assert_eq!(r, Err(BridgeError::UnknownParachainHead));
}

#[test]
fn dispatch_plan_follows_declared_weight() {
    let mut p = messages(1, 2, 4);
    p.messages[1].payload = vec![0; 9];
    assert_eq!(dispatch_plan(&p, 4), vec![true, false]);
    assert_eq!(dispatch_plan(&p, 9), vec![true, true]);
    let mut s = delivered();
    let mut p = messages(2, 2, 4);
    p.messages[1].payload = vec![0; 9];
    assert_eq!(s.receive_messages_proof(LANE, RELAYER, &p, 2, 5), Ok(vec![true, false]));
    assert_eq!(s.lane_state(LANE).latest_received_nonce, 3);
}

fn delivery_proof(n: u64, relayers: Vec<DeliveredMessages>) -> DeliveryProof {
    DeliveryProof { bridged_para_id: PARA, para_head_hash: para_head(5).head_hash, lane: LANE, last_delivered_nonce: n, relayers }
}

#[test]
fn confirmation_credits_bridged_relayers() {
    let mut s = delivered();
    s.receive_messages_proof(LANE, RELAYER, &messages(2, 2, 4), 2, 1_000_000_000).unwrap();
    let declared = UnrewardedRelayersState { unrewarded_relayer_entries: 2, total_messages: 3 };
    let p = delivery_proof(3, vec![DeliveredMessages { relayer: 7, messages: 2 }, DeliveredMessages { relayer: 8, messages: 1 }]);
    s.receive_messages_delivery_proof(LANE, &p, declared).unwrap();
    let l = s.lane_state(LANE);
    assert_eq!(l.latest_confirmed_nonce, 3);
    assert_eq!(l.unrewarded, UnrewardedRelayersState { unrewarded_relayer_entries: 0, total_messages: 0 });
    assert_eq!(s.reward_balance(7, bridged_account()), 2 * PER_MESSAGE);
    assert_eq!(s.reward_balance(8, bridged_account()), PER_MESSAGE);
    assert_eq!(s.reward_balance(7, this_chain_account()), 0);
    // the same confirmation again is stale
    let again = s.receive_messages_delivery_proof(LANE, &p, l.unrewarded);
    assert_eq!(again, Err(BridgeError::StaleProof));
    assert_eq!(s.reward_balance(7, bridged_account()), 2 * PER_MESSAGE);
}

#[test]
fn partial_confirmation_keeps_the_rest_unrewarded() {
    let mut s = delivered();
    s.receive_messages_proof(LANE, RELAYER, &messages(2, 2, 4), 2, 1_000_000_000).unwrap();
    let declared = UnrewardedRelayersState { unrewarded_relayer_entries: 2, total_messages: 3 };
    let p = delivery_proof(2, vec![DeliveredMessages { relayer: 7, messages: 2 }]);
    s.receive_messages_delivery_proof(LANE, &p, declared).unwrap();
    let l = s.lane_state(LANE);
    assert_eq!(l.latest_confirmed_nonce, 2);
    assert_eq!(l.unrewarded, UnrewardedRelayersState { unrewarded_relayer_entries: 1, total_messages: 1 });
    assert_eq!(s.reward_balance(7, bridged_account()), 2 * PER_MESSAGE);
}

#[test]
fn confirmation_rewards_must_match_confirmed_messages() {
    let mut s = delivered();
    let declared = UnrewardedRelayersState { unrewarded_relayer_entries: 1, total_messages: 1 };
    let p = delivery_proof(1, vec![DeliveredMessages { relayer: 7, messages: 1_000 }]);
    assert_eq!(s.receive_messages_delivery_proof(LANE, &p, declared), Err(BridgeError::InvalidMessagesProof));
    let p = delivery_proof(1, vec![DeliveredMessages { relayer: 7, messages: u64::MAX }, DeliveredMessages { relayer: 8, messages: 2 }]);
    assert_eq!(s.receive_messages_delivery_proof(LANE, &p, declared), Err(BridgeError::InvalidMessagesProof));
    let p = delivery_proof(1, vec![]);
    assert_eq!(s.receive_messages_delivery_proof(LANE, &p, declared), Err(BridgeError::InvalidMessagesProof));
    assert_eq!(s.reward_balance(7, bridged_account()), 0);
    assert_eq!(s.lane_state(LANE).latest_confirmed_nonce, 0);
}

#[test]
fn confirmation_checks() {
    let mut s = delivered();
    let declared = UnrewardedRelayersState { unrewarded_relayer_entries: 1, total_messages: 1 };
    let r = s.receive_messages_delivery_proof(LANE, &delivery_proof(2, vec![]), declared);
    assert_eq!(r, Err(BridgeError::NonceSequenceViolation));
    let wrong = UnrewardedRelayersState { unrewarded_relayer_entries: 0, total_messages: 1 };
    let r = s.receive_messages_delivery_proof(LANE, &delivery_proof(1, vec![]), wrong);
    assert_eq!(r, Err(BridgeError::InvalidUnrewardedRelayersState));
    let r = s.receive_messages_delivery_proof(LANE + 1, &delivery_proof(1, vec![]), declared);
    assert_eq!(r, Err(BridgeError::InvalidMessagesProof));
    let mut p = delivery_proof(1, vec![]);
    p.para_head_hash = 3;
    assert_eq!(s.receive_messages_delivery_proof(LANE, &p, declared), Err(BridgeError::UnknownParachainHead));
    assert_eq!(s.lane_state(LANE).latest_confirmed_nonce, 0);
    let one = vec![DeliveredMessages { relayer: 7, messages: 1 }];
    s.receive_messages_delivery_proof(LANE, &delivery_proof(1, one), declared).unwrap();
    let l = s.lane_state(LANE);
    assert!(l.latest_confirmed_nonce <= l.latest_received_nonce);
    assert_eq!(l.unrewarded, UnrewardedRelayersState { unrewarded_relayer_entries: 0, total_messages: 0 });
}

#[test]
fn rewards_only_grow_and_saturate() {
    let mut s = fresh();
    s.register_reward(RELAYER, bridged_account(), 5);
    s.register_reward(RELAYER, bridged_account(), 7);
    assert_eq!(s.reward_balance(RELAYER, bridged_account()), 12);
    assert_eq!(s.reward_balance(RELAYER, this_chain_account()), 0);
    let other_lane = RewardsAccountParams { lane: 9, chain_id: CHAIN, owner: RewardsAccountOwner::BridgedChain };
    assert_eq!(s.reward_balance(RELAYER, other_lane), 0);
    s.register_reward(RELAYER, bridged_account(), u64::MAX);
    assert_eq!(s.reward_balance(RELAYER, bridged_account()), u64::MAX);
    s.register_reward(RELAYER, bridged_account(), 1);
    assert_eq!(s.reward_balance(RELAYER, bridged_account()), u64::MAX);
}

#[test]
fn fee_of_failing_batch_names_the_step() {
    let s = fresh();
    let mut steps = delivery_steps(1);
    steps.remove(0);
    assert_eq!(
        s.estimate_fee(&steps, schedule()),
        Err(FeeError::Batch(BatchError { step: 0, error: BridgeError::UnknownRelayAnchor }))
    );
}

#[test]
fn fee_with_largest_prices() {
    let huge = FeeSchedule { base_fee: u64::MAX, per_step_fee: u64::MAX, per_byte_fee: u64::MAX };
    let steps = delivery_steps(1);
    assert_eq!(
        compute_fee(huge, &steps),
        // base, three steps, five billable units
        Some(u64::MAX as u128 * (1 + 3 + 5))
    );
    let empty: Vec<Step> = vec![];
    assert_eq!(compute_fee(schedule(), &empty), Some(1000));
    let s = fresh();
    assert_eq!(s.estimate_fee(&empty, schedule()), Ok(1000));
}

fn messages_with_nonces(nonces: &[u64]) -> MessagesProof {
    let mut p = messages(1, 0, 0);
    for n in nonces {
        p.messages.push(Message { nonce: *n, payload: vec![1, 2] });
    }
    p
}

#[test]
fn out_of_order_nonces_are_a_sequence_violation() {
    let mut s = delivered();
    s.receive_messages_proof(LANE, RELAYER, &messages(2, 3, 4), 3, 1_000_000_000).unwrap();
    assert_eq!(s.lane_state(LANE).latest_received_nonce, 4);
    let r = s.receive_messages_proof(LANE, RELAYER, &messages_with_nonces(&[5, 3]), 2, 1_000_000_000);
    assert_eq!(r, Err(BridgeError::NonceSequenceViolation));
    let r = s.receive_messages_proof(LANE, RELAYER, &messages_with_nonces(&[4, 3]), 2, 1_000_000_000);
    assert_eq!(r, Err(BridgeError::NonceSequenceViolation));
    // overlapping the delivered range is no replay
    let r = s.receive_messages_proof(LANE, RELAYER, &messages_with_nonces(&[4, 5]), 2, 1_000_000_000);
    assert_eq!(r, Err(BridgeError::NonceSequenceViolation));
    // an already delivered range is
    let r = s.receive_messages_proof(LANE, RELAYER, &messages_with_nonces(&[3, 4]), 2, 1_000_000_000);
    assert_eq!(r, Err(BridgeError::StaleProof));
    assert_eq!(s.lane_state(LANE).latest_received_nonce, 4);
    s.receive_messages_proof(LANE, RELAYER, &messages_with_nonces(&[5, 6]), 2, 1_000_000_000).unwrap();
    assert_eq!(s.lane_state(LANE).latest_received_nonce, 6);
}

#[test]
fn dispatch_failure_is_reported_and_delivery_stays() {
    let mut s = delivered();
    let p = messages(2, 3, 4);
    let plan = s.receive_messages_proof(LANE, RELAYER, &p, 3, 1_000_000_000).unwrap();
    assert_eq!(plan, vec![true, true, true]);
    let failure = dispatch_failures(&p, &vec![true, false, true]).unwrap_err();
    assert_eq!(failure.failed_nonces, vec![3]);
    assert_eq!(s.lane_state(LANE).latest_received_nonce, 4);
    assert!(dispatch_failures(&p, &vec![true, true, true]).is_ok());
    let missing = dispatch_failures(&p, &vec![true]).unwrap_err();
    assert_eq!(missing.failed_nonces, vec![3, 4]);
}

#[test]
fn batch_hands_back_dispatch_plans() {
    let mut s = fresh();
    let mut steps = delivery_steps(8);
    if let Step::Messages { declared_weight, .. } = &mut steps[2] {
        *declared_weight = 4;
    }
    assert_eq!(s.run_batch(&steps), Ok(vec![vec![], vec![], vec![false]]));
    assert_eq!(s.lane_state(LANE).latest_received_nonce, 1);
}
