//! The cost model used to price a batch before submission.
use vstd::prelude::*;
use crate::types::{Message, Step};

verus! {

/// Prices of a batch: a base fee, a fee per step, and a fee per byte of proof.
#[derive(Clone, Copy, Debug, PartialEq, Eq, Structural)]
pub struct FeeSchedule {
    pub base_fee: u64,
    pub per_step_fee: u64,
    pub per_byte_fee: u64,
}

/// A schedule prices every byte: a larger payload always costs more.
pub open spec fn valid_schedule(f: FeeSchedule) -> bool {
    f.per_byte_fee > 0
}

/// Total payload bytes of a list of messages.
pub open spec fn payload_bytes(ms: Seq<Message>) -> int
    decreases ms.len(),
{
    if ms.len() == 0 {
        0
    } else {
        payload_bytes(ms.drop_last()) + ms.last().payload@.len()
    }
}

/// The billable size of a step: one unit per precommit, per proven trie entry,
/// per payload byte, or per confirmed relayer entry.
pub open spec fn step_bytes(s: Step) -> int {
    match s {
        Step::Finality { header, proof } => proof.signed@.len() as int,
        Step::ParachainHeads { anchor_number, anchor_hash, heads, proof } => proof.entries@.len() as int,
        Step::Messages { lane, relayer, proof, declared_count, declared_weight } => payload_bytes(
            proof.messages@,
        ),
        Step::Confirmation { lane, proof, declared } => proof.relayers@.len() as int,
    }
}

pub open spec fn step_fee(f: FeeSchedule, s: Step) -> int {
    f.per_step_fee + f.per_byte_fee * step_bytes(s)
}

pub open spec fn steps_fee(f: FeeSchedule, steps: Seq<Step>) -> int
    decreases steps.len(),
{
    if steps.len() == 0 {
        0
    } else {
        steps_fee(f, steps.drop_last()) + step_fee(f, steps.last())
    }
}

/// The fee of a batch.
pub open spec fn batch_fee(f: FeeSchedule, steps: Seq<Step>) -> int {
    f.base_fee + steps_fee(f, steps)
}

pub proof fn lemma_payload_bytes_prefix(ms: Seq<Message>, i: int)
    requires
        0 <= i <= ms.len(),
    ensures
        0 <= payload_bytes(ms.take(i)) <= payload_bytes(ms),
    decreases ms.len() - i,
{
    lemma_payload_bytes_nonneg(ms.take(i));
    if i < ms.len() {
        lemma_payload_bytes_prefix(ms, i + 1);
        assert(ms.take(i + 1).drop_last() =~= ms.take(i));
    } else {
        assert(ms.take(i) =~= ms);
    }
}

pub proof fn lemma_payload_bytes_nonneg(ms: Seq<Message>)
    ensures
        payload_bytes(ms) >= 0,
    decreases ms.len(),
{
    if ms.len() > 0 {
        lemma_payload_bytes_nonneg(ms.drop_last());
    }
}

pub proof fn lemma_step_fee_nonneg(f: FeeSchedule, s: Step)
    ensures
        step_fee(f, s) >= 0,
{
    if let Step::Messages { proof, .. } = s {
        lemma_payload_bytes_nonneg(proof.messages@);
    }
    assert(f.per_byte_fee * step_bytes(s) >= 0) by (nonlinear_arith)
        requires
            step_bytes(s) >= 0,
    ;
}

pub proof fn lemma_steps_fee_nonneg(f: FeeSchedule, steps: Seq<Step>)
    ensures
        steps_fee(f, steps) >= 0,
    decreases steps.len(),
{
    if steps.len() > 0 {
        lemma_steps_fee_nonneg(f, steps.drop_last());
        lemma_step_fee_nonneg(f, steps.last());
    }
}

pub proof fn lemma_steps_fee_prefix(f: FeeSchedule, steps: Seq<Step>, i: int)
    requires
        0 <= i <= steps.len(),
    ensures
        0 <= steps_fee(f, steps.take(i)) <= steps_fee(f, steps),
    decreases steps.len() - i,
{
    lemma_steps_fee_nonneg(f, steps.take(i));
    if i < steps.len() {
        lemma_steps_fee_prefix(f, steps, i + 1);
        assert(steps.take(i + 1).drop_last() =~= steps.take(i));
        lemma_step_fee_nonneg(f, steps[i]);
    } else {
        assert(steps.take(i) =~= steps);
    }
}

/// `per_byte * bytes(step)` for one step, or `None` when it exceeds `u128::MAX`.
fn byte_fee(f: FeeSchedule, s: &Step) -> (r: Option<u128>)
    ensures
        match r {
            Some(v) => v == f.per_byte_fee * step_bytes(*s),
            None => f.per_byte_fee * step_bytes(*s) > u128::MAX,
        },
{
    let count: usize = match s {
        Step::Finality { proof, .. } => proof.signed.len(),
        Step::ParachainHeads { proof, .. } => proof.entries.len(),
        Step::Confirmation { proof, .. } => proof.relayers.len(),
        Step::Messages { proof, .. } => {
            let ms = &proof.messages;
            assert(step_bytes(*s) == payload_bytes(ms@));
            let mut acc: u128 = 0;
            let mut i: usize = 0;
            while i < ms.len()
                invariant
                    i <= ms@.len(),
                    acc == f.per_byte_fee * payload_bytes(ms@.take(i as int)),
                    step_bytes(*s) == payload_bytes(ms@),
                decreases ms@.len() - i,
            {
                let ghost t = ms@.take(i + 1);
                assert(t.drop_last() =~= ms@.take(i as int));
                let len = ms[i].payload.len();
                assert(f.per_byte_fee * (len as int) <= u64::MAX as int * u64::MAX as int)
                    by (nonlinear_arith)
                    requires
                        len <= u64::MAX,
                ;
                let part: u128 = (f.per_byte_fee as u128) * (len as u128);
                assert(f.per_byte_fee * payload_bytes(t) == f.per_byte_fee * payload_bytes(
                    t.drop_last(),
                ) + f.per_byte_fee * (len as int)) by (nonlinear_arith)
                    requires
                        payload_bytes(t) == payload_bytes(t.drop_last()) + len,
                ;
                match acc.checked_add(part) {
                    Some(a) => {
                        acc = a;
                    },
                    None => {
                        proof {
                            lemma_payload_bytes_prefix(ms@, i + 1);
                            assert(f.per_byte_fee * payload_bytes(t) <= f.per_byte_fee
                                * payload_bytes(ms@)) by (nonlinear_arith)
                                requires
                                    payload_bytes(t) <= payload_bytes(ms@),
                                    f.per_byte_fee >= 0,
                            ;
                        }
                        return None;
                    },
                }
                i = i + 1;
            }
            assert(ms@.take(i as int) =~= ms@);
            return Some(acc);
        },
    };
    assert(f.per_byte_fee * (count as int) <= u64::MAX as int * u64::MAX as int) by (nonlinear_arith)
        requires
            count <= u64::MAX,
    ;
    Some((f.per_byte_fee as u128) * (count as u128))
}

/// The fee of a batch, or `None` when it exceeds `u128::MAX`.
pub fn compute_fee(f: FeeSchedule, steps: &Vec<Step>) -> (r: Option<u128>)
    requires
        valid_schedule(f),
    ensures
        match r {
            Some(v) => v == batch_fee(f, steps@),
            None => batch_fee(f, steps@) > u128::MAX,
        },
{
    let mut acc: u128 = f.base_fee as u128;
    let mut i: usize = 0;
    while i < steps.len()
        invariant
            i <= steps@.len(),
            acc == f.base_fee + steps_fee(f, steps@.take(i as int)),
        decreases steps@.len() - i,
    {
        let ghost t = steps@.take(i + 1);
        assert(t.drop_last() =~= steps@.take(i as int));
        proof {
            lemma_steps_fee_prefix(f, steps@, i + 1);
            lemma_step_fee_nonneg(f, steps@[i as int]);
        }
        let part = match byte_fee(f, &steps[i]) {
            Some(p) => p,
            None => {
                return None;
            },
        };
        let next = match acc.checked_add(f.per_step_fee as u128) {
            Some(a) => a.checked_add(part),
            None => None,
        };
        match next {
            Some(a) => {
                acc = a;
            },
            None => {
                return None;
            },
        }
        i = i + 1;
    }
    assert(steps@.take(i as int) =~= steps@);
    Some(acc)
}

} // verus!
