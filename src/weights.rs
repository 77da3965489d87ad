//! Authority-set weights and the two-thirds quorum rule.
use vstd::prelude::*;

verus! {

/// Total weight of an authority set.
pub open spec fn total_weight(w: Seq<u64>) -> int
    decreases w.len(),
{
    if w.len() == 0 {
        0
    } else {
        total_weight(w.drop_last()) + w.last()
    }
}

/// Weight of the authorities marked in `s` (positions past the end of `s` do not count).
pub open spec fn signed_weight(w: Seq<u64>, s: Seq<bool>) -> int
    decreases w.len(),
{
    if w.len() == 0 {
        0
    } else {
        signed_weight(w.drop_last(), s) + if w.len() - 1 < s.len() && s[w.len() - 1] {
            w.last() as int
        } else {
            0
        }
    }
}

/// An authority set is usable when it is non-empty, has positive total weight,
/// and that total fits in a `u64`.
pub open spec fn valid_authority_set(w: Seq<u64>) -> bool {
    &&& w.len() > 0
    &&& total_weight(w) > 0
    &&& total_weight(w) <= u64::MAX
}

/// At least two thirds of the total weight signed.
pub open spec fn reaches_quorum(w: Seq<u64>, s: Seq<bool>) -> bool {
    3 * signed_weight(w, s) >= 2 * total_weight(w)
}

pub proof fn lemma_total_weight_nonneg(w: Seq<u64>)
    ensures
        total_weight(w) >= 0,
    decreases w.len(),
{
    if w.len() > 0 {
        lemma_total_weight_nonneg(w.drop_last());
    }
}

pub proof fn lemma_signed_le_total(w: Seq<u64>, s: Seq<bool>)
    ensures
        0 <= signed_weight(w, s) <= total_weight(w),
    decreases w.len(),
{
    if w.len() > 0 {
        lemma_signed_le_total(w.drop_last(), s);
    }
}

/// Weight of a prefix never exceeds the weight of the whole set.
pub proof fn lemma_prefix_total_le(w: Seq<u64>, i: int)
    requires
        0 <= i <= w.len(),
    ensures
        total_weight(w.take(i)) <= total_weight(w),
    decreases w.len() - i,
{
    if i < w.len() {
        lemma_prefix_total_le(w, i + 1);
        assert(w.take(i + 1).drop_last() =~= w.take(i));
    } else {
        assert(w.take(i) =~= w);
    }
}

/// Sums the weights of an authority set, or `None` when the total overflows a `u64`.
pub fn checked_total_weight(w: &Vec<u64>) -> (r: Option<u64>)
    ensures
        match r {
            Some(t) => t == total_weight(w@),
            None => total_weight(w@) > u64::MAX,
        },
{
    let mut acc: u64 = 0;
    let mut i: usize = 0;
    while i < w.len()
        invariant
            i <= w.len(),
            acc == total_weight(w@.take(i as int)),
        decreases w.len() - i,
    {
        assert(w@.take(i + 1).drop_last() =~= w@.take(i as int));
        match acc.checked_add(w[i]) {
            Some(a) => {
                acc = a;
            },
            None => {
                proof {
                    lemma_prefix_total_le(w@, i + 1);
                }
                return None;
            },
        }
        i = i + 1;
    }
    assert(w@.take(i as int) =~= w@);
    Some(acc)
}

/// Whether `w` is a usable authority set.
pub fn is_valid_authority_set(w: &Vec<u64>) -> (r: bool)
    ensures
        r == valid_authority_set(w@),
{
    if w.len() == 0 {
        return false;
    }
    match checked_total_weight(w) {
        Some(t) => t > 0,
        None => false,
    }
}

/// Whether the authorities marked in `signed` hold at least two thirds of the weight.
pub fn has_quorum(w: &Vec<u64>, signed: &Vec<bool>) -> (r: bool)
    requires
        valid_authority_set(w@),
    ensures
        r == reaches_quorum(w@, signed@),
{
    let mut total: u64 = 0;
    let mut acc: u64 = 0;
    let mut i: usize = 0;
    while i < w.len()
        invariant
            i <= w.len(),
            valid_authority_set(w@),
            total == total_weight(w@.take(i as int)),
            acc == signed_weight(w@.take(i as int), signed@),
        decreases w.len() - i,
    {
        let ghost p = w@.take(i + 1);
        assert(p.drop_last() =~= w@.take(i as int));
        proof {
            lemma_prefix_total_le(w@, i + 1);
            lemma_signed_le_total(p, signed@);
            lemma_signed_le_total(p.drop_last(), signed@);
        }
        total = total + w[i];
        if i < signed.len() && signed[i] {
            acc = acc + w[i];
        }
        i = i + 1;
    }
    assert(w@.take(i as int) =~= w@);
    3 * (acc as u128) >= 2 * (total as u128)
}

} // verus!
