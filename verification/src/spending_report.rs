//! Possible duplicate charges in the spending report.
//!
//! Two transactions are the same charge when they have the same merchant, the
//! same amount in whole cents and the same date. Each group of such charges is
//! reported once, at the transaction where the group's second member appears.

use vstd::prelude::*;

use crate::text::str_equals;

verus! {

/// What identifies a charge when looking for duplicates. The amount is the
/// transaction amount rounded to whole cents.
#[derive(Debug, Clone, PartialEq)]
pub struct ChargeKey {
    pub merchant: String,
    pub amount_cents: i64,
    pub date: String,
}

pub open spec fn same_charge(a: ChargeKey, b: ChargeKey) -> bool {
    a.merchant@ == b.merchant@ && a.amount_cents == b.amount_cents && a.date@ == b.date@
}

/// How many of the first `n` keys are the same charge as `x`.
pub open spec fn count_same(keys: Seq<ChargeKey>, x: ChargeKey, n: int) -> nat
    decreases n,
{
    if n <= 0 {
        0
    } else {
        count_same(keys, x, n - 1) + if same_charge(keys[n - 1], x) {
            1nat
        } else {
            0nat
        }
    }
}

/// The charge at `p` is the second of its group: exactly one earlier charge is the same.
pub open spec fn is_second_of_group(keys: Seq<ChargeKey>, p: int) -> bool {
    count_same(keys, keys[p], p) == 1
}

/// The positions among the first `n` keys at which a group's second member appears, in order.
pub open spec fn duplicate_positions(keys: Seq<ChargeKey>, n: int) -> Seq<usize>
    decreases n,
{
    if n <= 0 {
        seq![]
    } else if is_second_of_group(keys, n - 1) {
        duplicate_positions(keys, n - 1).push((n - 1) as usize)
    } else {
        duplicate_positions(keys, n - 1)
    }
}

fn same_key(a: &ChargeKey, b: &ChargeKey) -> (r: bool)
    ensures
        r == same_charge(*a, *b),
{
    a.amount_cents == b.amount_cents && str_equals(a.merchant.as_str(), b.merchant.as_str())
        && str_equals(a.date.as_str(), b.date.as_str())
}

/// Find transactions with the same merchant, amount and date: the position of
/// each group's second member, in order, so that every group is reported once.
pub fn find_possible_duplicates(keys: &[ChargeKey]) -> (r: Vec<usize>)
    ensures
        r@ == duplicate_positions(keys@, keys@.len() as int),
{
    let mut out: Vec<usize> = Vec::new();
    let mut i: usize = 0;
    while i < keys.len()
        invariant
            0 <= i <= keys.len(),
            out@ == duplicate_positions(keys@, i as int),
        decreases keys.len() - i,
    {
        let mut seen: usize = 0;
        let mut j: usize = 0;
        while j < i
            invariant
                0 <= j <= i < keys.len(),
                seen == count_same(keys@, keys@[i as int], j as int),
                seen <= j,
            decreases i - j,
        {
            if same_key(&keys[j], &keys[i]) {
                seen = seen + 1;
            }
            j = j + 1;
        }
        if seen == 1 {
            out.push(i);
        }
        i = i + 1;
    }
    out
}

/// Each group is reported at most once: no two reported positions are the same charge.
pub proof fn law_each_group_reported_once(keys: Seq<ChargeKey>, a: int, b: int)
    requires
        0 <= a < b < keys.len(),
        is_second_of_group(keys, a),
        is_second_of_group(keys, b),
    ensures
        !same_charge(keys[a], keys[b]),
{
    if same_charge(keys[a], keys[b]) {
        // every charge the same as `a` is the same as `b`, and `a` itself is one more
        lemma_count_same_congruent(keys, keys[a], keys[b], a);
        lemma_count_same_monotone(keys, keys[b], a + 1, b);
        assert(count_same(keys, keys[b], a + 1) == count_same(keys, keys[b], a) + 1);
    }
}

proof fn lemma_count_same_congruent(keys: Seq<ChargeKey>, x: ChargeKey, y: ChargeKey, n: int)
    requires
        same_charge(x, y),
    ensures
        count_same(keys, x, n) == count_same(keys, y, n),
    decreases n,
{
    if n > 0 {
        lemma_count_same_congruent(keys, x, y, n - 1);
    }
}

proof fn lemma_count_same_monotone(keys: Seq<ChargeKey>, x: ChargeKey, m: int, n: int)
    requires
        m <= n,
    ensures
        count_same(keys, x, m) <= count_same(keys, x, n),
    decreases n - m,
{
    if m < n {
        lemma_count_same_monotone(keys, x, m, n - 1);
    }
}

} // verus!
