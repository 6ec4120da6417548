//! Fixed-point probability and value arithmetic.
//!
//! Probabilities and payoffs are integers scaled by [`PROB_ONE`]: the
//! value `PROB_ONE` stands for probability `1`, and a payoff of one unit
//! of the game's stake is `PROB_ONE` as well.  All solver arithmetic is
//! done on these integers, so results are exact and reproducible.
//!
//! Strategies are normalised exactly: the remainder that floor division
//! leaves is assigned to the first most-probable action, so every
//! strategy vector sums to exactly `PROB_ONE`.

use vstd::arithmetic::div_mod::{
    lemma_div_is_ordered, lemma_div_multiples_vanish, lemma_div_pos_is_pos,
    lemma_fundamental_div_mod, lemma_mod_bound,
};
use vstd::arithmetic::mul::lemma_mul_inequality;
use vstd::prelude::*;

verus! {

/// One unit of probability (and of payoff) in fixed-point representation.
pub const PROB_ONE: u64 = 1_000_000;

/// The positive part of a regret value.
pub open spec fn pos_part(x: int) -> int {
    if x > 0 {
        x
    } else {
        0
    }
}

/// Sum of the positive parts of a regret vector.
pub open spec fn sum_pos(s: Seq<i64>) -> int
    decreases s.len(),
{
    if s.len() == 0 {
        0
    } else {
        sum_pos(s.drop_last()) + pos_part(s.last() as int)
    }
}

/// Plain sum of a vector of accumulated strategy weights.
pub open spec fn sum_i64(s: Seq<i64>) -> int
    decreases s.len(),
{
    if s.len() == 0 {
        0
    } else {
        sum_i64(s.drop_last()) + s.last() as int
    }
}

/// Sum of a strategy vector (fixed-point probabilities).
pub open spec fn sum_u64(s: Seq<u64>) -> int
    decreases s.len(),
{
    if s.len() == 0 {
        0
    } else {
        sum_u64(s.drop_last()) + s.last() as int
    }
}

/// Sum of the first `n` entries of a sequence of integers.
pub open spec fn sum_int_upto(s: Seq<int>, n: int) -> int
    decreases n,
{
    if n <= 0 {
        0
    } else {
        sum_int_upto(s, n - 1) + s[n - 1]
    }
}

/// The positive parts of a regret vector, as plain integers.
pub open spec fn pos_vals(regrets: Seq<i64>) -> Seq<int> {
    Seq::new(regrets.len(), |i: int| pos_part(regrets[i] as int))
}

/// A strategy-sum vector, as plain integers.
pub open spec fn int_vals(sums: Seq<i64>) -> Seq<int> {
    Seq::new(sums.len(), |i: int| sums[i] as int)
}

/// The first index of the maximum among the first `n` entries, with
/// earlier indices winning ties.
pub open spec fn first_max_upto(v: Seq<int>, n: int) -> int
    decreases n,
{
    if n <= 1 {
        0
    } else {
        let p = first_max_upto(v, n - 1);
        if v[n - 1] > v[p] {
            n - 1
        } else {
            p
        }
    }
}

/// The first maximum is a maximum, and in range.
pub proof fn lemma_first_max_upto(v: Seq<int>, n: int)
    requires
        1 <= n <= v.len(),
    ensures
        0 <= first_max_upto(v, n) < n,
        forall|i: int| 0 <= i < n ==> #[trigger] v[i] <= v[first_max_upto(v, n)],
    decreases n,
{
    if n > 1 {
        lemma_first_max_upto(v, n - 1);
    }
}

/// The plain floor shares of the values against their own total.
pub open spec fn floor_shares(vals: Seq<int>) -> Seq<int> {
    let s = sum_int_upto(vals, vals.len() as int);
    Seq::new(vals.len(), |i: int| vals[i] * PROB_ONE as int / s)
}

/// What floor division left over: the gap between `PROB_ONE` and the
/// floor shares' total.
pub open spec fn share_remainder(vals: Seq<int>) -> int {
    PROB_ONE as int - sum_int_upto(floor_shares(vals), vals.len() as int)
}

/// Floor shares of a positive total, with the division remainder
/// assigned to the first largest value: each share is
/// `vals[i] * PROB_ONE / total` and the first maximal entry also gets
/// what floor division left over, so the shares sum exactly to
/// `PROB_ONE`.
pub open spec fn exact_shares(vals: Seq<int>) -> Seq<u64> {
    let q = floor_shares(vals);
    let m = first_max_upto(vals, vals.len() as int);
    let rem = share_remainder(vals);
    Seq::new(
        vals.len(),
        |i: int|
            if i == m {
                (q[i] + rem) as u64
            } else {
                q[i] as u64
            },
    )
}

/// The uniform strategy over `n` actions: every entry is
/// `PROB_ONE / n`, with the division remainder on the first action so
/// the entries sum exactly to `PROB_ONE`.
pub open spec fn uniform_strategy(n: nat) -> Seq<u64> {
    Seq::new(
        n,
        |i: int|
            if i == 0 {
                (PROB_ONE as int / n as int + PROB_ONE as int % n as int) as u64
            } else {
                (PROB_ONE as int / n as int) as u64
            },
    )
}

/// Regret matching: each action's probability is its positive regret's
/// exact share of the total positive regret; if no regret is positive
/// the strategy is uniform over the vector's length.
pub open spec fn matched_strategy(regrets: Seq<i64>) -> Seq<u64> {
    if sum_pos(regrets) > 0 {
        exact_shares(pos_vals(regrets))
    } else {
        uniform_strategy(regrets.len())
    }
}

/// Normalisation of accumulated strategy weights: each action's
/// probability is its weight's exact share of the total; if the total
/// is not positive the strategy is uniform.
pub open spec fn normalized_strategy(sums: Seq<i64>) -> Seq<u64> {
    if sum_i64(sums) > 0 {
        exact_shares(int_vals(sums))
    } else {
        uniform_strategy(sums.len())
    }
}

/// Every element is bounded by the sum of positive parts.
pub proof fn lemma_pos_le_sum_pos(s: Seq<i64>, i: int)
    requires
        0 <= i < s.len(),
    ensures
        pos_part(s[i] as int) <= sum_pos(s),
        sum_pos(s) >= 0,
    decreases s.len(),
{
    if s.len() > 0 {
        if i == s.len() - 1 {
            lemma_sum_pos_nonneg(s.drop_last());
        } else {
            lemma_pos_le_sum_pos(s.drop_last(), i);
            assert(s.drop_last()[i] == s[i]);
        }
    }
}

/// The sum of positive parts is never negative.
pub proof fn lemma_sum_pos_nonneg(s: Seq<i64>)
    ensures
        sum_pos(s) >= 0,
    decreases s.len(),
{
    if s.len() > 0 {
        lemma_sum_pos_nonneg(s.drop_last());
    }
}

/// A vector of non-negative entries has a non-negative sum, and each
/// entry is bounded by the sum.
pub proof fn lemma_sum_i64_bounds(s: Seq<i64>, i: int)
    requires
        0 <= i < s.len(),
        forall|j: int| 0 <= j < s.len() ==> s[j] >= 0,
    ensures
        0 <= s[i] as int <= sum_i64(s),
        sum_i64(s) >= 0,
    decreases s.len(),
{
    if s.len() > 0 {
        if i == s.len() - 1 {
            lemma_sum_i64_nonneg(s.drop_last());
        } else {
            lemma_sum_i64_bounds(s.drop_last(), i);
            assert(s.drop_last()[i] == s[i]);
        }
    }
}

/// Sum of a vector of non-negative entries is non-negative.
pub proof fn lemma_sum_i64_nonneg(s: Seq<i64>)
    requires
        forall|j: int| 0 <= j < s.len() ==> s[j] >= 0,
    ensures
        sum_i64(s) >= 0,
    decreases s.len(),
{
    if s.len() > 0 {
        assert(forall|j: int| 0 <= j < s.drop_last().len() ==> s.drop_last()[j] >= 0);
        lemma_sum_i64_nonneg(s.drop_last());
    }
}

/// Sum of the first `n` entries of a strategy vector.
pub open spec fn sum_u64_upto(s: Seq<u64>, n: int) -> int
    decreases n,
{
    if n <= 0 {
        0
    } else {
        sum_u64_upto(s, n - 1) + s[n - 1] as int
    }
}

/// `sum_u64` agrees with the prefix sum over the whole vector.
pub proof fn lemma_sum_u64_upto_full(s: Seq<u64>)
    ensures
        sum_u64(s) == sum_u64_upto(s, s.len() as int),
    decreases s.len(),
{
    if s.len() > 0 {
        lemma_sum_u64_upto_full(s.drop_last());
        lemma_sum_u64_upto_agree(s.drop_last(), s, s.len() as int - 1);
    }
}

/// Prefix sums agree on a common prefix.
proof fn lemma_sum_u64_upto_agree(a: Seq<u64>, b: Seq<u64>, n: int)
    requires
        n <= a.len(),
        n <= b.len(),
        forall|i: int| 0 <= i < n ==> a[i] == b[i],
    ensures
        sum_u64_upto(a, n) == sum_u64_upto(b, n),
    decreases n,
{
    if n > 0 {
        lemma_sum_u64_upto_agree(a, b, n - 1);
    }
}

/// Sum of positive parts over a prefix.
pub open spec fn sum_pos_upto(s: Seq<i64>, n: int) -> int
    decreases n,
{
    if n <= 0 {
        0
    } else {
        sum_pos_upto(s, n - 1) + pos_part(s[n - 1] as int)
    }
}

/// `sum_pos` agrees with its prefix form over the whole vector.
pub proof fn lemma_sum_pos_upto_full(s: Seq<i64>)
    ensures
        sum_pos(s) == sum_pos_upto(s, s.len() as int),
    decreases s.len(),
{
    if s.len() > 0 {
        lemma_sum_pos_upto_full(s.drop_last());
        lemma_sum_pos_upto_agree(s.drop_last(), s, s.len() as int - 1);
    }
}

proof fn lemma_sum_pos_upto_agree(a: Seq<i64>, b: Seq<i64>, n: int)
    requires
        n <= a.len(),
        n <= b.len(),
        forall|i: int| 0 <= i < n ==> a[i] == b[i],
    ensures
        sum_pos_upto(a, n) == sum_pos_upto(b, n),
    decreases n,
{
    if n > 0 {
        lemma_sum_pos_upto_agree(a, b, n - 1);
    }
}

/// Sum of `i64` entries over a prefix.
pub open spec fn sum_i64_upto(s: Seq<i64>, n: int) -> int
    decreases n,
{
    if n <= 0 {
        0
    } else {
        sum_i64_upto(s, n - 1) + s[n - 1] as int
    }
}

/// `sum_i64` agrees with its prefix form over the whole vector.
pub proof fn lemma_sum_i64_upto_full(s: Seq<i64>)
    ensures
        sum_i64(s) == sum_i64_upto(s, s.len() as int),
    decreases s.len(),
{
    if s.len() > 0 {
        lemma_sum_i64_upto_full(s.drop_last());
        lemma_sum_i64_upto_agree(s.drop_last(), s, s.len() as int - 1);
    }
}

proof fn lemma_sum_i64_upto_agree(a: Seq<i64>, b: Seq<i64>, n: int)
    requires
        n <= a.len(),
        n <= b.len(),
        forall|i: int| 0 <= i < n ==> a[i] == b[i],
    ensures
        sum_i64_upto(a, n) == sum_i64_upto(b, n),
    decreases n,
{
    if n > 0 {
        lemma_sum_i64_upto_agree(a, b, n - 1);
    }
}

/// `sum_pos` equals the plain-integer sum of the positive parts.
pub proof fn lemma_sum_pos_matches_int(regrets: Seq<i64>, n: int)
    requires
        0 <= n <= regrets.len(),
    ensures
        sum_int_upto(pos_vals(regrets), n) == sum_pos_upto(regrets, n),
    decreases n,
{
    if n > 0 {
        lemma_sum_pos_matches_int(regrets, n - 1);
    }
}

/// `sum_i64` equals the plain-integer sum of the entries.
pub proof fn lemma_sum_i64_matches_int(sums: Seq<i64>, n: int)
    requires
        0 <= n <= sums.len(),
    ensures
        sum_int_upto(int_vals(sums), n) == sum_i64_upto(sums, n),
    decreases n,
{
    if n > 0 {
        lemma_sum_i64_matches_int(sums, n - 1);
    }
}

/// The floor-share prefix sums, sandwiched: `n` floor shares of a
/// positive total lose less than one unit each against the exact
/// proportion.
proof fn lemma_floor_share_sums(vals: Seq<int>, q: Seq<int>, s: int, n: int)
    requires
        0 < s,
        0 <= n <= vals.len(),
        q.len() == vals.len(),
        forall|i: int| 0 <= i < vals.len() ==> vals[i] >= 0,
        forall|i: int| 0 <= i < vals.len() ==> #[trigger] q[i] == vals[i] * PROB_ONE as int / s,
    ensures
        s * sum_int_upto(q, n) <= PROB_ONE as int * sum_int_upto(vals, n),
        s * sum_int_upto(q, n) >= PROB_ONE as int * sum_int_upto(vals, n) - n * s + n,
    decreases n,
{
    if n > 0 {
        lemma_floor_share_sums(vals, q, s, n - 1);
        let v = vals[n - 1];
        let qq = v * PROB_ONE as int / s;
        assert(q[n - 1] == qq);
        lemma_fundamental_div_mod(v * PROB_ONE as int, s);
        lemma_mod_bound(v * PROB_ONE as int, s);
        let m = (v * PROB_ONE as int) % s;
        assert(v * PROB_ONE as int == s * qq + m);
        assert(0 <= m < s);
        let p0 = sum_int_upto(q, n - 1);
        let v0 = sum_int_upto(vals, n - 1);
        assert(sum_int_upto(q, n) == p0 + qq);
        assert(sum_int_upto(vals, n) == v0 + v);
        assert(s * (p0 + qq) == s * p0 + s * qq) by (nonlinear_arith);
        assert(PROB_ONE as int * (v0 + v) == PROB_ONE as int * v0 + PROB_ONE as int * v)
            by (nonlinear_arith);
        assert(PROB_ONE as int * v == v * PROB_ONE as int) by (nonlinear_arith);
        assert(n * s == (n - 1) * s + s) by (nonlinear_arith);
        assert(s * qq == v * PROB_ONE as int - m);
    }
}

/// A single floor share of a non-negative value against a positive
/// total that dominates it lies between zero and `PROB_ONE`.
pub proof fn lemma_share_in_range(v: int, s: int)
    requires
        0 <= v <= s,
        0 < s,
    ensures
        0 <= v * PROB_ONE as int / s <= PROB_ONE as int,
{
    lemma_mul_inequality(v, s, PROB_ONE as int);
    lemma_div_is_ordered(v * PROB_ONE as int, s * PROB_ONE as int, s);
    assert(s * PROB_ONE as int == PROB_ONE as int * s) by (nonlinear_arith);
    lemma_div_multiples_vanish(PROB_ONE as int, s);
    lemma_div_pos_is_pos(v * PROB_ONE as int, s);
    assert(v * PROB_ONE as int >= 0) by (nonlinear_arith)
        requires
            v >= 0;
}

/// Prefix sums of non-negative integers are monotone and dominate
/// every element.
proof fn lemma_sum_int_upto_bounds(s: Seq<int>, i: int, n: int)
    requires
        0 <= i < n <= s.len(),
        forall|j: int| 0 <= j < s.len() ==> s[j] >= 0,
    ensures
        sum_int_upto(s, n) >= s[i],
        sum_int_upto(s, n) >= 0,
    decreases n,
{
    lemma_sum_int_upto_nonneg(s, n - 1);
    if i < n - 1 {
        lemma_sum_int_upto_bounds(s, i, n - 1);
    }
}

proof fn lemma_sum_int_upto_nonneg(s: Seq<int>, n: int)
    requires
        n <= s.len(),
        forall|j: int| 0 <= j < s.len() ==> s[j] >= 0,
    ensures
        sum_int_upto(s, n) >= 0,
    decreases (if n > 0 { n } else { 0 }),
{
    if n > 0 {
        lemma_sum_int_upto_nonneg(s, n - 1);
    }
}

/// The exact-share construction: every entry is its floor share,
/// except the first maximal entry, which also carries the remainder;
/// the entries lie in `[0, PROB_ONE]` and sum to exactly `PROB_ONE`.
pub proof fn lemma_exact_shares(vals: Seq<int>)
    requires
        vals.len() >= 1,
        forall|i: int| 0 <= i < vals.len() ==> vals[i] >= 0,
        sum_int_upto(vals, vals.len() as int) > 0,
    ensures
        ({
            let n = vals.len() as int;
            let s = sum_int_upto(vals, n);
            let m = first_max_upto(vals, n);
            let e = exact_shares(vals);
            &&& e.len() == n
            &&& 0 <= m < n
            &&& 0 <= share_remainder(vals) < n
            &&& forall|i: int|
                0 <= i < n && i != m ==> (#[trigger] e[i]) as int == vals[i] * PROB_ONE as int / s
            &&& e[m] as int == floor_shares(vals)[m] + share_remainder(vals)
            &&& forall|i: int| 0 <= i < n ==> (#[trigger] e[i]) <= PROB_ONE
            &&& sum_u64(e) == PROB_ONE as int
        }),
{
    let n = vals.len() as int;
    let s = sum_int_upto(vals, n);
    let q = floor_shares(vals);
    let m = first_max_upto(vals, n);
    let rem = share_remainder(vals);
    let e = exact_shares(vals);
    lemma_first_max_upto(vals, n);
    // Each floor share is a probability.
    assert forall|i: int| 0 <= i < n implies 0 <= #[trigger] q[i] <= PROB_ONE as int by {
        lemma_sum_int_upto_bounds(vals, i, n);
        lemma_share_in_range(vals[i], s);
    }
    // The floor shares sum to within `n` units of `PROB_ONE`.
    lemma_floor_share_sums(vals, q, s, n);
    assert(s * sum_int_upto(q, n) <= PROB_ONE as int * s);
    assert(s * sum_int_upto(q, n) >= PROB_ONE as int * s - n * s + n);
    assert(sum_int_upto(q, n) <= PROB_ONE as int) by (nonlinear_arith)
        requires
            s > 0,
            s * sum_int_upto(q, n) <= PROB_ONE as int * s;
    assert(sum_int_upto(q, n) > PROB_ONE as int - n) by (nonlinear_arith)
        requires
            s > 0,
            n >= 1,
            s * sum_int_upto(q, n) >= PROB_ONE as int * s - n * s + n;
    assert(0 <= rem < n);
    // The bumped entry still fits: its floor share plus the remainder
    // is at most the full unit.
    lemma_sum_q_dominates(q, m, n);
    assert(q[m] + rem <= PROB_ONE as int);
    // Pointwise description and the exact total.
    assert forall|i: int| 0 <= i < n && i != m implies (#[trigger] e[i]) as int == vals[i]
        * PROB_ONE as int / s by {}
    lemma_exact_shares_sum(e, q, m, rem, n);
    lemma_sum_u64_upto_full(e);
}

/// A non-negative prefix sum dominates each of its entries.
proof fn lemma_sum_q_dominates(q: Seq<int>, m: int, n: int)
    requires
        0 <= m < n <= q.len(),
        forall|i: int| 0 <= i < n ==> 0 <= #[trigger] q[i],
    ensures
        sum_int_upto(q, n) >= q[m],
    decreases n,
{
    lemma_sum_int_upto_nonneg_partial(q, n - 1);
    if m < n - 1 {
        lemma_sum_q_dominates(q, m, n - 1);
    }
}

proof fn lemma_sum_int_upto_nonneg_partial(q: Seq<int>, n: int)
    requires
        n <= q.len(),
        forall|i: int| 0 <= i < n ==> 0 <= #[trigger] q[i],
    ensures
        sum_int_upto(q, n) >= 0,
    decreases (if n > 0 { n } else { 0 }),
{
    if n > 0 {
        lemma_sum_int_upto_nonneg_partial(q, n - 1);
    }
}

/// The prefix sums of the bumped sequence exceed those of the floor
/// shares by the remainder, once past the bumped index.
proof fn lemma_exact_shares_sum(e: Seq<u64>, q: Seq<int>, m: int, rem: int, k: int)
    requires
        0 <= m < e.len(),
        0 <= k <= e.len(),
        e.len() <= q.len(),
        forall|i: int| 0 <= i < e.len() && i != m ==> (#[trigger] e[i]) as int == q[i],
        e[m] as int == q[m] + rem,
    ensures
        sum_u64_upto(e, k) == sum_int_upto(q, k) + (if m < k {
            rem
        } else {
            0int
        }),
    decreases k,
{
    if k > 0 {
        lemma_exact_shares_sum(e, q, m, rem, k - 1);
    }
}

/// Every strategy that regret matching returns sums to exactly
/// `PROB_ONE`: the exact-share remainder assignment leaves no deficit.
pub proof fn lemma_matched_strategy_sum(regrets: Seq<i64>)
    requires
        regrets.len() >= 1,
    ensures
        sum_u64(matched_strategy(regrets)) == PROB_ONE as int,
{
    let n = regrets.len() as int;
    if sum_pos(regrets) > 0 {
        lemma_sum_pos_matches_int(regrets, n);
        lemma_sum_pos_upto_full(regrets);
        lemma_exact_shares(pos_vals(regrets));
    } else {
        lemma_uniform_strategy_sum(regrets.len());
    }
}

/// Every averaged strategy sums to exactly `PROB_ONE`.
pub proof fn lemma_normalized_strategy_sum(sums: Seq<i64>)
    requires
        sums.len() >= 1,
        forall|i: int| 0 <= i < sums.len() ==> sums[i] >= 0,
    ensures
        sum_u64(normalized_strategy(sums)) == PROB_ONE as int,
{
    let n = sums.len() as int;
    if sum_i64(sums) > 0 {
        lemma_sum_i64_matches_int(sums, n);
        lemma_sum_i64_upto_full(sums);
        lemma_exact_shares(int_vals(sums));
    } else {
        lemma_uniform_strategy_sum(sums.len());
    }
}

/// The uniform strategy sums to exactly `PROB_ONE`, and each entry is
/// a probability.
pub proof fn lemma_uniform_strategy_sum(n: nat)
    requires
        n > 0,
    ensures
        sum_u64(uniform_strategy(n)) == PROB_ONE as int,
        forall|i: int|
            0 <= i < n ==> #[trigger] uniform_strategy(n)[i] <= PROB_ONE,
{
    let share = PROB_ONE as int / n as int;
    let extra = PROB_ONE as int % n as int;
    lemma_div_pos_is_pos(PROB_ONE as int, n as int);
    lemma_mod_bound(PROB_ONE as int, n as int);
    lemma_fundamental_div_mod(PROB_ONE as int, n as int);
    assert(PROB_ONE as int == n as int * share + extra);
    // Entry bound: share + extra <= PROB_ONE, since the other n - 1
    // shares are non-negative.
    assert(n as int * share >= share) by (nonlinear_arith)
        requires
            n >= 1,
            share >= 0;
    lemma_uniform_sum_rec(n, n as int);
    lemma_sum_u64_upto_full(uniform_strategy(n));
    assert(sum_u64_upto(uniform_strategy(n), n as int) == n as int * share + extra);
}

proof fn lemma_uniform_sum_rec(n: nat, k: int)
    requires
        n > 0,
        0 <= k <= n,
    ensures
        sum_u64_upto(uniform_strategy(n), k) == k * (PROB_ONE as int / n as int) + (if k >= 1 {
            PROB_ONE as int % n as int
        } else {
            0int
        }),
    decreases k,
{
    let share = PROB_ONE as int / n as int;
    let extra = PROB_ONE as int % n as int;
    lemma_div_pos_is_pos(PROB_ONE as int, n as int);
    lemma_mod_bound(PROB_ONE as int, n as int);
    lemma_fundamental_div_mod(PROB_ONE as int, n as int);
    assert(n as int * share >= share) by (nonlinear_arith)
        requires
            n >= 1,
            share >= 0;
    if k > 0 {
        lemma_uniform_sum_rec(n, k - 1);
        assert(uniform_strategy(n)[k - 1] as int == (if k - 1 == 0 {
            share + extra
        } else {
            share
        }));
        assert(k * share == (k - 1) * share + share) by (nonlinear_arith);
    } else {
        assert(k * share == 0) by (nonlinear_arith)
            requires
                k == 0;
    }
}

/// Regret-matching monotonicity: an action with strictly more positive
/// regret never gets a smaller probability, and gets a strictly larger
/// one whenever the total positive regret is at most `PROB_ONE` (with
/// a larger total, two adjacent regrets can land in the same
/// fixed-point unit).
pub proof fn lemma_regret_matching_monotone(regrets: Seq<i64>, a: int, b: int)
    requires
        0 <= a < regrets.len(),
        0 <= b < regrets.len(),
        regrets[a] > regrets[b] > 0,
    ensures
        matched_strategy(regrets)[a] >= matched_strategy(regrets)[b],
        sum_pos(regrets) <= PROB_ONE ==> matched_strategy(regrets)[a] > matched_strategy(
            regrets,
        )[b],
{
    let n = regrets.len() as int;
    let vals = pos_vals(regrets);
    let s = sum_pos(regrets);
    lemma_pos_le_sum_pos(regrets, a);
    lemma_pos_le_sum_pos(regrets, b);
    assert(s > 0) by {
        assert(pos_part(regrets[b] as int) > 0);
    }
    lemma_sum_pos_matches_int(regrets, n);
    lemma_sum_pos_upto_full(regrets);
    lemma_exact_shares(vals);
    lemma_first_max_upto(vals, n);
    let m = first_max_upto(vals, n);
    let e = exact_shares(vals);
    let va = vals[a];
    let vb = vals[b];
    // The bumped index holds a maximal value, so it is never `b`.
    assert(m != b) by {
        assert(vals[m] >= vals[a]);
    }
    let qa = va * PROB_ONE as int / s;
    let qb = vb * PROB_ONE as int / s;
    assert(e[b] as int == qb);
    lemma_share_in_range(va, s);
    lemma_share_in_range(vb, s);
    lemma_mul_inequality(vb, va, PROB_ONE as int);
    lemma_div_is_ordered(vb * PROB_ONE as int, va * PROB_ONE as int, s);
    assert(qb <= qa);
    assert(e[a] as int >= qa);
    if s <= PROB_ONE as int {
        // va >= vb + 1, so va * PROB_ONE >= vb * PROB_ONE + s, and the
        // quotients differ by at least one.
        assert(va * PROB_ONE as int >= vb * PROB_ONE as int + PROB_ONE as int)
            by (nonlinear_arith)
            requires
                va >= vb + 1;
        lemma_fundamental_div_mod(vb * PROB_ONE as int, s);
        lemma_mod_bound(vb * PROB_ONE as int, s);
        assert((vb * PROB_ONE as int) < s * qb + s);
        assert(va * PROB_ONE as int >= s * (qb + 1)) by (nonlinear_arith)
            requires
                va * PROB_ONE as int >= s * qb + s;
        lemma_div_multiples_vanish(qb + 1, s);
        lemma_div_is_ordered(s * (qb + 1), va * PROB_ONE as int, s);
        assert(qa >= qb + 1);
    }
}

/// Zero-strategy-sum neutrality: when every accumulated strategy sum
/// is zero, the average strategy is uniform.
pub proof fn lemma_zero_strategy_sum_uniform(sums: Seq<i64>)
    requires
        forall|i: int| 0 <= i < sums.len() ==> sums[i] == 0,
    ensures
        normalized_strategy(sums) == uniform_strategy(sums.len()),
{
    assert(sum_i64(sums) == 0) by {
        lemma_sum_zero(sums);
    }
}

proof fn lemma_sum_zero(sums: Seq<i64>)
    requires
        forall|i: int| 0 <= i < sums.len() ==> sums[i] == 0,
    ensures
        sum_i64(sums) == 0,
    decreases sums.len(),
{
    if sums.len() > 0 {
        assert(forall|i: int| 0 <= i < sums.drop_last().len() ==> sums.drop_last()[i] == 0);
        lemma_sum_zero(sums.drop_last());
    }
}

/// Uniform fallback: a key the store has never seen gets the uniform
/// strategy from both queries.  This is the unseen branch of the two
/// query specifications, stated on its own.
pub proof fn lemma_uniform_fallback(
    store: crate::storage::RegretStorage,
    key: Seq<char>,
    n: nat,
)
    requires
        !crate::storage::spec_has_key(store@, key),
    ensures
        store.spec_current_strategy(key, n) == uniform_strategy(n),
        store.spec_average_strategy(key, n) == uniform_strategy(n),
{
}

} // verus!
