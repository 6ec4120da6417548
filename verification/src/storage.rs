//! Storage of cumulative regrets and strategy sums, keyed by
//! information-set key.
//!
//! The store is a sequence of per-key records; keys are unique.  All
//! quantities are fixed-point integers (see [`crate::fixed`]): regrets
//! and strategy sums are `i64` in `PROB_ONE` units, and the strategies
//! that regret matching and averaging return are `u64` probabilities
//! that sum to `PROB_ONE` up to one unit per action.

use vstd::arithmetic::div_mod::{
    lemma_div_is_ordered, lemma_div_multiples_vanish, lemma_div_pos_is_pos,
    lemma_fundamental_div_mod, lemma_mod_bound,
};
use vstd::arithmetic::mul::lemma_mul_inequality;
use vstd::prelude::*;

use crate::fixed::{
    exact_shares, matched_strategy, normalized_strategy, pos_part, sum_i64, sum_int_upto,
    sum_pos, sum_u64, uniform_strategy, PROB_ONE,
};

verus! {

/// One information set's accumulated data.
#[derive(Debug, Clone)]
pub struct InfoSetRecord {
    /// The information-set key.
    pub key: String,
    /// Cumulative counterfactual regret per action.
    pub regrets: Vec<i64>,
    /// Cumulative reach-weighted strategy contribution per action.
    pub strategy_sums: Vec<i64>,
    /// Human-readable action names, stored on first write.
    pub action_names: Option<Vec<String>>,
}

impl InfoSetRecord {
    /// Record invariant: both vectors have the action count's length
    /// and strategy sums are never negative.
    pub open spec fn wf(self) -> bool {
        &&& self.regrets@.len() == self.strategy_sums@.len()
        &&& forall|k: int| 0 <= k < self.strategy_sums@.len() ==> self.strategy_sums@[k] >= 0
    }

    /// The number of actions this record was created with.
    pub open spec fn spec_num_actions(self) -> nat {
        self.regrets@.len()
    }
}

/// Saturating addition on `i64`, in spec form.
pub open spec fn sat_add_i64(a: int, b: int) -> int {
    if a + b > i64::MAX as int {
        i64::MAX as int
    } else if a + b < i64::MIN as int {
        i64::MIN as int
    } else {
        a + b
    }
}

/// Saturating addition on `i64`.
pub fn sat_add(a: i64, b: i64) -> (r: i64)
    ensures
        r as int == sat_add_i64(a as int, b as int),
{
    let s: i128 = a as i128 + b as i128;
    if s > i64::MAX as i128 {
        i64::MAX
    } else if s < i64::MIN as i128 {
        i64::MIN
    } else {
        s as i64
    }
}

/// A regret value after one delta is applied: the saturating sum,
/// clamped to zero when the CFR+ rule is on, and held to the
/// configured floor when CFR+ is off and a floor is set.
pub open spec fn spec_apply_delta(r: int, d: int, cfr_plus: bool, floor: Option<i64>) -> int {
    let s = sat_add_i64(r, d);
    if cfr_plus {
        if s < 0 {
            0
        } else {
            s
        }
    } else {
        match floor {
            Some(f) => if s < f {
                f as int
            } else {
                s
            },
            None => s,
        }
    }
}

/// A whole regret vector after a delta vector is applied.
pub open spec fn spec_updated_regrets(
    regs: Seq<i64>,
    deltas: Seq<i64>,
    cfr_plus: bool,
    floor: Option<i64>,
) -> Seq<i64> {
    Seq::new(
        regs.len(),
        |i: int| spec_apply_delta(regs[i] as int, deltas[i] as int, cfr_plus, floor) as i64,
    )
}

/// Under the CFR+ rule every updated regret is non-negative, whatever
/// the floor.
pub proof fn lemma_cfr_plus_regrets_nonneg(regs: Seq<i64>, deltas: Seq<i64>, floor: Option<i64>)
    ensures
        forall|i: int|
            0 <= i < regs.len() ==> #[trigger] spec_updated_regrets(
                regs,
                deltas,
                true,
                floor,
            )[i] >= 0,
{
}

/// One strategy-sum entry after a weighted strategy contribution.
/// The contribution is `p * w / PROB_ONE`, the product of a fixed-point
/// probability and the weight.
pub open spec fn spec_apply_weight(s: int, p: int, w: int) -> int {
    sat_add_i64(s, p * w / PROB_ONE as int)
}

/// A whole strategy-sum vector after a weighted contribution.
pub open spec fn spec_updated_sums(sums: Seq<i64>, strategy: Seq<u64>, w: int) -> Seq<i64> {
    Seq::new(sums.len(), |i: int| spec_apply_weight(sums[i] as int, strategy[i] as int, w) as i64)
}

/// A value multiplied by a fixed-point factor, truncating toward zero,
/// as `discount_regrets` computes it.
pub open spec fn spec_discounted(r: int, d: int) -> int {
    if r >= 0 {
        r * d / PROB_ONE as int
    } else {
        -((-r) * d / PROB_ONE as int)
    }
}

/// A vector with every entry discounted.
pub open spec fn spec_discounted_vec(v: Seq<i64>, d: int) -> Seq<i64> {
    Seq::new(v.len(), |i: int| spec_discounted(v[i] as int, d) as i64)
}

/// The store of per-information-set records.
#[derive(Debug, Clone)]
pub struct RegretStorage {
    /// The records, one per key seen so far.
    pub records: Vec<InfoSetRecord>,
}

/// Whether every stored regret in a record sequence is non-negative:
/// the CFR+ invariant over the whole store.
pub open spec fn spec_all_regrets_nonneg(s: Seq<InfoSetRecord>) -> bool {
    forall|i: int, k: int|
        0 <= i < s.len() && 0 <= k < s[i].regrets@.len() ==> #[trigger] s[i].regrets@[k] >= 0
}

/// Whether every key of one record sequence is still present in
/// another: stores only ever grow, so this holds across every update.
pub open spec fn spec_keys_preserved(pre: Seq<InfoSetRecord>, post: Seq<InfoSetRecord>) -> bool {
    forall|k: Seq<char>| #[trigger] spec_has_key(pre, k) ==> spec_has_key(post, k)
}

/// Keys are preserved whenever the old records survive in place with
/// their keys intact.
pub proof fn lemma_keys_preserved_step(pre: Seq<InfoSetRecord>, post: Seq<InfoSetRecord>)
    requires
        pre.len() <= post.len(),
        forall|i: int| 0 <= i < pre.len() ==> (#[trigger] post[i]).key@ == pre[i].key@,
    ensures
        spec_keys_preserved(pre, post),
{
    assert forall|k: Seq<char>| #[trigger] spec_has_key(pre, k) implies spec_has_key(post, k) by {
        let w = choose|i: int| 0 <= i < pre.len() && (#[trigger] pre[i]).key@ == k;
        assert(post[w].key@ == k);
    }
}

/// Whether a sequence of records holds the given key.
pub open spec fn spec_has_key(s: Seq<InfoSetRecord>, key: Seq<char>) -> bool {
    exists|i: int| 0 <= i < s.len() && (#[trigger] s[i]).key@ == key
}

/// The index of the record with the given key (unique when keys are
/// distinct).
pub open spec fn spec_index_of(s: Seq<InfoSetRecord>, key: Seq<char>) -> int {
    choose|i: int| 0 <= i < s.len() && (#[trigger] s[i]).key@ == key
}

/// The record with the given key.
pub open spec fn spec_record_of(s: Seq<InfoSetRecord>, key: Seq<char>) -> InfoSetRecord {
    s[spec_index_of(s, key)]
}

/// The whole-store effect of applying a regret-delta vector at one
/// key: the key's record gains the deltas (created from zeros when the
/// key was unseen) and every other record is untouched.
pub open spec fn spec_regrets_updated_store(
    pre: Seq<InfoSetRecord>,
    post: Seq<InfoSetRecord>,
    key: Seq<char>,
    deltas: Seq<i64>,
    cfr_plus: bool,
    floor: Option<i64>,
) -> bool {
    if spec_has_key(pre, key) {
        let i = spec_index_of(pre, key);
        let r0 = pre[i];
        &&& post =~= pre.update(i, post[i])
        &&& post[i].key@ == key
        &&& post[i].regrets@ == spec_updated_regrets(r0.regrets@, deltas, cfr_plus, floor)
        &&& post[i].strategy_sums@ == r0.strategy_sums@
        &&& post[i].action_names == r0.action_names
    } else {
        let r = post.last();
        &&& post =~= pre.push(r)
        &&& r.key@ == key
        &&& r.regrets@ == spec_updated_regrets(zero_seq(deltas.len()), deltas, cfr_plus, floor)
        &&& r.strategy_sums@ == zero_seq(deltas.len())
        &&& r.action_names is None
    }
}

/// The whole-store effect of one reach-weighted strategy contribution
/// at one key: the key's strategy sums gain the contribution (from
/// zeros when the key was unseen) and every other record is untouched.
pub open spec fn spec_sums_updated_store(
    pre: Seq<InfoSetRecord>,
    post: Seq<InfoSetRecord>,
    key: Seq<char>,
    strategy: Seq<u64>,
    w: int,
) -> bool {
    if spec_has_key(pre, key) {
        let i = spec_index_of(pre, key);
        let r0 = pre[i];
        &&& post =~= pre.update(i, post[i])
        &&& post[i].key@ == key
        &&& post[i].regrets@ == r0.regrets@
        &&& post[i].strategy_sums@ == spec_updated_sums(r0.strategy_sums@, strategy, w)
        &&& post[i].action_names == r0.action_names
    } else {
        let r = post.last();
        &&& post =~= pre.push(r)
        &&& r.key@ == key
        &&& r.regrets@ == zero_seq(strategy.len())
        &&& r.strategy_sums@ == spec_updated_sums(zero_seq(strategy.len()), strategy, w)
        &&& r.action_names is None
    }
}

/// The whole-store effect of storing action names at one key: at most
/// the key's name table changes; regrets, strategy sums and every
/// other record are untouched.
pub open spec fn spec_names_only_set(
    pre: Seq<InfoSetRecord>,
    post: Seq<InfoSetRecord>,
    key: Seq<char>,
) -> bool {
    if spec_has_key(pre, key) {
        let i = spec_index_of(pre, key);
        let r0 = pre[i];
        &&& post =~= pre.update(i, post[i])
        &&& post[i].key@ == r0.key@
        &&& post[i].regrets@ == r0.regrets@
        &&& post[i].strategy_sums@ == r0.strategy_sums@
    } else {
        post =~= pre
    }
}

/// The whole-store effect of the per-iteration discounts: every
/// regret vector is scaled by the regret discount and every
/// strategy-sum vector by the strategy discount, where each is
/// configured; keys and name tables are untouched.
pub open spec fn spec_store_discounted(
    pre: Seq<InfoSetRecord>,
    post: Seq<InfoSetRecord>,
    regret_discount: Option<u64>,
    strategy_discount: Option<u64>,
) -> bool {
    &&& post.len() == pre.len()
    &&& forall|i: int|
        0 <= i < pre.len() ==> {
            let r0 = pre[i];
            let r1 = #[trigger] post[i];
            &&& r1.key@ == r0.key@
            &&& r1.regrets@ == (match regret_discount {
                Some(d) => spec_discounted_vec(r0.regrets@, d as int),
                None => r0.regrets@,
            })
            &&& r1.strategy_sums@ == (match strategy_discount {
                Some(d) => spec_discounted_vec(r0.strategy_sums@, d as int),
                None => r0.strategy_sums@,
            })
            &&& spec_names_like(r1.action_names, r0.action_names)
        }
}

impl RegretStorage {
    /// The store's contents.
    pub open spec fn view(self) -> Seq<InfoSetRecord> {
        self.records@
    }

    /// Store invariant: keys are distinct and every record is
    /// well-formed.
    pub open spec fn wf(self) -> bool {
        &&& forall|i: int, j: int|
            0 <= i < j < self@.len() ==> (#[trigger] self@[i]).key@ != (#[trigger] self@[j]).key@
        &&& forall|i: int| 0 <= i < self@.len() ==> (#[trigger] self@[i]).wf()
    }

    /// The strategy that a query for `key` with `num_actions` actions
    /// returns: regret matching on the stored regrets, or the uniform
    /// strategy for an unseen key.
    pub open spec fn spec_current_strategy(self, key: Seq<char>, num_actions: nat) -> Seq<u64> {
        if spec_has_key(self@, key) {
            matched_strategy(spec_record_of(self@, key).regrets@)
        } else {
            uniform_strategy(num_actions)
        }
    }

    /// The average strategy that a query for `key` returns:
    /// normalisation of the stored strategy sums, or uniform for an
    /// unseen key.
    pub open spec fn spec_average_strategy(self, key: Seq<char>, num_actions: nat) -> Seq<u64> {
        if spec_has_key(self@, key) {
            normalized_strategy(spec_record_of(self@, key).strategy_sums@)
        } else {
            uniform_strategy(num_actions)
        }
    }

    /// Create a new empty store.
    pub fn new() -> (s: RegretStorage)
        ensures
            s@.len() == 0,
            s.wf(),
    {
        RegretStorage { records: Vec::new() }
    }

    /// Create a store with pre-allocated capacity.  The capacity is an
    /// allocation hint only; the store starts empty.
    pub fn with_capacity(capacity: usize) -> (s: RegretStorage)
        ensures
            s@.len() == 0,
            s.wf(),
    {
        RegretStorage { records: Vec::with_capacity(capacity) }
    }

    /// Find the index of the record with the given key.
    fn find(&self, info_key: &str) -> (r: Option<usize>)
        requires
            self.wf(),
        ensures
            match r {
                Some(i) => {
                    &&& i < self@.len()
                    &&& self@[i as int].key@ == info_key@
                    &&& spec_has_key(self@, info_key@)
                    &&& spec_index_of(self@, info_key@) == i as int
                },
                None => !spec_has_key(self@, info_key@),
            },
    {
        let n: usize = self.records.len();
        let mut i: usize = 0;
        while i < n
            invariant
                i <= n,
                n == self@.len(),
                self.wf(),
                forall|j: int| 0 <= j < i ==> (#[trigger] self@[j]).key@ != info_key@,
            decreases n - i,
        {
            if str_eq(self.records[i].key.as_str(), info_key) {
                proof {
                    let w = spec_index_of(self@, info_key@);
                    assert(0 <= w < self@.len() && self@[w].key@ == info_key@);
                    assert(w == i as int);
                }
                return Some(i);
            }
            i = i + 1;
        }
        None
    }

    /// Number of information sets stored.
    pub fn num_info_sets(&self) -> (r: usize)
        ensures
            r == self@.len(),
    {
        self.records.len()
    }

    /// Whether the store holds a record for the key.
    pub fn contains(&self, info_key: &str) -> (r: bool)
        requires
            self.wf(),
        ensures
            r == spec_has_key(self@, info_key@),
    {
        match self.find(info_key) {
            Some(_) => true,
            None => false,
        }
    }

    /// Remove all records.
    pub fn clear(&mut self)
        ensures
            final(self)@.len() == 0,
            final(self).wf(),
    {
        self.records.clear();
    }

    /// Current strategy for an information set by regret matching: each
    /// action's probability is proportional to its positive regret;
    /// uniform over `num_actions` when no regret is positive or the key
    /// is unseen.
    pub fn get_current_strategy(&self, info_key: &str, num_actions: usize) -> (r: Vec<u64>)
        requires
            self.wf(),
        ensures
            r@ == self.spec_current_strategy(info_key@, num_actions as nat),
    {
        match self.find(info_key) {
            Some(i) => matched_strategy_vec(&self.records[i].regrets),
            None => uniform_vec(num_actions),
        }
    }

    /// Average strategy for an information set: each action's
    /// probability is its share of the accumulated strategy weight;
    /// uniform when the total weight is not positive or the key is
    /// unseen.
    pub fn get_average_strategy(&self, info_key: &str, num_actions: usize) -> (r: Vec<u64>)
        requires
            self.wf(),
        ensures
            r@ == self.spec_average_strategy(info_key@, num_actions as nat),
    {
        match self.find(info_key) {
            Some(i) => normalized_strategy_vec(&self.records[i].strategy_sums),
            None => uniform_vec(num_actions),
        }
    }

    /// The stored regret vector of a key, if the key has been seen.
    pub fn get_regrets(&self, info_key: &str) -> (r: Option<Vec<i64>>)
        requires
            self.wf(),
        ensures
            match r {
                Some(v) => spec_has_key(self@, info_key@) && v@ == spec_record_of(
                    self@,
                    info_key@,
                ).regrets@,
                None => !spec_has_key(self@, info_key@),
            },
    {
        match self.find(info_key) {
            Some(i) => Some(clone_i64_vec(&self.records[i].regrets)),
            None => None,
        }
    }

    /// The stored strategy-sum vector of a key, if the key has been
    /// seen.
    pub fn get_strategy_sums(&self, info_key: &str) -> (r: Option<Vec<i64>>)
        requires
            self.wf(),
        ensures
            match r {
                Some(v) => spec_has_key(self@, info_key@) && v@ == spec_record_of(
                    self@,
                    info_key@,
                ).strategy_sums@,
                None => !spec_has_key(self@, info_key@),
            },
    {
        match self.find(info_key) {
            Some(i) => Some(clone_i64_vec(&self.records[i].strategy_sums)),
            None => None,
        }
    }
}

/// Compare two strings character by character.
pub fn str_eq(a: &str, b: &str) -> (r: bool)
    ensures
        r == (a@ == b@),
{
    let na: usize = a.unicode_len();
    let nb: usize = b.unicode_len();
    if na != nb {
        return false;
    }
    let mut i: usize = 0;
    while i < na
        invariant
            i <= na,
            na == a@.len(),
            na == b@.len(),
            forall|j: int| 0 <= j < i ==> a@[j] == b@[j],
        decreases na - i,
    {
        if a.get_char(i) != b.get_char(i) {
            return false;
        }
        i = i + 1;
    }
    proof {
        assert(a@ =~= b@);
    }
    true
}

/// Clone a vector of `i64`.
fn clone_i64_vec(v: &Vec<i64>) -> (r: Vec<i64>)
    ensures
        r@ == v@,
{
    let mut out: Vec<i64> = Vec::new();
    let mut i: usize = 0;
    while i < v.len()
        invariant
            i <= v@.len(),
            out@ =~= v@.subrange(0, i as int),
        decreases v@.len() - i,
    {
        out.push(v[i]);
        i = i + 1;
    }
    proof {
        assert(out@ =~= v@);
    }
    out
}

/// The uniform strategy vector over `n` actions: each entry is the
/// floor share, with the division remainder on the first entry.
fn uniform_vec(n: usize) -> (r: Vec<u64>)
    ensures
        r@ == uniform_strategy(n as nat),
{
    let mut out: Vec<u64> = Vec::new();
    if n == 0 {
        proof {
            assert(out@ =~= uniform_strategy(0));
        }
        return out;
    }
    let share: u64 = PROB_ONE / (n as u64);
    let extra: u64 = PROB_ONE % (n as u64);
    proof {
        vstd::arithmetic::div_mod::lemma_fundamental_div_mod(PROB_ONE as int, n as int);
        vstd::arithmetic::div_mod::lemma_mod_bound(PROB_ONE as int, n as int);
        lemma_div_pos_is_pos(PROB_ONE as int, n as int);
        assert(n as int * share as int >= share as int) by (nonlinear_arith)
            requires
                n >= 1,
                share >= 0;
    }
    let mut i: usize = 0;
    while i < n
        invariant
            i <= n,
            n > 0,
            share == PROB_ONE as int / n as int,
            extra == PROB_ONE as int % n as int,
            share + extra <= PROB_ONE,
            out@ =~= uniform_strategy(n as nat).subrange(0, i as int),
        decreases n - i,
    {
        if i == 0 {
            out.push(share + extra);
        } else {
            out.push(share);
        }
        proof {
            assert(out@ =~= uniform_strategy(n as nat).subrange(0, i + 1));
        }
        i = i + 1;
    }
    proof {
        assert(out@ =~= uniform_strategy(n as nat));
    }
    out
}

/// Regret matching over a regret vector: the positive parts normalised
/// to fixed-point probabilities, or uniform when none is positive.
fn matched_strategy_vec(regrets: &Vec<i64>) -> (r: Vec<u64>)
    ensures
        r@ == matched_strategy(regrets@),
{
    let n: usize = regrets.len();
    // Total positive regret, exact in 128 bits.
    let mut total: i128 = 0;
    let mut i: usize = 0;
    while i < n
        invariant
            i <= n,
            n == regrets@.len(),
            total == sum_pos(regrets@.subrange(0, i as int)),
            0 <= total <= i * (i64::MAX as i128),
        decreases n - i,
    {
        let x: i64 = regrets[i];
        proof {
            assert(regrets@.subrange(0, i + 1).drop_last() =~= regrets@.subrange(0, i as int));
            assert(regrets@.subrange(0, i + 1).last() == x);
        }
        if x > 0 {
            total = total + x as i128;
        }
        i = i + 1;
    }
    proof {
        assert(regrets@.subrange(0, n as int) =~= regrets@);
    }
    if total <= 0 {
        let r = uniform_vec(n);
        proof {
            assert(matched_strategy(regrets@) == uniform_strategy(n as nat));
        }
        return r;
    }
    let ghost vals = crate::fixed::pos_vals(regrets@);
    let ghost s_total = sum_pos(regrets@);
    proof {
        crate::fixed::lemma_sum_pos_matches_int(regrets@, n as int);
        crate::fixed::lemma_sum_pos_upto_full(regrets@);
        assert(sum_int_upto(vals, n as int) == s_total);
    }
    let mut out: Vec<u64> = Vec::new();
    let mut qsum: u128 = 0;
    let mut best: usize = 0;
    let mut best_val: i64 = 0;
    let mut i: usize = 0;
    while i < n
        invariant
            i <= n,
            n == regrets@.len(),
            total == s_total,
            s_total == sum_pos(regrets@),
            s_total == sum_int_upto(vals, n as int),
            vals == crate::fixed::pos_vals(regrets@),
            0 < total,
            out@.len() == i,
            forall|j: int|
                0 <= j < i ==> (#[trigger] out@[j]) as int == crate::fixed::floor_shares(
                    vals,
                )[j],
            qsum as int == sum_int_upto(crate::fixed::floor_shares(vals), i as int),
            qsum as int <= i as int * PROB_ONE as int,
            i >= 1 ==> best < i && best as int == crate::fixed::first_max_upto(vals, i as int)
                && best_val as int == vals[best as int],
            i == 0 ==> best == 0,
        decreases n - i,
    {
        let x: i64 = regrets[i];
        let p: i64 = if x > 0 {
            x
        } else {
            0
        };
        proof {
            lemma_pos_le_sum_via_subrange(regrets@, i as int);
            assert(0 <= p as int <= total);
            crate::fixed::lemma_share_in_range(p as int, s_total);
            assert((i as int + 1) * PROB_ONE as int == i as int * PROB_ONE as int
                + PROB_ONE as int) by (nonlinear_arith);
        }
        let q: i128 = (p as i128) * (PROB_ONE as i128) / total;
        proof {
            assert(q as int == crate::fixed::floor_shares(vals)[i as int]);
            assert(0 <= q <= PROB_ONE);
        }
        out.push(q as u64);
        qsum = qsum + q as u128;
        if i == 0 || p > best_val {
            best = i;
            best_val = p;
        }
        i = i + 1;
    }
    proof {
        assert(n >= 1) by {
            if n == 0 {
                assert(sum_pos(regrets@) == 0);
            }
        }
        crate::fixed::lemma_exact_shares(vals);
    }
    let rem: u64 = (PROB_ONE as u128 - qsum) as u64;
    let cur: u64 = out[best];
    proof {
        assert(best as int == crate::fixed::first_max_upto(vals, n as int));
        assert(cur as int + rem as int == exact_shares(vals)[best as int]);
        assert(exact_shares(vals)[best as int] <= PROB_ONE);
    }
    out.set(best, cur + rem);
    proof {
        assert forall|j: int| 0 <= j < n implies out@[j] == matched_strategy(regrets@)[j] by {
            if j != best as int {
                assert(out@[j] as int == crate::fixed::floor_shares(vals)[j]);
                assert(exact_shares(vals)[j] as int == crate::fixed::floor_shares(vals)[j]);
            }
        }
        assert(out@ =~= matched_strategy(regrets@));
    }
    out
}

/// Normalisation of a non-negative strategy-sum vector to fixed-point
/// probabilities, or uniform when the total is not positive.
fn normalized_strategy_vec(sums: &Vec<i64>) -> (r: Vec<u64>)
    requires
        forall|k: int| 0 <= k < sums@.len() ==> sums@[k] >= 0,
    ensures
        r@ == normalized_strategy(sums@),
{
    let n: usize = sums.len();
    let mut total: i128 = 0;
    let mut i: usize = 0;
    while i < n
        invariant
            i <= n,
            n == sums@.len(),
            forall|k: int| 0 <= k < sums@.len() ==> sums@[k] >= 0,
            total == sum_i64(sums@.subrange(0, i as int)),
            0 <= total <= i * (i64::MAX as i128),
        decreases n - i,
    {
        let x: i64 = sums[i];
        proof {
            assert(sums@.subrange(0, i + 1).drop_last() =~= sums@.subrange(0, i as int));
            assert(sums@.subrange(0, i + 1).last() == x);
        }
        total = total + x as i128;
        i = i + 1;
    }
    proof {
        assert(sums@.subrange(0, n as int) =~= sums@);
    }
    if total <= 0 {
        let r = uniform_vec(n);
        proof {
            assert(normalized_strategy(sums@) == uniform_strategy(n as nat));
        }
        return r;
    }
    let ghost vals = crate::fixed::int_vals(sums@);
    let ghost s_total = sum_i64(sums@);
    proof {
        crate::fixed::lemma_sum_i64_matches_int(sums@, n as int);
        crate::fixed::lemma_sum_i64_upto_full(sums@);
        assert(sum_int_upto(vals, n as int) == s_total);
    }
    let mut out: Vec<u64> = Vec::new();
    let mut qsum: u128 = 0;
    let mut best: usize = 0;
    let mut best_val: i64 = 0;
    let mut i: usize = 0;
    while i < n
        invariant
            i <= n,
            n == sums@.len(),
            forall|k: int| 0 <= k < sums@.len() ==> sums@[k] >= 0,
            total == s_total,
            s_total == sum_i64(sums@),
            s_total == sum_int_upto(vals, n as int),
            vals == crate::fixed::int_vals(sums@),
            0 < total,
            out@.len() == i,
            forall|j: int|
                0 <= j < i ==> (#[trigger] out@[j]) as int == crate::fixed::floor_shares(
                    vals,
                )[j],
            qsum as int == sum_int_upto(crate::fixed::floor_shares(vals), i as int),
            qsum as int <= i as int * PROB_ONE as int,
            i >= 1 ==> best < i && best as int == crate::fixed::first_max_upto(vals, i as int)
                && best_val as int == vals[best as int],
            i == 0 ==> best == 0,
        decreases n - i,
    {
        let x: i64 = sums[i];
        proof {
            crate::fixed::lemma_sum_i64_bounds(sums@, i as int);
            assert(0 <= x as int <= s_total);
            crate::fixed::lemma_share_in_range(x as int, s_total);
            assert((i as int + 1) * PROB_ONE as int == i as int * PROB_ONE as int
                + PROB_ONE as int) by (nonlinear_arith);
        }
        let q: i128 = (x as i128) * (PROB_ONE as i128) / total;
        proof {
            assert(q as int == crate::fixed::floor_shares(vals)[i as int]);
            assert(0 <= q <= PROB_ONE);
        }
        out.push(q as u64);
        qsum = qsum + q as u128;
        if i == 0 || x > best_val {
            best = i;
            best_val = x;
        }
        i = i + 1;
    }
    proof {
        assert(n >= 1) by {
            if n == 0 {
                assert(sum_i64(sums@) == 0);
            }
        }
        crate::fixed::lemma_exact_shares(vals);
    }
    let rem: u64 = (PROB_ONE as u128 - qsum) as u64;
    let cur: u64 = out[best];
    proof {
        assert(best as int == crate::fixed::first_max_upto(vals, n as int));
        assert(cur as int + rem as int == exact_shares(vals)[best as int]);
        assert(exact_shares(vals)[best as int] <= PROB_ONE);
    }
    out.set(best, cur + rem);
    proof {
        assert forall|j: int| 0 <= j < n implies out@[j] == normalized_strategy(sums@)[j] by {
            if j != best as int {
                assert(out@[j] as int == crate::fixed::floor_shares(vals)[j]);
                assert(exact_shares(vals)[j] as int == crate::fixed::floor_shares(vals)[j]);
            }
        }
        assert(out@ =~= normalized_strategy(sums@));
    }
    out
}

/// An element's positive part is bounded by the sum over the whole
/// sequence.
proof fn lemma_pos_le_sum_via_subrange(s: Seq<i64>, i: int)
    requires
        0 <= i < s.len(),
    ensures
        pos_part(s[i] as int) <= sum_pos(s),
        sum_pos(s) >= 0,
{
    crate::fixed::lemma_pos_le_sum_pos(s, i);
}

/// A prefix sum of non-negative entries is bounded by the whole sum.
proof fn lemma_sum_i64_prefix(s: Seq<i64>, i: int)
    requires
        0 <= i <= s.len(),
        forall|j: int| 0 <= j < s.len() ==> s[j] >= 0,
    ensures
        sum_i64(s.subrange(0, i)) <= sum_i64(s),
    decreases s.len() - i,
{
    if i < s.len() {
        lemma_sum_i64_prefix(s, i + 1);
        assert(s.subrange(0, i + 1).drop_last() =~= s.subrange(0, i));
        assert(s.subrange(0, i + 1).last() == s[i]);
    } else {
        assert(s.subrange(0, i) =~= s);
    }
}

/// A zero vector of the given length.
pub open spec fn zero_seq(n: nat) -> Seq<i64> {
    Seq::new(n, |i: int| 0i64)
}

/// Build a zero vector.
fn zero_vec(n: usize) -> (r: Vec<i64>)
    ensures
        r@ == zero_seq(n as nat),
{
    let mut out: Vec<i64> = Vec::new();
    let mut i: usize = 0;
    while i < n
        invariant
            i <= n,
            out@ =~= zero_seq(n as nat).subrange(0, i as int),
        decreases n - i,
    {
        out.push(0);
        proof {
            assert(out@ =~= zero_seq(n as nat).subrange(0, i + 1));
        }
        i = i + 1;
    }
    proof {
        assert(out@ =~= zero_seq(n as nat));
    }
    out
}

/// Apply a delta vector to a regret vector.
fn apply_deltas(regs: &Vec<i64>, deltas: &Vec<i64>, cfr_plus: bool, floor: Option<i64>) -> (r:
    Vec<i64>)
    requires
        regs@.len() == deltas@.len(),
    ensures
        r@ == spec_updated_regrets(regs@, deltas@, cfr_plus, floor),
{
    let n: usize = regs.len();
    let mut out: Vec<i64> = Vec::new();
    let mut i: usize = 0;
    while i < n
        invariant
            i <= n,
            n == regs@.len(),
            n == deltas@.len(),
            out@.len() == i,
            forall|j: int|
                0 <= j < i ==> out@[j] as int == spec_apply_delta(
                    regs@[j] as int,
                    deltas@[j] as int,
                    cfr_plus,
                    floor,
                ),
        decreases n - i,
    {
        let s: i64 = sat_add(regs[i], deltas[i]);
        let v: i64 = if cfr_plus {
            if s < 0 {
                0
            } else {
                s
            }
        } else {
            match floor {
                Some(f) => if s < f {
                    f
                } else {
                    s
                },
                None => s,
            }
        };
        out.push(v);
        i = i + 1;
    }
    proof {
        assert(out@ =~= spec_updated_regrets(regs@, deltas@, cfr_plus, floor));
    }
    out
}

/// Apply a weighted strategy contribution to a strategy-sum vector.
fn apply_weights(sums: &Vec<i64>, strategy: &Vec<u64>, weight: i64) -> (r: Vec<i64>)
    requires
        sums@.len() == strategy@.len(),
        weight >= 0,
        forall|k: int| 0 <= k < sums@.len() ==> sums@[k] >= 0,
        forall|k: int| 0 <= k < strategy@.len() ==> strategy@[k] <= PROB_ONE,
    ensures
        r@ == spec_updated_sums(sums@, strategy@, weight as int),
        forall|k: int| 0 <= k < r@.len() ==> r@[k] >= 0,
{
    let n: usize = sums.len();
    let mut out: Vec<i64> = Vec::new();
    let mut i: usize = 0;
    while i < n
        invariant
            i <= n,
            n == sums@.len(),
            n == strategy@.len(),
            weight >= 0,
            forall|k: int| 0 <= k < sums@.len() ==> sums@[k] >= 0,
            forall|k: int| 0 <= k < strategy@.len() ==> strategy@[k] <= PROB_ONE,
            out@.len() == i,
            forall|j: int|
                0 <= j < i ==> out@[j] as int == spec_apply_weight(
                    sums@[j] as int,
                    strategy@[j] as int,
                    weight as int,
                ),
            forall|j: int| 0 <= j < i ==> out@[j] >= 0,
        decreases n - i,
    {
        let p: u64 = strategy[i];
        proof {
            lemma_mul_inequality(p as int, PROB_ONE as int, weight as int);
            lemma_div_is_ordered(
                p as int * weight as int,
                PROB_ONE as int * weight as int,
                PROB_ONE as int,
            );
            lemma_div_multiples_vanish(weight as int, PROB_ONE as int);
            lemma_div_pos_is_pos(p as int * weight as int, PROB_ONE as int);
            assert(p as int * weight as int >= 0) by (nonlinear_arith)
                requires
                    p >= 0,
                    weight >= 0;
        }
        let q: i128 = (p as i128) * (weight as i128) / (PROB_ONE as i128);
        proof {
            assert(0 <= q <= weight);
        }
        let v: i64 = sat_add(sums[i], q as i64);
        out.push(v);
        i = i + 1;
    }
    proof {
        assert(out@ =~= spec_updated_sums(sums@, strategy@, weight as int));
    }
    out
}

/// Multiply every entry of a vector by a fixed-point factor,
/// truncating toward zero.
fn discount_vec(v: &Vec<i64>, discount: u64) -> (r: Vec<i64>)
    requires
        discount <= PROB_ONE,
    ensures
        r@ == spec_discounted_vec(v@, discount as int),
        forall|k: int| 0 <= k < v@.len() && v@[k] >= 0 ==> r@[k] >= 0,
{
    let n: usize = v.len();
    let mut out: Vec<i64> = Vec::new();
    let mut i: usize = 0;
    while i < n
        invariant
            i <= n,
            n == v@.len(),
            discount <= PROB_ONE,
            out@.len() == i,
            forall|j: int|
                0 <= j < i ==> out@[j] as int == spec_discounted(v@[j] as int, discount as int),
            forall|j: int| 0 <= j < i && v@[j] >= 0 ==> out@[j] >= 0,
        decreases n - i,
    {
        let x: i64 = v[i];
        let r: i64 = if x >= 0 {
            proof {
                lemma_mul_inequality(discount as int, PROB_ONE as int, x as int);
                assert(x as int * discount as int == discount as int * x as int)
                    by (nonlinear_arith);
                assert(x as int * PROB_ONE as int == PROB_ONE as int * x as int)
                    by (nonlinear_arith);
                lemma_div_is_ordered(
                    x as int * discount as int,
                    PROB_ONE as int * x as int,
                    PROB_ONE as int,
                );
                lemma_div_multiples_vanish(x as int, PROB_ONE as int);
                lemma_div_pos_is_pos(x as int * discount as int, PROB_ONE as int);
                assert(x as int * discount as int >= 0) by (nonlinear_arith)
                    requires
                        x >= 0;
            }
            let q: i128 = (x as i128) * (discount as i128) / (PROB_ONE as i128);
            q as i64
        } else {
            let y: i128 = -(x as i128);
            proof {
                assert(0 < y <= i64::MAX as i128 + 1);
                lemma_mul_inequality(discount as int, PROB_ONE as int, y as int);
                assert(y as int * discount as int == discount as int * y as int)
                    by (nonlinear_arith);
                assert(y as int * PROB_ONE as int == PROB_ONE as int * y as int)
                    by (nonlinear_arith);
                lemma_div_is_ordered(
                    y as int * discount as int,
                    PROB_ONE as int * y as int,
                    PROB_ONE as int,
                );
                lemma_div_multiples_vanish(y as int, PROB_ONE as int);
                lemma_div_pos_is_pos(y as int * discount as int, PROB_ONE as int);
                assert(y as int * discount as int >= 0) by (nonlinear_arith)
                    requires
                        y > 0;
            }
            let q: i128 = y * (discount as i128) / (PROB_ONE as i128);
            (-q) as i64
        };
        out.push(r);
        i = i + 1;
    }
    proof {
        assert(out@ =~= spec_discounted_vec(v@, discount as int));
    }
    out
}

/// Clone a vector of strings, preserving each string's characters.
fn clone_string_vec(v: &Vec<String>) -> (r: Vec<String>)
    ensures
        r@.len() == v@.len(),
        forall|j: int| 0 <= j < v@.len() ==> (#[trigger] r@[j])@ == v@[j]@,
{
    let mut out: Vec<String> = Vec::new();
    let mut i: usize = 0;
    while i < v.len()
        invariant
            i <= v@.len(),
            out@.len() == i,
            forall|j: int| 0 <= j < i ==> (#[trigger] out@[j])@ == v@[j]@,
        decreases v@.len() - i,
    {
        out.push(v[i].clone());
        i = i + 1;
    }
    out
}

/// Whether two optional name lists hold the same strings.
pub open spec fn spec_names_like(a: Option<Vec<String>>, b: Option<Vec<String>>) -> bool {
    match (a, b) {
        (Some(x), Some(y)) => x@.len() == y@.len() && (forall|j: int|
            0 <= j < x@.len() ==> (#[trigger] x@[j])@ == y@[j]@),
        (None, None) => true,
        _ => false,
    }
}

/// Name-table agreement composes across successive copies.
pub proof fn lemma_names_like_trans(
    a: Option<Vec<String>>,
    b: Option<Vec<String>>,
    c: Option<Vec<String>>,
)
    requires
        spec_names_like(a, b),
        spec_names_like(b, c),
    ensures
        spec_names_like(a, c),
{
    match (a, b, c) {
        (Some(x), Some(y), Some(z)) => {
            assert forall|j: int| 0 <= j < x@.len() implies (#[trigger] x@[j])@ == z@[j]@ by {
                assert(x@[j]@ == y@[j]@);
                assert(y@[j]@ == z@[j]@);
            }
        },
        _ => {},
    }
}

/// Whether two records hold the same data.
pub open spec fn spec_record_like(a: InfoSetRecord, b: InfoSetRecord) -> bool {
    &&& a.key@ == b.key@
    &&& a.regrets@ == b.regrets@
    &&& a.strategy_sums@ == b.strategy_sums@
    &&& spec_names_like(a.action_names, b.action_names)
}

/// Clone a record, preserving all its data.
fn clone_record(rec: &InfoSetRecord) -> (r: InfoSetRecord)
    ensures
        spec_record_like(r, *rec),
{
    let names: Option<Vec<String>> = match &rec.action_names {
        Some(ns) => Some(clone_string_vec(ns)),
        None => None,
    };
    InfoSetRecord {
        key: rec.key.clone(),
        regrets: clone_i64_vec(&rec.regrets),
        strategy_sums: clone_i64_vec(&rec.strategy_sums),
        action_names: names,
    }
}

/// The serialisable image of the store: one entry per information set.
#[derive(Debug, Clone)]
pub struct StorageExport {
    /// The stored records, in store order.
    pub entries: Vec<InfoSetRecord>,
}

impl StorageExport {
    /// Well-formedness mirrors the store's invariant.
    pub open spec fn wf(self) -> bool {
        &&& forall|i: int, j: int|
            0 <= i < j < self.entries@.len() ==> (#[trigger] self.entries@[i]).key@ != (
            #[trigger] self.entries@[j]).key@
        &&& forall|i: int| 0 <= i < self.entries@.len() ==> (#[trigger] self.entries@[i]).wf()
    }
}

impl RegretStorage {
    /// Create or fetch the record for `info_key` and add the regret
    /// deltas, one per action; under CFR+ each regret is clamped at
    /// zero, and without CFR+ an optional floor bounds each regret
    /// from below.  A first write fixes the record's action count to
    /// the delta vector's length; later writes must present that
    /// length.
    pub fn update_regrets(
        &mut self,
        info_key: &str,
        regret_updates: &Vec<i64>,
        use_cfr_plus: bool,
        regret_floor: Option<i64>,
    )
        requires
            old(self).wf(),
            spec_has_key(old(self)@, info_key@) ==> spec_record_of(
                old(self)@,
                info_key@,
            ).spec_num_actions() == regret_updates@.len(),
        ensures
            final(self).wf(),
            spec_has_key(final(self)@, info_key@),
            use_cfr_plus && spec_all_regrets_nonneg(old(self)@) ==> spec_all_regrets_nonneg(
                final(self)@,
            ),
            spec_regrets_updated_store(
                old(self)@,
                final(self)@,
                info_key@,
                regret_updates@,
                use_cfr_plus,
                regret_floor,
            ),
    {
        match self.find(info_key) {
            Some(i) => {
                let mut rec = self.records.remove(i);
                let new_regrets = apply_deltas(&rec.regrets, regret_updates, use_cfr_plus, regret_floor);
                rec.regrets = new_regrets;
                self.records.insert(i, rec);
                proof {
                    assert(self@ =~= old(self)@.update(i as int, self@[i as int]));
                    assert(spec_index_of(old(self)@, info_key@) == i as int);
                    assert(self@[i as int].key@ == info_key@);
                    assert(spec_has_key(self@, info_key@));
                    if use_cfr_plus && spec_all_regrets_nonneg(old(self)@) {
                        assert forall|a: int, k: int|
                            0 <= a < self@.len() && 0 <= k
                                < self@[a].regrets@.len() implies #[trigger] self@[a].regrets@[k]
                            >= 0 by {
                            if a != i as int {
                                assert(self@[a] == old(self)@[a]);
                            } else {
                                assert(self@[a].regrets@ == spec_updated_regrets(
                                    old(self)@[a].regrets@,
                                    regret_updates@,
                                    use_cfr_plus,
                                    regret_floor,
                                ));
                                assert(self@[a].regrets@[k] as int == spec_apply_delta(
                                    old(self)@[a].regrets@[k] as int,
                                    regret_updates@[k] as int,
                                    use_cfr_plus,
                                    regret_floor,
                                ));
                                assert(spec_apply_delta(
                                    old(self)@[a].regrets@[k] as int,
                                    regret_updates@[k] as int,
                                    use_cfr_plus,
                                    regret_floor,
                                ) >= 0);
                            }
                        }
                    }
                }
            },
            None => {
                let n: usize = regret_updates.len();
                let zeros = zero_vec(n);
                let regrets = apply_deltas(&zeros, regret_updates, use_cfr_plus, regret_floor);
                let sums = zero_vec(n);
                let rec = InfoSetRecord {
                    key: String::from_str(info_key),
                    regrets,
                    strategy_sums: sums,
                    action_names: None,
                };
                self.records.push(rec);
                proof {
                    assert(self@.last().key@ == info_key@);
                    assert(spec_has_key(self@, info_key@));
                    assert forall|k: int|
                        0 <= k < zero_seq(n as nat).len() implies zero_seq(n as nat)[k]
                        >= 0 by {}
                    if use_cfr_plus && spec_all_regrets_nonneg(old(self)@) {
                        assert forall|a: int, k: int|
                            0 <= a < self@.len() && 0 <= k
                                < self@[a].regrets@.len() implies #[trigger] self@[a].regrets@[k]
                            >= 0 by {
                            assert(self@.len() == old(self)@.len() + 1);
                            if a < self@.len() - 1 {
                                assert(self@[a] == old(self)@[a]);
                                assert(old(self)@[a].regrets@[k] >= 0);
                            } else {
                                assert(self@[a] == self@.last());
                                assert(self@[a].regrets@ == spec_updated_regrets(
                                    zero_seq(n as nat),
                                    regret_updates@,
                                    use_cfr_plus,
                                    regret_floor,
                                ));
                                assert(self@[a].regrets@[k] as int == spec_apply_delta(
                                    zero_seq(n as nat)[k] as int,
                                    regret_updates@[k] as int,
                                    use_cfr_plus,
                                    regret_floor,
                                ));
                                assert(spec_apply_delta(
                                    zero_seq(n as nat)[k] as int,
                                    regret_updates@[k] as int,
                                    use_cfr_plus,
                                    regret_floor,
                                ) >= 0);
                            }
                        }
                    }
                }
            },
        }
    }

    /// Add a reach-weighted strategy contribution to the record for
    /// `info_key`: each sum gains `strategy[a] * weight` (in
    /// fixed-point units).  A first write fixes the action count; the
    /// weight must not be negative, and each strategy entry is a
    /// probability of at most `PROB_ONE`.
    pub fn update_strategy_sum(&mut self, info_key: &str, strategy: &Vec<u64>, weight: i64)
        requires
            old(self).wf(),
            weight >= 0,
            forall|k: int| 0 <= k < strategy@.len() ==> strategy@[k] <= PROB_ONE,
            spec_has_key(old(self)@, info_key@) ==> spec_record_of(
                old(self)@,
                info_key@,
            ).spec_num_actions() == strategy@.len(),
        ensures
            final(self).wf(),
            spec_has_key(final(self)@, info_key@),
            spec_all_regrets_nonneg(old(self)@) ==> spec_all_regrets_nonneg(final(self)@),
            spec_sums_updated_store(old(self)@, final(self)@, info_key@, strategy@, weight as int),
    {
        match self.find(info_key) {
            Some(i) => {
                let mut rec = self.records.remove(i);
                let new_sums = apply_weights(&rec.strategy_sums, strategy, weight);
                rec.strategy_sums = new_sums;
                self.records.insert(i, rec);
                proof {
                    assert(self@ =~= old(self)@.update(i as int, self@[i as int]));
                    assert(spec_index_of(old(self)@, info_key@) == i as int);
                    assert(spec_has_key(self@, info_key@));
                    if spec_all_regrets_nonneg(old(self)@) {
                        assert forall|a: int, k: int|
                            0 <= a < self@.len() && 0 <= k
                                < self@[a].regrets@.len() implies #[trigger] self@[a].regrets@[k]
                            >= 0 by {
                            if a != i as int {
                                assert(self@[a] == old(self)@[a]);
                            }
                            assert(old(self)@[a].regrets@[k] >= 0);
                        }
                    }
                }
            },
            None => {
                let n: usize = strategy.len();
                let zeros = zero_vec(n);
                let sums = apply_weights(&zeros, strategy, weight);
                let regrets = zero_vec(n);
                let rec = InfoSetRecord {
                    key: String::from_str(info_key),
                    regrets,
                    strategy_sums: sums,
                    action_names: None,
                };
                self.records.push(rec);
                proof {
                    assert(self@.last().key@ == info_key@);
                    assert(spec_has_key(self@, info_key@));
                    if spec_all_regrets_nonneg(old(self)@) {
                        assert forall|a: int, k: int|
                            0 <= a < self@.len() && 0 <= k
                                < self@[a].regrets@.len() implies #[trigger] self@[a].regrets@[k]
                            >= 0 by {
                            assert(self@.len() == old(self)@.len() + 1);
                            if a < self@.len() - 1 {
                                assert(self@[a] == old(self)@[a]);
                                assert(old(self)@[a].regrets@[k] >= 0);
                            } else {
                                assert(self@[a].regrets@ == zero_seq(n as nat));
                            }
                        }
                    }
                }
            },
        }
    }

    /// Store action names for a seen information set; names already
    /// stored are kept.  A key without a record is left unchanged.
    pub fn set_action_names(&mut self, info_key: &str, names: Vec<String>)
        requires
            old(self).wf(),
        ensures
            final(self).wf(),
            spec_all_regrets_nonneg(old(self)@) ==> spec_all_regrets_nonneg(final(self)@),
            spec_names_only_set(old(self)@, final(self)@, info_key@),
            spec_has_key(old(self)@, info_key@) ==> {
                let i = spec_index_of(old(self)@, info_key@);
                let r0 = old(self)@[i];
                final(self)@[i].action_names == (if r0.action_names is None {
                    Some(names)
                } else {
                    r0.action_names
                })
            },
    {
        match self.find(info_key) {
            Some(i) => {
                let mut rec = self.records.remove(i);
                if rec.action_names.is_none() {
                    rec.action_names = Some(names);
                }
                self.records.insert(i, rec);
                proof {
                    assert(self@ =~= old(self)@.update(i as int, self@[i as int]));
                    if spec_all_regrets_nonneg(old(self)@) {
                        assert forall|a: int, k: int|
                            0 <= a < self@.len() && 0 <= k
                                < self@[a].regrets@.len() implies #[trigger] self@[a].regrets@[k]
                            >= 0 by {
                            if a != i as int {
                                assert(self@[a] == old(self)@[a]);
                            } else {
                                assert(self@[a].regrets@ == old(self)@[a].regrets@);
                            }
                            assert(old(self)@[a].regrets@[k] >= 0);
                        }
                    }
                }
            },
            None => {},
        }
    }

    /// The action names stored for a key, if any.
    pub fn get_action_names(&self, info_key: &str) -> (r: Option<Vec<String>>)
        requires
            self.wf(),
        ensures
            match r {
                Some(ns) => {
                    &&& spec_has_key(self@, info_key@)
                    &&& spec_names_like(Some(ns), spec_record_of(self@, info_key@).action_names)
                },
                None => !spec_has_key(self@, info_key@) || spec_record_of(
                    self@,
                    info_key@,
                ).action_names is None,
            },
    {
        match self.find(info_key) {
            Some(i) => match &self.records[i].action_names {
                Some(ns) => Some(clone_string_vec(ns)),
                None => None,
            },
            None => None,
        }
    }

    /// Multiply every stored regret by `discount / PROB_ONE`.
    pub fn discount_regrets(&mut self, discount: u64)
        requires
            old(self).wf(),
            discount <= PROB_ONE,
        ensures
            final(self).wf(),
            final(self)@.len() == old(self)@.len(),
            spec_all_regrets_nonneg(old(self)@) ==> spec_all_regrets_nonneg(final(self)@),
            forall|i: int|
                0 <= i < old(self)@.len() ==> {
                    let r0 = old(self)@[i];
                    let r1 = #[trigger] final(self)@[i];
                    &&& r1.key@ == r0.key@
                    &&& r1.regrets@ == spec_discounted_vec(r0.regrets@, discount as int)
                    &&& r1.strategy_sums@ == r0.strategy_sums@
                    &&& spec_names_like(r1.action_names, r0.action_names)
                },
    {
        let n: usize = self.records.len();
        let mut out: Vec<InfoSetRecord> = Vec::new();
        let mut i: usize = 0;
        while i < n
            invariant
                i <= n,
                n == old(self)@.len(),
                self@ == old(self)@,
                self.wf(),
                discount <= PROB_ONE,
                out@.len() == i,
                forall|j: int|
                    0 <= j < i ==> {
                        let r0 = old(self)@[j];
                        let r1 = #[trigger] out@[j];
                        &&& r1.key@ == r0.key@
                        &&& r1.regrets@ == spec_discounted_vec(r0.regrets@, discount as int)
                        &&& r1.strategy_sums@ == r0.strategy_sums@
                        &&& spec_names_like(r1.action_names, r0.action_names)
                        &&& r1.wf()
                    },
            decreases n - i,
        {
            let rec = clone_record(&self.records[i]);
            let new_regrets = discount_vec(&self.records[i].regrets, discount);
            let new_rec = InfoSetRecord {
                key: rec.key,
                regrets: new_regrets,
                strategy_sums: rec.strategy_sums,
                action_names: rec.action_names,
            };
            out.push(new_rec);
            i = i + 1;
        }
        self.records = out;
        proof {
            if spec_all_regrets_nonneg(old(self)@) {
                assert forall|a: int, k: int|
                    0 <= a < self@.len() && 0 <= k
                        < self@[a].regrets@.len() implies #[trigger] self@[a].regrets@[k]
                    >= 0 by {
                    assert(self@[a].regrets@ == spec_discounted_vec(
                        old(self)@[a].regrets@,
                        discount as int,
                    ));
                    assert(old(self)@[a].regrets@[k] >= 0);
                    let x = old(self)@[a].regrets@[k] as int;
                    lemma_div_pos_is_pos(x * discount as int, PROB_ONE as int);
                    assert(x * discount as int >= 0) by (nonlinear_arith)
                        requires
                            x >= 0,
                            discount >= 0;
                    lemma_mul_inequality(discount as int, PROB_ONE as int, x);
                    assert(x * discount as int == discount as int * x) by (nonlinear_arith);
                    assert(x * PROB_ONE as int == PROB_ONE as int * x) by (nonlinear_arith);
                    lemma_div_is_ordered(
                        x * discount as int,
                        PROB_ONE as int * x,
                        PROB_ONE as int,
                    );
                    lemma_div_multiples_vanish(x, PROB_ONE as int);
                    assert(0 <= spec_discounted(x, discount as int) <= x);
                    assert(self@[a].regrets@[k] as int == spec_discounted(x, discount as int));
                }
            }
        }
    }

    /// Multiply every stored strategy sum by `discount / PROB_ONE`.
    pub fn discount_strategy_sums(&mut self, discount: u64)
        requires
            old(self).wf(),
            discount <= PROB_ONE,
        ensures
            final(self).wf(),
            final(self)@.len() == old(self)@.len(),
            spec_all_regrets_nonneg(old(self)@) ==> spec_all_regrets_nonneg(final(self)@),
            forall|i: int|
                0 <= i < old(self)@.len() ==> {
                    let r0 = old(self)@[i];
                    let r1 = #[trigger] final(self)@[i];
                    &&& r1.key@ == r0.key@
                    &&& r1.regrets@ == r0.regrets@
                    &&& r1.strategy_sums@ == spec_discounted_vec(r0.strategy_sums@, discount as int)
                    &&& spec_names_like(r1.action_names, r0.action_names)
                },
    {
        let n: usize = self.records.len();
        let mut out: Vec<InfoSetRecord> = Vec::new();
        let mut i: usize = 0;
        while i < n
            invariant
                i <= n,
                n == old(self)@.len(),
                self@ == old(self)@,
                self.wf(),
                discount <= PROB_ONE,
                out@.len() == i,
                forall|j: int|
                    0 <= j < i ==> {
                        let r0 = old(self)@[j];
                        let r1 = #[trigger] out@[j];
                        &&& r1.key@ == r0.key@
                        &&& r1.regrets@ == r0.regrets@
                        &&& r1.strategy_sums@ == spec_discounted_vec(
                            r0.strategy_sums@,
                            discount as int,
                        )
                        &&& spec_names_like(r1.action_names, r0.action_names)
                        &&& r1.wf()
                    },
            decreases n - i,
        {
            let rec = clone_record(&self.records[i]);
            let new_sums = discount_vec(&self.records[i].strategy_sums, discount);
            let new_rec = InfoSetRecord {
                key: rec.key,
                regrets: rec.regrets,
                strategy_sums: new_sums,
                action_names: rec.action_names,
            };
            out.push(new_rec);
            i = i + 1;
        }
        self.records = out;
        proof {
            if spec_all_regrets_nonneg(old(self)@) {
                assert forall|a: int, k: int|
                    0 <= a < self@.len() && 0 <= k
                        < self@[a].regrets@.len() implies #[trigger] self@[a].regrets@[k]
                    >= 0 by {
                    assert(self@[a].regrets@ == old(self)@[a].regrets@);
                    assert(old(self)@[a].regrets@[k] >= 0);
                }
            }
        }
    }

    /// Export the store's contents: a copy of every record.
    pub fn export(&self) -> (r: StorageExport)
        requires
            self.wf(),
        ensures
            r.entries@.len() == self@.len(),
            forall|i: int|
                0 <= i < self@.len() ==> spec_record_like(#[trigger] r.entries@[i], self@[i]),
            r.wf(),
    {
        let n: usize = self.records.len();
        let mut out: Vec<InfoSetRecord> = Vec::new();
        let mut i: usize = 0;
        while i < n
            invariant
                i <= n,
                n == self@.len(),
                self.wf(),
                out@.len() == i,
                forall|j: int|
                    0 <= j < i ==> spec_record_like(#[trigger] out@[j], self@[j]),
            decreases n - i,
        {
            out.push(clone_record(&self.records[i]));
            i = i + 1;
        }
        proof {
            assert forall|i: int, j: int| 0 <= i < j < out@.len() implies out@[i].key@
                != out@[j].key@ by {
                assert(spec_record_like(out@[i], self@[i]));
                assert(spec_record_like(out@[j], self@[j]));
            }
            assert forall|i: int| 0 <= i < out@.len() implies out@[i].wf() by {
                assert(spec_record_like(out@[i], self@[i]));
            }
        }
        StorageExport { entries: out }
    }

    /// Replace the store's contents with exported data.  Importing what
    /// `export` produced restores the store record for record, so
    /// export, import and export again give the same image twice.
    pub fn import(&mut self, data: StorageExport)
        requires
            data.wf(),
        ensures
            final(self).wf(),
            final(self)@ == data.entries@,
    {
        self.records = data.entries;
    }
}

/// Clamp an integer into `i64` range.
pub open spec fn clamp_i64(x: int) -> int {
    if x > i64::MAX as int {
        i64::MAX as int
    } else if x < i64::MIN as int {
        i64::MIN as int
    } else {
        x
    }
}

/// Clamp an integer into `u64` range from above.
pub open spec fn clamp_u64(x: int) -> int {
    if x > u64::MAX as int {
        u64::MAX as int
    } else {
        x
    }
}

/// One information set's average strategy at snapshot time.
#[derive(Debug, Clone)]
pub struct SnapshotEntry {
    /// The information-set key.
    pub key: String,
    /// The average strategy at snapshot time.
    pub strategy: Vec<u64>,
    /// The total accumulated strategy weight, used to tell visited
    /// information sets from unvisited ones.
    pub total: i64,
}

/// A snapshot of all average strategies, for drift measurement.
#[derive(Debug, Clone)]
pub struct StrategySnapshot {
    /// One entry per information set, in store order.
    pub entries: Vec<SnapshotEntry>,
}

impl StrategySnapshot {
    /// Snapshot invariant: distinct keys, probabilities in range, and
    /// non-negative totals.
    pub open spec fn wf(self) -> bool {
        &&& forall|i: int, j: int|
            0 <= i < j < self.entries@.len() ==> (#[trigger] self.entries@[i]).key@ != (
            #[trigger] self.entries@[j]).key@
        &&& forall|i: int| 0 <= i < self.entries@.len() ==> (#[trigger] self.entries@[i]).total >= 0
        &&& forall|i: int, k: int|
            0 <= i < self.entries@.len() && 0 <= k < self.entries@[i].strategy@.len()
                ==> #[trigger] self.entries@[i].strategy@[k] <= PROB_ONE
        &&& forall|i: int|
            0 <= i < self.entries@.len() ==> sum_u64(
                (#[trigger] self.entries@[i]).strategy@,
            ) <= PROB_ONE
    }

    /// An empty snapshot.
    pub fn new() -> (r: StrategySnapshot)
        ensures
            r.entries@.len() == 0,
            r.wf(),
    {
        StrategySnapshot { entries: Vec::new() }
    }
}

/// Whether a snapshot is the image of a store's records: one entry per
/// record, in order, holding the key, the normalised average strategy
/// and the clamped total accumulated weight.
pub open spec fn spec_snapshot_like(recs: Seq<InfoSetRecord>, sn: StrategySnapshot) -> bool {
    &&& sn.entries@.len() == recs.len()
    &&& forall|i: int|
        0 <= i < recs.len() ==> {
            let e = #[trigger] sn.entries@[i];
            &&& e.key@ == recs[i].key@
            &&& e.strategy@ == normalized_strategy(recs[i].strategy_sums@)
            &&& e.total as int == clamp_i64(sum_i64(recs[i].strategy_sums@))
        }
}

/// Whether a snapshot holds the given key.
pub open spec fn spec_snap_has(s: Seq<SnapshotEntry>, key: Seq<char>) -> bool {
    exists|i: int| 0 <= i < s.len() && (#[trigger] s[i]).key@ == key
}

/// The snapshot entry with the given key.
pub open spec fn spec_snap_of(s: Seq<SnapshotEntry>, key: Seq<char>) -> SnapshotEntry {
    s[choose|i: int| 0 <= i < s.len() && (#[trigger] s[i]).key@ == key]
}

/// Sum of absolute differences over the first `n` entries of two
/// strategy vectors.
pub open spec fn abs_diff_upto(a: Seq<u64>, b: Seq<u64>, n: int) -> int
    decreases n,
{
    if n <= 0 {
        0
    } else {
        abs_diff_upto(a, b, n - 1) + abs_int(a[n - 1] as int - b[n - 1] as int)
    }
}

/// Absolute value.
pub open spec fn abs_int(x: int) -> int {
    if x >= 0 {
        x
    } else {
        -x
    }
}

/// Whether a record is counted by the drift indicator: it is skipped
/// only when it was unvisited both now and at snapshot time.
pub open spec fn spec_ci_counted(rec: InfoSetRecord, snap: Seq<SnapshotEntry>) -> bool {
    let cur = sum_i64(rec.strategy_sums@);
    let old_total: int = if spec_snap_has(snap, rec.key@) {
        spec_snap_of(snap, rec.key@).total as int
    } else {
        0
    };
    !(cur == 0 && old_total == 0)
}

/// A record's contribution to the drift total: the absolute strategy
/// change against the snapshot, or against uniform for a key the
/// snapshot does not hold.
pub open spec fn spec_ci_change(rec: InfoSetRecord, snap: Seq<SnapshotEntry>) -> int {
    let new = normalized_strategy(rec.strategy_sums@);
    if spec_snap_has(snap, rec.key@) {
        let old = spec_snap_of(snap, rec.key@).strategy@;
        let n = if new.len() <= old.len() {
            new.len() as int
        } else {
            old.len() as int
        };
        abs_diff_upto(new, old, n)
    } else {
        abs_diff_upto(new, uniform_strategy(new.len()), new.len() as int)
    }
}

/// Number of counted records among the first `n`.
pub open spec fn spec_ci_count(recs: Seq<InfoSetRecord>, snap: Seq<SnapshotEntry>, n: int) -> int
    decreases n,
{
    if n <= 0 {
        0
    } else {
        spec_ci_count(recs, snap, n - 1) + if spec_ci_counted(recs[n - 1], snap) {
            1int
        } else {
            0int
        }
    }
}

/// Total drift over the counted records among the first `n`.
pub open spec fn spec_ci_total(recs: Seq<InfoSetRecord>, snap: Seq<SnapshotEntry>, n: int) -> int
    decreases n,
{
    if n <= 0 {
        0
    } else {
        spec_ci_total(recs, snap, n - 1) + if spec_ci_counted(recs[n - 1], snap) {
            spec_ci_change(recs[n - 1], snap)
        } else {
            0int
        }
    }
}

impl RegretStorage {
    /// Take a snapshot of every information set's average strategy and
    /// total accumulated weight.
    pub fn snapshot_strategies(&self) -> (r: StrategySnapshot)
        requires
            self.wf(),
        ensures
            r.entries@.len() == self@.len(),
            spec_snapshot_like(self@, r),
            r.wf(),
    {
        let n: usize = self.records.len();
        let mut out: Vec<SnapshotEntry> = Vec::new();
        let mut i: usize = 0;
        while i < n
            invariant
                i <= n,
                n == self@.len(),
                self.wf(),
                out@.len() == i,
                forall|j: int|
                    0 <= j < i ==> {
                        let e = #[trigger] out@[j];
                        &&& e.key@ == self@[j].key@
                        &&& e.strategy@ == normalized_strategy(self@[j].strategy_sums@)
                        &&& e.total as int == clamp_i64(sum_i64(self@[j].strategy_sums@))
                        &&& e.total >= 0
                        &&& forall|k: int| 0 <= k < e.strategy@.len() ==> e.strategy@[k] <= PROB_ONE
                        &&& sum_u64(e.strategy@) <= PROB_ONE
                    },
            decreases n - i,
        {
            let strategy = normalized_strategy_vec(&self.records[i].strategy_sums);
            let total = sum_i64_sat(&self.records[i].strategy_sums);
            proof {
                crate::fixed::lemma_sum_i64_nonneg(self@[i as int].strategy_sums@);
                lemma_normalized_in_range(self@[i as int].strategy_sums@);
                lemma_normalized_sum_le(self@[i as int].strategy_sums@);
            }
            out.push(
                SnapshotEntry { key: self.records[i].key.clone(), strategy, total },
            );
            i = i + 1;
        }
        StrategySnapshot { entries: out }
    }

    /// The drift indicator against an earlier snapshot: one hundred
    /// times the average absolute strategy change per counted
    /// information set, in `PROB_ONE` units, or `None` when nothing can
    /// be compared.  New information sets are compared against the
    /// uniform strategy.
    pub fn calculate_ci(&self, snapshot: &StrategySnapshot) -> (r: Option<u64>)
        requires
            self.wf(),
            snapshot.wf(),
        ensures
            ({
                let cnt = spec_ci_count(self@, snapshot.entries@, self@.len() as int);
                let tot = spec_ci_total(self@, snapshot.entries@, self@.len() as int);
                r == if cnt == 0 {
                    None::<u64>
                } else {
                    Some((clamp_u64(100 * tot / cnt)) as u64)
                }
            }),
    {
        let n: usize = self.records.len();
        let mut count: u64 = 0;
        let mut total: u128 = 0;
        let mut i: usize = 0;
        proof {
            assert((0 as int) * (2 * PROB_ONE as int) == 0) by (nonlinear_arith);
        }
        while i < n
            invariant
                i <= n,
                n == self@.len(),
                self.wf(),
                snapshot.wf(),
                count as int == spec_ci_count(self@, snapshot.entries@, i as int),
                total as int == spec_ci_total(self@, snapshot.entries@, i as int),
                count <= i,
                total as int <= (i as int) * (2 * PROB_ONE as int),
            decreases n - i,
        {
            let rec = &self.records[i];
            let cur_total = sum_i64_sat(&rec.strategy_sums);
            let old_total: i64 = match snap_find(snapshot, rec.key.as_str()) {
                Some(j) => snapshot.entries[j].total,
                None => 0,
            };
            proof {
                crate::fixed::lemma_sum_i64_nonneg(self@[i as int].strategy_sums@);
                lemma_ci_step(self@, snapshot.entries@, i as int);
            }
            if cur_total == 0 && old_total == 0 {
                proof {
                    assert(clamp_i64(sum_i64(self@[i as int].strategy_sums@)) == 0 ==> sum_i64(
                        self@[i as int].strategy_sums@,
                    ) == 0);
                    assert(!spec_ci_counted(self@[i as int], snapshot.entries@));
                    assert((i as int) * (2 * PROB_ONE as int) <= (i as int + 1) * (2
                        * PROB_ONE as int)) by (nonlinear_arith)
                        requires
                            i >= 0;
                }
            } else {
                let new_strategy = normalized_strategy_vec(&rec.strategy_sums);
                proof {
                    lemma_normalized_in_range(self@[i as int].strategy_sums@);
                }
                proof {
                    lemma_normalized_sum_le(self@[i as int].strategy_sums@);
                }
                let change: u64 = match snap_find(snapshot, rec.key.as_str()) {
                    Some(j) => abs_diff_sum(&new_strategy, &snapshot.entries[j].strategy),
                    None => {
                        let uni = uniform_vec(new_strategy.len());
                        proof {
                            lemma_uniform_in_range(new_strategy@.len());
                            lemma_uniform_sum_le(new_strategy@.len());
                        }
                        abs_diff_sum(&new_strategy, &uni)
                    },
                };
                proof {
                    assert(spec_ci_counted(self@[i as int], snapshot.entries@));
                }
                proof {
                    assert((i as int + 1) * (2 * PROB_ONE as int) == (i as int) * (2
                        * PROB_ONE as int) + 2 * PROB_ONE as int) by (nonlinear_arith);
                    assert((i as int + 1) * (2 * PROB_ONE as int) <= (u64::MAX as int + 1) * (2
                        * PROB_ONE as int)) by (nonlinear_arith)
                        requires
                            i as int <= u64::MAX as int;
                    assert((u64::MAX as int + 1) * (2 * PROB_ONE as int) < u128::MAX as int)
                        by (nonlinear_arith);
                }
                count = count + 1;
                total = total + change as u128;
            }
            i = i + 1;
        }
        if count == 0 {
            return None;
        }
        proof {
            assert((n as int) * (2 * PROB_ONE as int) <= (u64::MAX as int) * (2 * PROB_ONE as int))
                by (nonlinear_arith)
                requires
                    n as int <= u64::MAX as int;
            assert(100 * ((u64::MAX as int) * (2 * PROB_ONE as int)) < u128::MAX as int)
                by (nonlinear_arith);
            assert(total as int <= (n as int) * (2 * PROB_ONE as int));
            assert(100 * total as int <= 100 * ((u64::MAX as int) * (2 * PROB_ONE as int))) by (nonlinear_arith)
                requires
                    total as int <= (n as int) * (2 * PROB_ONE as int),
                    (n as int) * (2 * PROB_ONE as int) <= (u64::MAX as int) * (2 * PROB_ONE as int);
        }
        let scaled: u128 = 100 * total;
        let ci: u128 = scaled / (count as u128);
        proof {
            let tot = spec_ci_total(self@, snapshot.entries@, self@.len() as int);
            assert(scaled as int == 100 * tot);
        }
        if ci > u64::MAX as u128 {
            Some(u64::MAX)
        } else {
            Some(ci as u64)
        }
    }
}

/// The sum of a strategy-sum vector, clamped into `i64`.
fn sum_i64_sat(v: &Vec<i64>) -> (r: i64)
    ensures
        r as int == clamp_i64(sum_i64(v@)),
{
    let n: usize = v.len();
    let mut total: i128 = 0;
    let mut i: usize = 0;
    proof {
        assert((0 as i128) * (i64::MAX as i128) == 0) by (nonlinear_arith);
        assert(-(0 as i128) * (i64::MAX as i128 + 1) == 0) by (nonlinear_arith);
    }
    while i < n
        invariant
            i <= n,
            n == v@.len(),
            total == sum_i64(v@.subrange(0, i as int)),
            -(i as i128) * (i64::MAX as i128 + 1) <= total <= (i as i128) * (i64::MAX as i128),
        decreases n - i,
    {
        let x: i64 = v[i];
        proof {
            assert(v@.subrange(0, i + 1).drop_last() =~= v@.subrange(0, i as int));
            assert(v@.subrange(0, i + 1).last() == x);
            assert((i as i128 + 1) * (i64::MAX as i128) == (i as i128) * (i64::MAX as i128)
                + i64::MAX as i128) by (nonlinear_arith);
            assert((-(i as i128) - 1) * (i64::MAX as i128 + 1) == -(i as i128) * (i64::MAX
                as i128 + 1) - (i64::MAX as i128 + 1)) by (nonlinear_arith);
        }
        total = total + x as i128;
        i = i + 1;
    }
    proof {
        assert(v@.subrange(0, n as int) =~= v@);
    }
    if total > i64::MAX as i128 {
        i64::MAX
    } else if total < i64::MIN as i128 {
        i64::MIN
    } else {
        total as i64
    }
}

/// Find a key in a snapshot.
fn snap_find(snapshot: &StrategySnapshot, key: &str) -> (r: Option<usize>)
    requires
        snapshot.wf(),
    ensures
        match r {
            Some(j) => {
                &&& j < snapshot.entries@.len()
                &&& snapshot.entries@[j as int].key@ == key@
                &&& spec_snap_has(snapshot.entries@, key@)
                &&& spec_snap_of(snapshot.entries@, key@) == snapshot.entries@[j as int]
            },
            None => !spec_snap_has(snapshot.entries@, key@),
        },
{
    let n: usize = snapshot.entries.len();
    let mut i: usize = 0;
    while i < n
        invariant
            i <= n,
            n == snapshot.entries@.len(),
            snapshot.wf(),
            forall|j: int| 0 <= j < i ==> (#[trigger] snapshot.entries@[j]).key@ != key@,
        decreases n - i,
    {
        if str_eq(snapshot.entries[i].key.as_str(), key) {
            proof {
                let w = choose|w: int|
                    0 <= w < snapshot.entries@.len() && (#[trigger] snapshot.entries@[w]).key@
                        == key@;
                assert(w == i as int);
            }
            return Some(i);
        }
        i = i + 1;
    }
    None
}

/// Sum of absolute differences of two probability vectors, over their
/// common prefix.
fn abs_diff_sum(a: &Vec<u64>, b: &Vec<u64>) -> (r: u64)
    requires
        sum_u64(a@) <= PROB_ONE,
        sum_u64(b@) <= PROB_ONE,
        forall|k: int| 0 <= k < a@.len() ==> a@[k] <= PROB_ONE,
        forall|k: int| 0 <= k < b@.len() ==> b@[k] <= PROB_ONE,
    ensures
        r as int == abs_diff_upto(
            a@,
            b@,
            if a@.len() <= b@.len() {
                a@.len() as int
            } else {
                b@.len() as int
            },
        ),
        r <= 2 * PROB_ONE,
{
    let n: usize = if a.len() <= b.len() {
        a.len()
    } else {
        b.len()
    };
    proof {
        crate::fixed::lemma_sum_u64_upto_full(a@);
        crate::fixed::lemma_sum_u64_upto_full(b@);
        lemma_sum_u64_upto_nonneg(a@, 0);
        lemma_sum_u64_upto_nonneg(b@, 0);
    }
    let mut total: u64 = 0;
    let mut i: usize = 0;
    while i < n
        invariant
            i <= n,
            n <= a@.len(),
            n <= b@.len(),
            sum_u64(a@) <= PROB_ONE,
            sum_u64(b@) <= PROB_ONE,
            total as int == abs_diff_upto(a@, b@, i as int),
            total as int <= crate::fixed::sum_u64_upto(a@, i as int)
                + crate::fixed::sum_u64_upto(b@, i as int),
        decreases n - i,
    {
        let x: u64 = a[i];
        let y: u64 = b[i];
        let d: u64 = if x >= y {
            x - y
        } else {
            y - x
        };
        proof {
            lemma_sum_u64_upto_mono(a@, i as int + 1);
            lemma_sum_u64_upto_mono(b@, i as int + 1);
            crate::fixed::lemma_sum_u64_upto_full(a@);
            crate::fixed::lemma_sum_u64_upto_full(b@);
        }
        total = total + d;
        i = i + 1;
    }
    proof {
        lemma_sum_u64_upto_mono(a@, i as int);
        lemma_sum_u64_upto_mono(b@, i as int);
        crate::fixed::lemma_sum_u64_upto_full(a@);
        crate::fixed::lemma_sum_u64_upto_full(b@);
    }
    total
}

/// A prefix sum of a strategy vector is at most the whole sum.
proof fn lemma_sum_u64_upto_mono(s: Seq<u64>, i: int)
    requires
        0 <= i <= s.len(),
    ensures
        crate::fixed::sum_u64_upto(s, i) <= crate::fixed::sum_u64_upto(s, s.len() as int),
        crate::fixed::sum_u64_upto(s, i) >= 0,
    decreases s.len() - i,
{
    lemma_sum_u64_upto_nonneg(s, 0);
    if i < s.len() {
        lemma_sum_u64_upto_mono(s, i + 1);
    }
    lemma_sum_u64_upto_nonneg_from(s, i);
}

/// Prefix sums of a strategy vector are non-negative.
proof fn lemma_sum_u64_upto_nonneg(s: Seq<u64>, unused: int)
    ensures
        forall|j: int| 0 <= j <= s.len() ==> #[trigger] crate::fixed::sum_u64_upto(s, j) >= 0,
{
    assert forall|j: int| 0 <= j <= s.len() implies #[trigger] crate::fixed::sum_u64_upto(s, j)
        >= 0 by {
        lemma_sum_u64_upto_nonneg_from(s, j);
    }
}

proof fn lemma_sum_u64_upto_nonneg_from(s: Seq<u64>, j: int)
    ensures
        crate::fixed::sum_u64_upto(s, j) >= 0,
    decreases (if j > 0 { j } else { 0 }),
{
    if j > 0 {
        lemma_sum_u64_upto_nonneg_from(s, j - 1);
    }
}

/// A normalised (or uniform) strategy sums to at most `PROB_ONE`.
proof fn lemma_normalized_sum_le(sums: Seq<i64>)
    requires
        forall|k: int| 0 <= k < sums.len() ==> sums[k] >= 0,
    ensures
        sum_u64(normalized_strategy(sums)) <= PROB_ONE,
{
    if sum_i64(sums) > 0 {
        crate::fixed::lemma_normalized_strategy_sum(sums);
    } else {
        lemma_uniform_sum_le(sums.len());
    }
}

/// The uniform strategy sums to at most `PROB_ONE`.
proof fn lemma_uniform_sum_le(n: nat)
    ensures
        sum_u64(uniform_strategy(n)) <= PROB_ONE,
{
    if n > 0 {
        crate::fixed::lemma_uniform_strategy_sum(n);
    }
}

/// Normalised strategies stay within `PROB_ONE`.
proof fn lemma_normalized_in_range(sums: Seq<i64>)
    requires
        forall|k: int| 0 <= k < sums.len() ==> sums[k] >= 0,
    ensures
        forall|k: int|
            0 <= k < normalized_strategy(sums).len() ==> #[trigger] normalized_strategy(
                sums,
            )[k] <= PROB_ONE,
        normalized_strategy(sums).len() == sums.len(),
{
    let s = sum_i64(sums);
    if s > 0 {
        let n = sums.len() as int;
        assert(n >= 1) by {
            if sums.len() == 0 {
                assert(sum_i64(sums) == 0);
            }
        }
        crate::fixed::lemma_sum_i64_matches_int(sums, n);
        crate::fixed::lemma_sum_i64_upto_full(sums);
        crate::fixed::lemma_exact_shares(crate::fixed::int_vals(sums));
    } else {
        lemma_uniform_in_range(sums.len());
    }
}

/// The uniform strategy stays within `PROB_ONE`.
proof fn lemma_uniform_in_range(n: nat)
    ensures
        forall|k: int|
            0 <= k < uniform_strategy(n).len() ==> #[trigger] uniform_strategy(n)[k] <= PROB_ONE,
        uniform_strategy(n).len() == n,
{
    if n > 0 {
        crate::fixed::lemma_uniform_strategy_sum(n);
        assert forall|k: int| 0 <= k < uniform_strategy(n).len() implies
            #[trigger] uniform_strategy(n)[k] <= PROB_ONE by {
            lemma_div_pos_is_pos(PROB_ONE as int, n as int);
            vstd::arithmetic::div_mod::lemma_mod_bound(PROB_ONE as int, n as int);
            vstd::arithmetic::div_mod::lemma_fundamental_div_mod(PROB_ONE as int, n as int);
            assert(n as int * (PROB_ONE as int / n as int) >= PROB_ONE as int / n as int)
                by (nonlinear_arith)
                requires
                    n >= 1,
                    PROB_ONE as int / n as int >= 0;
        }
    }
}

/// One step of the drift totals.
proof fn lemma_ci_step(recs: Seq<InfoSetRecord>, snap: Seq<SnapshotEntry>, i: int)
    requires
        0 <= i < recs.len(),
    ensures
        spec_ci_count(recs, snap, i + 1) == spec_ci_count(recs, snap, i) + if spec_ci_counted(
            recs[i],
            snap,
        ) {
            1int
        } else {
            0int
        },
        spec_ci_total(recs, snap, i + 1) == spec_ci_total(recs, snap, i) + if spec_ci_counted(
            recs[i],
            snap,
        ) {
            spec_ci_change(recs[i], snap)
        } else {
            0int
        },
{
}

/// Regret matching keeps the result's width and stays within
/// `PROB_ONE` entrywise.
pub proof fn lemma_matched_in_range(regs: Seq<i64>)
    ensures
        matched_strategy(regs).len() == regs.len(),
        forall|k: int|
            0 <= k < matched_strategy(regs).len() ==> #[trigger] matched_strategy(regs)[k]
                <= PROB_ONE,
{
    let s = sum_pos(regs);
    if s > 0 {
        let n = regs.len() as int;
        assert(n >= 1) by {
            if regs.len() == 0 {
                assert(sum_pos(regs) == 0);
            }
        }
        crate::fixed::lemma_sum_pos_matches_int(regs, n);
        crate::fixed::lemma_sum_pos_upto_full(regs);
        crate::fixed::lemma_exact_shares(crate::fixed::pos_vals(regs));
    } else {
        lemma_uniform_in_range_pub(regs.len());
    }
}

/// Regret matching produces at most one unit of probability in total.
pub proof fn lemma_matched_sum_le(regs: Seq<i64>)
    ensures
        sum_u64(matched_strategy(regs)) <= PROB_ONE as int,
{
    if sum_pos(regs) > 0 {
        crate::fixed::lemma_matched_strategy_sum(regs);
    } else {
        lemma_uniform_sum_le_pub(regs.len());
    }
}

/// The uniform strategy stays within `PROB_ONE` entrywise.
pub proof fn lemma_uniform_in_range_pub(n: nat)
    ensures
        uniform_strategy(n).len() == n,
        forall|k: int|
            0 <= k < uniform_strategy(n).len() ==> #[trigger] uniform_strategy(n)[k] <= PROB_ONE,
{
    lemma_uniform_in_range(n);
}

/// The uniform strategy's total probability is at most one.
pub proof fn lemma_uniform_sum_le_pub(n: nat)
    ensures
        sum_u64(uniform_strategy(n)) <= PROB_ONE as int,
{
    lemma_uniform_sum_le(n);
}

/// Normalisation keeps the result's width and stays within
/// `PROB_ONE` entrywise.
pub proof fn lemma_normalized_in_range_pub(sums: Seq<i64>)
    requires
        forall|k: int| 0 <= k < sums.len() ==> sums[k] >= 0,
    ensures
        normalized_strategy(sums).len() == sums.len(),
        forall|k: int|
            0 <= k < normalized_strategy(sums).len() ==> #[trigger] normalized_strategy(sums)[k]
                <= PROB_ONE,
{
    lemma_normalized_in_range(sums);
}

/// Normalisation produces at most one unit of probability in total.
pub proof fn lemma_normalized_sum_le_pub(sums: Seq<i64>)
    requires
        forall|k: int| 0 <= k < sums.len() ==> sums[k] >= 0,
    ensures
        sum_u64(normalized_strategy(sums)) <= PROB_ONE as int,
{
    lemma_normalized_sum_le(sums);
}

/// Discount composition: applying `discount(a)` and then `discount(b)`
/// lands within two fixed-point units of the ideal combined discount
/// `x * a * b / PROB_ONE^2`, never above it (for non-negative values;
/// negative values mirror).  Exact equality cannot hold of truncating
/// arithmetic: each application may lose up to one unit, as applying
/// one-half twice to the value 3 shows (3, then 1, then 0, while the
/// ideal quarter of 3 is 0.75).
pub proof fn lemma_discount_composition(x: int, a: int, b: int)
    requires
        x >= 0,
        0 <= a <= PROB_ONE as int,
        0 <= b <= PROB_ONE as int,
    ensures
        ({
            let k = PROB_ONE as int;
            let z = spec_discounted(spec_discounted(x, a), b);
            &&& z <= x * a * b / (k * k)
            &&& z > x * a * b / (k * k) - 2
        }),
{
    let k = PROB_ONE as int;
    let p = x * a;
    assert(x * a >= 0) by (nonlinear_arith)
        requires
            x >= 0,
            a >= 0;
    let q1 = p / k;
    lemma_div_pos_is_pos(p, k);
    assert(spec_discounted(x, a) == q1);
    let s = q1 * b;
    assert(q1 * b >= 0) by (nonlinear_arith)
        requires
            q1 >= 0,
            b >= 0;
    let q2 = s / k;
    lemma_div_pos_is_pos(s, k);
    assert(spec_discounted(q1, b) == q2);
    lemma_fundamental_div_mod(p, k);
    lemma_mod_bound(p, k);
    let r1 = p % k;
    lemma_fundamental_div_mod(s, k);
    lemma_mod_bound(s, k);
    let r2 = s % k;
    // x * a * b == k * k * q2 + k * r2 + r1 * b, with the remainder
    // part in [0, 2 * k * k).
    let t = x * a * b;
    let d = k * k;
    assert(t == d * q2 + k * r2 + r1 * b) by (nonlinear_arith)
        requires
            p == k * q1 + r1,
            s == k * q2 + r2,
            s == q1 * b,
            t == x * a * b,
            p == x * a,
            d == k * k;
    assert(0 <= k * r2 + r1 * b) by (nonlinear_arith)
        requires
            0 <= r2,
            0 <= r1,
            0 <= b,
            k > 0;
    assert(k * r2 + r1 * b < 2 * d) by (nonlinear_arith)
        requires
            r2 < k,
            r1 < k,
            b <= k,
            d == k * k,
            k > 0,
            0 <= r1,
            0 <= r2,
            0 <= b;
    // From d * q2 <= t < d * (q2 + 2), the quotient t / d is q2 or
    // q2 + 1.
    assert(d * q2 <= t);
    assert(t < d * (q2 + 2)) by (nonlinear_arith)
        requires
            t == d * q2 + k * r2 + r1 * b,
            k * r2 + r1 * b < 2 * d;
    assert(d > 0) by (nonlinear_arith)
        requires
            k > 0,
            d == k * k;
    lemma_div_is_ordered(d * q2, t, d);
    lemma_div_multiples_vanish(q2, d);
    assert(q2 <= t / d);
    assert(t / d < q2 + 2) by {
        lemma_fundamental_div_mod(t, d);
        lemma_mod_bound(t, d);
        assert(t == d * (t / d) + t % d);
        if t / d >= q2 + 2 {
            assert(d * (t / d) >= d * (q2 + 2)) by (nonlinear_arith)
                requires
                    t / d >= q2 + 2,
                    d > 0;
        }
    }
}

} // verus!
