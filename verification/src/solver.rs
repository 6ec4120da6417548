//! The MCCFR solver: external-sampling counterfactual-regret
//! minimization, generic over any [`Game`].
//!
//! One iteration walks the game tree once per player.  At the
//! traverser's own decision nodes every action is explored and regrets
//! and strategy sums are updated; at opponents' nodes a single action
//! is sampled.  All arithmetic is fixed-point (see [`crate::fixed`]),
//! so a seeded, single-threaded run is exactly reproducible.

use vstd::arithmetic::div_mod::{
    lemma_div_is_ordered, lemma_div_multiples_vanish, lemma_div_pos_is_pos,
};
use vstd::arithmetic::mul::lemma_mul_inequality;
use vstd::prelude::*;

use crate::config::{spec_config_valid, CFRConfig, CFRStats};
use crate::fixed::{sum_i64, sum_u64, sum_u64_upto, PROB_ONE};
use crate::game::Game;
use crate::storage::{
    clamp_i64, clamp_u64, lemma_keys_preserved_step, spec_all_regrets_nonneg, spec_ci_count,
    spec_ci_total, spec_has_key, spec_index_of, spec_keys_preserved, spec_names_only_set,
    spec_record_of, spec_regrets_updated_store, spec_snapshot_like, spec_store_discounted,
    spec_sums_updated_store, InfoSetRecord, RegretStorage, StorageExport, StrategySnapshot,
};

verus! {

/// The largest payoff magnitude a game may use, in fixed-point units.
/// It leaves room for exact counterfactual-value arithmetic in 64 bits.
pub const MAX_PAYOFF: i64 = 1_000_000_000_000;

/// The largest player count the solver accepts.
pub const MAX_PLAYERS: usize = 1_000_000;

/// The iteration floor below which convergence is never declared.
pub const MIN_CONVERGENCE_ITERATIONS: u64 = 5_000;

/// The CFR solver for a game `G`.
pub struct CFRSolver<G: Game> {
    /// The game being solved.
    pub game: G,
    /// The solver configuration.
    pub config: CFRConfig,
    /// Cumulative regrets and strategy sums.
    pub storage: RegretStorage,
    /// Completed iterations.
    pub iteration: u64,
    /// Training statistics.
    pub stats: CFRStats,
    /// The random number generator.
    pub rng: rand::rngs::StdRng,
}

impl<G: Game> CFRSolver<G> {
    /// Solver invariant: the store is well-formed, the configuration
    /// valid, the game's payoffs and player count bounded, and every
    /// stored record's width agrees with its key's action count.
    pub open spec fn wf(self) -> bool {
        &&& self.storage.wf()
        &&& spec_config_valid(self.config)
        &&& 0 <= self.game.spec_payoff_bound() <= MAX_PAYOFF as int
        &&& 1 <= self.game.spec_num_players() <= MAX_PLAYERS as int
        &&& forall|i: int|
            0 <= i < self.storage@.len() ==> (#[trigger] self.storage@[i]).spec_num_actions()
                == self.game.spec_key_num_actions(self.storage@[i].key@)
    }

    /// The CFR+ invariant: with clamping on, every stored regret is
    /// non-negative.  It holds of a fresh solver and every operation
    /// keeps it.
    pub open spec fn spec_cfr_plus_invariant(self) -> bool {
        self.config.use_cfr_plus ==> spec_all_regrets_nonneg(self.storage@)
    }

    /// Create a solver for the given game and configuration.  The
    /// generator is seeded from the configuration, or from the system
    /// when no seed is set.
    pub fn new(game: G, config: CFRConfig) -> (s: CFRSolver<G>)
        requires
            spec_config_valid(config),
            0 <= game.spec_payoff_bound() <= MAX_PAYOFF as int,
            1 <= game.spec_num_players() <= MAX_PLAYERS as int,
        ensures
            s.wf(),
            s.game == game,
            s.config == config,
            s.iteration == 0,
            s.storage@.len() == 0,
    {
        let rng = match config.seed {
            Some(seed) => crate::rng::rng_from_seed(seed),
            None => crate::rng::rng_from_entropy(),
        };
        CFRSolver {
            game,
            config,
            storage: RegretStorage::new(),
            iteration: 0,
            stats: CFRStats::new(),
            rng,
        }
    }

    /// Create a solver whose store pre-allocates room for
    /// `capacity` information sets.
    pub fn with_capacity(game: G, config: CFRConfig, capacity: usize) -> (s: CFRSolver<G>)
        requires
            spec_config_valid(config),
            0 <= game.spec_payoff_bound() <= MAX_PAYOFF as int,
            1 <= game.spec_num_players() <= MAX_PLAYERS as int,
        ensures
            s.wf(),
            s.game == game,
            s.config == config,
            s.iteration == 0,
            s.storage@.len() == 0,
    {
        let rng = match config.seed {
            Some(seed) => crate::rng::rng_from_seed(seed),
            None => crate::rng::rng_from_entropy(),
        };
        CFRSolver {
            game,
            config,
            storage: RegretStorage::with_capacity(capacity),
            iteration: 0,
            stats: CFRStats::new(),
            rng,
        }
    }

    /// Core traversal: the traverser's expected payoff from this
    /// sub-game, with regrets and strategy sums updated along the way.
    /// A terminal root is returned at once, with no store mutation.
    fn traverse(&mut self, state: &G::State, traverser: usize, reach: &Vec<u64>) -> (v: i64)
        requires
            old(self).wf(),
            old(self).game.spec_state_ok(*state),
            (traverser as int) < old(self).game.spec_num_players(),
            reach@.len() == old(self).game.spec_num_players(),
            forall|k: int| 0 <= k < reach@.len() ==> reach@[k] <= PROB_ONE,
        ensures
            final(self).wf(),
            final(self).game == old(self).game,
            final(self).config == old(self).config,
            final(self).iteration == old(self).iteration,
            final(self).stats == old(self).stats,
            -old(self).game.spec_payoff_bound() <= v as int <= old(self).game.spec_payoff_bound(),
            old(self).game.spec_is_terminal(*state) ==> final(self).storage@ == old(
                self,
            ).storage@,
            old(self).game.spec_is_terminal(*state) ==> v as int == old(self).game.spec_payoff(
                *state,
                traverser as int,
            ),
            !old(self).game.spec_is_terminal(*state) && !old(self).game.spec_is_chance(*state)
                && old(self).game.spec_current_player(*state) == Some(traverser as int)
                ==> spec_has_key(final(self).storage@, old(self).game.spec_info_key(*state)),
            !old(self).game.spec_is_terminal(*state) && !old(self).game.spec_is_chance(*state)
                && old(self).game.spec_current_player(*state) == Some(traverser as int) ==> ({
                let key = old(self).game.spec_info_key(*state);
                let n = old(self).game.spec_key_num_actions(key);
                let strategy = old(self).storage.spec_current_strategy(key, n);
                exists|mid: Seq<InfoSetRecord>, vals: Seq<i64>|
                    {
                        &&& spec_keys_preserved(old(self).storage@, mid)
                        &&& vals.len() == n
                        &&& (forall|j: int|
                            0 <= j < vals.len() ==> -old(self).game.spec_payoff_bound() <= (
                            #[trigger] vals[j]) as int <= old(self).game.spec_payoff_bound())
                        &&& v as int == spec_expectation(strategy, vals)
                        &&& #[trigger] spec_player_node_updated(
                            mid,
                            final(self).storage@,
                            key,
                            strategy,
                            vals,
                            v as int,
                            old(self).config,
                            old(self).iteration,
                            reach@[traverser as int] as int,
                        )
                    }
            }),
            spec_keys_preserved(old(self).storage@, final(self).storage@),
            old(self).spec_cfr_plus_invariant() ==> final(self).spec_cfr_plus_invariant(),
        decreases self.game.spec_measure(*state), 1int,
    {
        if self.game.is_terminal(state) {
            return self.game.get_payoff(state, traverser);
        }
        if self.game.is_chance(state) {
            let next = sample_chance_state(&self.game, state, &mut self.rng);
            return self.traverse(&next, traverser, reach);
        }
        let player: usize = match self.game.current_player(state) {
            Some(p) => p,
            None => {
                return 0;
            },
        };
        let actions = self.game.available_actions(state);
        let n: usize = actions.len();
        if n == 0 {
            return 0;
        }
        let key = self.game.info_key(state);
        let strategy = self.storage.get_current_strategy(key.as_str(), n);
        proof {
            lemma_strategy_shape(*old(self), key@, n as nat, strategy@);
        }
        if player == traverser {
            self.traverse_player(state, traverser, reach, &actions, &strategy, &key)
        } else {
            self.traverse_opponent(state, traverser, reach, &actions, &strategy, player)
        }
    }

    /// Traversal at the traverser's own decision node: explore every
    /// action, update regrets by counterfactual value differences, and
    /// add the reach-weighted strategy to the strategy sums.
    fn traverse_player(
        &mut self,
        state: &G::State,
        traverser: usize,
        reach: &Vec<u64>,
        actions: &Vec<G::Action>,
        strategy: &Vec<u64>,
        key: &String,
    ) -> (v: i64)
        requires
            old(self).wf(),
            old(self).game.spec_state_ok(*state),
            old(self).game.spec_current_player(*state) is Some,
            (traverser as int) < old(self).game.spec_num_players(),
            reach@.len() == old(self).game.spec_num_players(),
            forall|k: int| 0 <= k < reach@.len() ==> reach@[k] <= PROB_ONE,
            key@ == old(self).game.spec_info_key(*state),
            actions@.len() == old(self).game.spec_key_num_actions(key@),
            actions@.len() >= 1,
            strategy@.len() == actions@.len(),
            forall|k: int| 0 <= k < strategy@.len() ==> strategy@[k] <= PROB_ONE,
            sum_u64(strategy@) <= PROB_ONE as int,
        ensures
            final(self).wf(),
            final(self).game == old(self).game,
            final(self).config == old(self).config,
            final(self).iteration == old(self).iteration,
            final(self).stats == old(self).stats,
            -old(self).game.spec_payoff_bound() <= v as int <= old(self).game.spec_payoff_bound(),
            spec_has_key(final(self).storage@, key@),
            spec_keys_preserved(old(self).storage@, final(self).storage@),
            old(self).spec_cfr_plus_invariant() ==> final(self).spec_cfr_plus_invariant(),
            exists|mid: Seq<InfoSetRecord>, vals: Seq<i64>|
                {
                    &&& spec_keys_preserved(old(self).storage@, mid)
                    &&& vals.len() == strategy@.len()
                    &&& (forall|j: int|
                        0 <= j < vals.len() ==> -old(self).game.spec_payoff_bound() <= (
                        #[trigger] vals[j]) as int <= old(self).game.spec_payoff_bound())
                    &&& v as int == spec_expectation(strategy@, vals)
                    &&& #[trigger] spec_player_node_updated(
                        mid,
                        final(self).storage@,
                        key@,
                        strategy@,
                        vals,
                        v as int,
                        old(self).config,
                        old(self).iteration,
                        reach@[traverser as int] as int,
                    )
                },
        decreases self.game.spec_measure(*state), 0int,
    {
        let n: usize = actions.len();
        let ghost bound = self.game.spec_payoff_bound();
        let mut action_values: Vec<i64> = Vec::new();
        let mut i: usize = 0;
        while i < n
            invariant
                i <= n,
                n == actions@.len(),
                self.wf(),
                self.game == old(self).game,
                self.config == old(self).config,
                self.iteration == old(self).iteration,
                self.stats == old(self).stats,
                self.game.spec_state_ok(*state),
                self.game.spec_current_player(*state) is Some,
                (traverser as int) < self.game.spec_num_players(),
                reach@.len() == self.game.spec_num_players(),
                forall|k: int| 0 <= k < reach@.len() ==> reach@[k] <= PROB_ONE,
                strategy@.len() == n,
                forall|k: int| 0 <= k < strategy@.len() ==> strategy@[k] <= PROB_ONE,
                bound == self.game.spec_payoff_bound(),
                old(self).spec_cfr_plus_invariant() ==> self.spec_cfr_plus_invariant(),
                spec_keys_preserved(old(self).storage@, self.storage@),
                action_values@.len() == i,
                forall|j: int|
                    0 <= j < i ==> -bound <= (#[trigger] action_values@[j]) as int <= bound,
            decreases n - i,
        {
            let next = self.game.apply_action(state, &actions[i]);
            let mut new_reach = clone_u64_vec(reach);
            let rp = mul_prob(new_reach[traverser], strategy[i]);
            new_reach.set(traverser, rp);
            let v = self.traverse(&next, traverser, &new_reach);
            action_values.push(v);
            i = i + 1;
        }
        // Node value: the expectation of the action values under the
        // current strategy.
        let node: i64 = expected_value(&strategy, &action_values, Ghost(bound));
        // Regret deltas: each action's value against the node value.
        let mut deltas: Vec<i64> = Vec::new();
        let mut i: usize = 0;
        while i < n
            invariant
                i <= n,
                n == action_values@.len(),
                deltas@.len() == i,
                -bound <= node as int <= bound,
                bound <= MAX_PAYOFF as int,
                forall|j: int|
                    0 <= j < n ==> -bound <= (#[trigger] action_values@[j]) as int <= bound,
                forall|j: int|
                    0 <= j < i ==> (#[trigger] deltas@[j]) as int == action_values@[j] as int
                        - node as int,
            decreases n - i,
        {
            deltas.push(action_values[i] - node);
            i = i + 1;
        }
        proof {
            assert forall|j: int| 0 <= j < n implies deltas@[j] == spec_deltas(
                action_values@,
                node as int,
            )[j] by {
                assert(-2 * MAX_PAYOFF as int <= action_values@[j] as int - node as int <= 2
                    * MAX_PAYOFF as int);
            }
            assert(deltas@ =~= spec_deltas(action_values@, node as int));
        }
        let ghost pre_regs = self.storage@;
        self.storage.update_regrets(
            key.as_str(),
            &deltas,
            self.config.use_cfr_plus,
            self.config.regret_floor,
        );
        proof {
            let post = self.storage@;
            assert forall|j: int| 0 <= j < post.len() implies (
            #[trigger] post[j]).spec_num_actions() == self.game.spec_key_num_actions(
                post[j].key@,
            ) by {
                if spec_has_key(pre_regs, key@) {
                    let idx = spec_index_of(pre_regs, key@);
                    if j != idx {
                        assert(post[j] == pre_regs[j]);
                    } else {
                        assert(pre_regs[idx].key@ == key@);
                    }
                } else {
                    if j < post.len() - 1 {
                        assert(post[j] == pre_regs[j]);
                    }
                }
            }
            assert forall|j: int| 0 <= j < pre_regs.len() implies (#[trigger] post[j]).key@
                == pre_regs[j].key@ by {
                if spec_has_key(pre_regs, key@) {
                    let idx = spec_index_of(pre_regs, key@);
                    if j != idx {
                        assert(post[j] == pre_regs[j]);
                    } else {
                        assert(pre_regs[idx].key@ == key@);
                    }
                } else {
                    assert(post[j] == pre_regs[j]);
                }
            }
            lemma_keys_preserved_step(pre_regs, post);
        }
        // Store the action names on first write.
        let mut names: Vec<String> = Vec::new();
        let mut i: usize = 0;
        while i < n
            invariant
                i <= n,
                n == actions@.len(),
                names@.len() == i,
            decreases n - i,
        {
            names.push(self.game.action_name(&actions[i]));
            i = i + 1;
        }
        let ghost before_names = self.storage@;
        self.storage.set_action_names(key.as_str(), names);
        proof {
            let post = self.storage@;
            assert forall|j: int| 0 <= j < post.len() implies (
            #[trigger] post[j]).spec_num_actions() == self.game.spec_key_num_actions(
                post[j].key@,
            ) by {
                if spec_has_key(before_names, key@) {
                    let idx = spec_index_of(before_names, key@);
                    if j != idx {
                        assert(post[j] == before_names[j]);
                    }
                } else {
                    assert(post[j] == before_names[j]);
                }
            }
            assert forall|j: int| 0 <= j < before_names.len() implies (#[trigger] post[j]).key@
                == before_names[j].key@ by {
                if spec_has_key(before_names, key@) {
                    let idx = spec_index_of(before_names, key@);
                    if j != idx {
                        assert(post[j] == before_names[j]);
                    }
                } else {
                    assert(post[j] == before_names[j]);
                }
            }
            lemma_keys_preserved_step(before_names, post);
        }
        // Strategy-sum weight: the traverser's reach, scaled by the
        // iteration index under Linear CFR.
        let weight: i64 = if self.config.use_linear_cfr {
            sat_mul_to_i64(reach[traverser], self.iteration)
        } else {
            reach[traverser] as i64
        };
        let ghost before_sums = self.storage@;
        self.storage.update_strategy_sum(key.as_str(), &strategy, weight);
        proof {
            let post = self.storage@;
            assert forall|j: int| 0 <= j < post.len() implies (
            #[trigger] post[j]).spec_num_actions() == self.game.spec_key_num_actions(
                post[j].key@,
            ) by {
                if spec_has_key(before_sums, key@) {
                    let idx = spec_index_of(before_sums, key@);
                    if j != idx {
                        assert(post[j] == before_sums[j]);
                    } else {
                        assert(before_sums[idx].key@ == key@);
                    }
                } else {
                    if j < post.len() - 1 {
                        assert(post[j] == before_sums[j]);
                    }
                }
            }
            assert forall|j: int| 0 <= j < before_sums.len() implies (#[trigger] post[j]).key@
                == before_sums[j].key@ by {
                if spec_has_key(before_sums, key@) {
                    let idx = spec_index_of(before_sums, key@);
                    if j != idx {
                        assert(post[j] == before_sums[j]);
                    } else {
                        assert(before_sums[idx].key@ == key@);
                    }
                } else {
                    assert(post[j] == before_sums[j]);
                }
            }
            lemma_keys_preserved_step(before_sums, post);
            assert(spec_has_key(post, key@));
        }
        proof {
            let ghost reach_t = reach@[traverser as int] as int;
            assert(weight as int == spec_strategy_weight(
                old(self).config,
                old(self).iteration,
                reach_t,
            ));
            assert(spec_regrets_updated_store(
                pre_regs,
                before_names,
                key@,
                spec_deltas(action_values@, node as int),
                old(self).config.use_cfr_plus,
                old(self).config.regret_floor,
            ));
            assert(spec_names_only_set(before_names, before_sums, key@));
            assert(spec_sums_updated_store(
                before_sums,
                self.storage@,
                key@,
                strategy@,
                spec_strategy_weight(old(self).config, old(self).iteration, reach_t),
            ));
            assert(spec_player_node_updated(
                pre_regs,
                self.storage@,
                key@,
                strategy@,
                action_values@,
                node as int,
                old(self).config,
                old(self).iteration,
                reach_t,
            ));
        }
        node
    }

    /// Traversal at an opponent's decision node: sample one action
    /// (uniformly with the exploration probability, otherwise from the
    /// current strategy) and continue down that branch.
    fn traverse_opponent(
        &mut self,
        state: &G::State,
        traverser: usize,
        reach: &Vec<u64>,
        actions: &Vec<G::Action>,
        strategy: &Vec<u64>,
        player: usize,
    ) -> (v: i64)
        requires
            old(self).wf(),
            old(self).game.spec_state_ok(*state),
            old(self).game.spec_current_player(*state) is Some,
            old(self).game.spec_current_player(*state) == Some(player as int),
            (player as int) < old(self).game.spec_num_players(),
            (traverser as int) < old(self).game.spec_num_players(),
            reach@.len() == old(self).game.spec_num_players(),
            forall|k: int| 0 <= k < reach@.len() ==> reach@[k] <= PROB_ONE,
            actions@.len() >= 1,
            strategy@.len() == actions@.len(),
            forall|k: int| 0 <= k < strategy@.len() ==> strategy@[k] <= PROB_ONE,
        ensures
            final(self).wf(),
            final(self).game == old(self).game,
            final(self).config == old(self).config,
            final(self).iteration == old(self).iteration,
            final(self).stats == old(self).stats,
            -old(self).game.spec_payoff_bound() <= v as int <= old(self).game.spec_payoff_bound(),
            spec_keys_preserved(old(self).storage@, final(self).storage@),
            old(self).spec_cfr_plus_invariant() ==> final(self).spec_cfr_plus_invariant(),
        decreases self.game.spec_measure(*state), 0int,
    {
        let n: usize = actions.len();
        let explore_draw: u64 = crate::rng::rng_below_u64(&mut self.rng, PROB_ONE);
        let idx: usize = if explore_draw < self.config.exploration {
            // Explore: a uniformly random action.
            crate::rng::rng_below(&mut self.rng, n)
        } else {
            // Exploit: inverse-CDF sampling from the strategy.
            let draw: u64 = crate::rng::rng_below_u64(&mut self.rng, PROB_ONE);
            sample_from_strategy(strategy, draw)
        };
        let next = self.game.apply_action(state, &actions[idx]);
        let mut new_reach = clone_u64_vec(reach);
        let rp = mul_prob(new_reach[player], strategy[idx]);
        new_reach.set(player, rp);
        self.traverse(&next, traverser, &new_reach)
    }
}

/// Sample a chance node's outcome.  The borrow of the game and of the
/// generator are disjoint, which this free function makes explicit.
fn sample_chance_state<G: Game>(game: &G, state: &G::State, rng: &mut rand::rngs::StdRng) -> (t:
    G::State)
    requires
        game.spec_state_ok(*state),
        game.spec_is_chance(*state),
    ensures
        game.spec_state_ok(t),
        game.spec_measure(t) < game.spec_measure(*state),
{
    game.sample_chance(state, rng)
}

/// The product of two fixed-point probabilities.
pub fn mul_prob(a: u64, b: u64) -> (r: u64)
    requires
        a <= PROB_ONE,
        b <= PROB_ONE,
    ensures
        r as int == a as int * b as int / PROB_ONE as int,
        r <= a,
        r <= b,
        r <= PROB_ONE,
{
    proof {
        lemma_mul_inequality(a as int, PROB_ONE as int, b as int);
        assert(a as int * b as int == b as int * a as int) by (nonlinear_arith);
        assert(PROB_ONE as int * b as int == b as int * PROB_ONE as int) by (nonlinear_arith);
        lemma_div_is_ordered(a as int * b as int, PROB_ONE as int * b as int, PROB_ONE as int);
        lemma_div_multiples_vanish(b as int, PROB_ONE as int);
        lemma_mul_inequality(b as int, PROB_ONE as int, a as int);
        lemma_div_is_ordered(b as int * a as int, PROB_ONE as int * a as int, PROB_ONE as int);
        lemma_div_multiples_vanish(a as int, PROB_ONE as int);
        lemma_div_pos_is_pos(a as int * b as int, PROB_ONE as int);
        assert(a as int * b as int >= 0) by (nonlinear_arith)
            requires
                a >= 0,
                b >= 0;
    }
    let r: u128 = (a as u128) * (b as u128) / (PROB_ONE as u128);
    r as u64
}

/// A copy of a probability vector.
fn clone_u64_vec(v: &Vec<u64>) -> (r: Vec<u64>)
    ensures
        r@ == v@,
{
    let mut out: Vec<u64> = Vec::new();
    let mut i: usize = 0;
    while i < v.len()
        invariant
            i <= v@.len(),
            out@ =~= v@.subrange(0, i as int),
        decreases v@.len() - i,
    {
        out.push(v[i]);
        i = i + 1;
    }
    proof {
        assert(out@ =~= v@);
    }
    out
}

/// The dot product of a fixed-point strategy and a value vector over
/// the first `i` entries.
pub open spec fn spec_dot_upto(s: Seq<u64>, v: Seq<i64>, i: int) -> int
    decreases i,
{
    if i <= 0 {
        0
    } else {
        spec_dot_upto(s, v, i - 1) + s[i - 1] as int * v[i - 1] as int
    }
}

/// Signed division, truncated toward zero.
pub open spec fn spec_div_trunc(a: int, b: int) -> int {
    if a >= 0 {
        a / b
    } else {
        -((-a) / b)
    }
}

/// The expectation of a value vector under a fixed-point strategy:
/// their dot product divided by `PROB_ONE`, truncated toward zero.
pub open spec fn spec_expectation(s: Seq<u64>, v: Seq<i64>) -> int {
    spec_div_trunc(spec_dot_upto(s, v, s.len() as int), PROB_ONE as int)
}

/// The regret deltas emitted at the traverser's decision node: each
/// action's counterfactual value against the node value.
pub open spec fn spec_deltas(vals: Seq<i64>, node: int) -> Seq<i64> {
    Seq::new(vals.len(), |i: int| (vals[i] as int - node) as i64)
}

/// The strategy-sum weight at the traverser's decision node: the
/// traverser's reach probability, scaled by the iteration index and
/// clamped into `i64` under Linear CFR.
pub open spec fn spec_strategy_weight(config: CFRConfig, iteration: u64, reach_t: int) -> int {
    if config.use_linear_cfr {
        clamp_i64(reach_t * iteration as int)
    } else {
        reach_t
    }
}

/// The whole-store effect of one visit to the traverser's own decision
/// node: the regrets at the key gain the deltas of the action values
/// `vals` against the node value, the action names are stored on first
/// write, and the reach-weighted current strategy is added to the
/// strategy sums, in that order.
pub open spec fn spec_player_node_updated(
    pre: Seq<InfoSetRecord>,
    post: Seq<InfoSetRecord>,
    key: Seq<char>,
    strategy: Seq<u64>,
    vals: Seq<i64>,
    node: int,
    config: CFRConfig,
    iteration: u64,
    reach_t: int,
) -> bool {
    exists|mid1: Seq<InfoSetRecord>, mid2: Seq<InfoSetRecord>| {
        &&& #[trigger] spec_regrets_updated_store(
            pre,
            mid1,
            key,
            spec_deltas(vals, node),
            config.use_cfr_plus,
            config.regret_floor,
        )
        &&& #[trigger] spec_names_only_set(mid1, mid2, key)
        &&& spec_sums_updated_store(
            mid2,
            post,
            key,
            strategy,
            spec_strategy_weight(config, iteration, reach_t),
        )
    }
}

/// The whole-store effect of one iteration: the configured discounts
/// are applied first, and the traversals that follow only ever add
/// keys.
pub open spec fn spec_iteration_effect(
    config: CFRConfig,
    pre: Seq<InfoSetRecord>,
    post: Seq<InfoSetRecord>,
) -> bool {
    exists|mid: Seq<InfoSetRecord>|
        {
            &&& #[trigger] spec_store_discounted(
                pre,
                mid,
                config.regret_discount,
                config.strategy_discount,
            )
            &&& spec_keys_preserved(mid, post)
        }
}

/// The whole-store effect of a batch of `k` iterations: a chain of
/// stores, one per step, with consecutive entries related by the
/// single-iteration effect.
pub open spec fn spec_batch_effect(
    config: CFRConfig,
    pre: Seq<InfoSetRecord>,
    post: Seq<InfoSetRecord>,
    k: nat,
) -> bool {
    exists|chain: Seq<Seq<InfoSetRecord>>|
        {
            &&& (#[trigger] chain.len()) == k + 1
            &&& chain.first() == pre
            &&& chain.last() == post
            &&& (forall|j: int|
                0 <= j < k ==> spec_iteration_effect(config, #[trigger] chain[j], chain[j + 1]))
        }
}

/// A batch of no iterations leaves the store as it was.
pub proof fn lemma_batch_effect_zero(config: CFRConfig, pre: Seq<InfoSetRecord>)
    ensures
        spec_batch_effect(config, pre, pre, 0),
{
    let chain: Seq<Seq<InfoSetRecord>> = Seq::empty().push(pre);
    assert(chain.len() == 1);
    assert(chain.first() == pre);
    assert(chain.last() == pre);
    assert(forall|j: int|
        0 <= j < 0 ==> spec_iteration_effect(config, #[trigger] chain[j], chain[j + 1]));
}

/// A batch effect grows by one iteration at its end.
pub proof fn lemma_batch_effect_step(
    config: CFRConfig,
    pre: Seq<InfoSetRecord>,
    mid: Seq<InfoSetRecord>,
    post: Seq<InfoSetRecord>,
    k: nat,
)
    requires
        spec_batch_effect(config, pre, mid, k),
        spec_iteration_effect(config, mid, post),
    ensures
        spec_batch_effect(config, pre, post, k + 1),
{
    let c0 = choose|chain: Seq<Seq<InfoSetRecord>>|
        {
            &&& (#[trigger] chain.len()) == k + 1
            &&& chain.first() == pre
            &&& chain.last() == mid
            &&& (forall|j: int|
                0 <= j < k ==> spec_iteration_effect(config, #[trigger] chain[j], chain[j + 1]))
        };
    let c1 = c0.push(post);
    assert(c1.len() == k + 2);
    assert(c1.first() == pre);
    assert(c1.last() == post);
    assert forall|j: int| 0 <= j < k + 1 implies spec_iteration_effect(
        config,
        #[trigger] c1[j],
        c1[j + 1],
    ) by {
        if j < k {
            assert(c1[j] == c0[j]);
            assert(c1[j + 1] == c0[j + 1]);
            assert(spec_iteration_effect(config, c0[j], c0[j + 1]));
        } else {
            assert(c1[j] == c0[j]);
            assert(c0[j] == c0.last());
            assert(c1[j + 1] == post);
        }
    }
}

/// The largest entry of a non-empty value vector.
pub open spec fn spec_seq_max(v: Seq<i64>) -> int
    decreases v.len(),
{
    if v.len() <= 1 {
        v[0] as int
    } else {
        let m = spec_seq_max(v.drop_last());
        if v.last() as int > m {
            v.last() as int
        } else {
            m
        }
    }
}

/// The expectation of bounded values under a sub-probability vector:
/// `sum(strategy[i] * values[i]) / PROB_ONE`, truncated toward zero.
/// The result is exactly [`spec_expectation`] and stays within the
/// values' bound.
fn expected_value(strategy: &Vec<u64>, values: &Vec<i64>, Ghost(bound): Ghost<int>) -> (r: i64)
    requires
        strategy@.len() == values@.len(),
        forall|k: int| 0 <= k < strategy@.len() ==> strategy@[k] <= PROB_ONE,
        sum_u64(strategy@) <= PROB_ONE as int,
        0 <= bound <= MAX_PAYOFF as int,
        forall|k: int| 0 <= k < values@.len() ==> -bound <= (#[trigger] values@[k]) as int <= bound,
    ensures
        -bound <= r as int <= bound,
        r as int == spec_expectation(strategy@, values@),
{
    let n: usize = strategy.len();
    let mut acc: i128 = 0;
    let mut i: usize = 0;
    proof {
        crate::fixed::lemma_sum_u64_upto_full(strategy@);
        lemma_sum_u64_upto_bounds(strategy@, 0);
        assert(bound * sum_u64_upto(strategy@, 0) == 0) by (nonlinear_arith)
            requires
                sum_u64_upto(strategy@, 0) == 0;
    }
    while i < n
        invariant
            i <= n,
            n == strategy@.len(),
            n == values@.len(),
            forall|k: int| 0 <= k < strategy@.len() ==> strategy@[k] <= PROB_ONE,
            sum_u64(strategy@) <= PROB_ONE as int,
            0 <= bound <= MAX_PAYOFF as int,
            forall|k: int|
                0 <= k < values@.len() ==> -bound <= (#[trigger] values@[k]) as int <= bound,
            -(bound * sum_u64_upto(strategy@, i as int)) <= acc as int <= bound * sum_u64_upto(
                strategy@,
                i as int,
            ),
            acc as int == spec_dot_upto(strategy@, values@, i as int),
        decreases n - i,
    {
        let p: u64 = strategy[i];
        let v: i64 = values[i];
        proof {
            assert(-(p as int * bound) <= p as int * v as int <= p as int * bound)
                by (nonlinear_arith)
                requires
                    p >= 0,
                    -bound <= v as int <= bound;
            assert(sum_u64_upto(strategy@, i + 1) == sum_u64_upto(strategy@, i as int) + p as int);
            assert(bound * (sum_u64_upto(strategy@, i as int) + p as int) == bound * sum_u64_upto(
                strategy@,
                i as int,
            ) + bound * p as int) by (nonlinear_arith);
            assert(bound * p as int == p as int * bound) by (nonlinear_arith);
            lemma_sum_u64_upto_bounds(strategy@, i as int + 1);
            assert(bound * sum_u64_upto(strategy@, i + 1) <= bound * (PROB_ONE as int))
                by (nonlinear_arith)
                requires
                    0 <= bound,
                    sum_u64_upto(strategy@, i + 1) <= PROB_ONE as int;
            assert(bound * (PROB_ONE as int) <= (MAX_PAYOFF as int) * (PROB_ONE as int))
                by (nonlinear_arith)
                requires
                    bound <= MAX_PAYOFF as int;
            assert(spec_dot_upto(strategy@, values@, i + 1) == spec_dot_upto(
                strategy@,
                values@,
                i as int,
            ) + p as int * v as int);
        }
        acc = acc + (p as i128) * (v as i128);
        i = i + 1;
    }
    proof {
        lemma_sum_u64_upto_bounds(strategy@, n as int);
        assert(bound * sum_u64_upto(strategy@, n as int) <= bound * (PROB_ONE as int))
            by (nonlinear_arith)
            requires
                0 <= bound,
                sum_u64_upto(strategy@, n as int) <= PROB_ONE as int;
    }
    div_signed_by_prob(acc, Ghost(bound))
}

/// Prefix sums of a sub-probability vector stay within `PROB_ONE`.
proof fn lemma_sum_u64_upto_bounds(s: Seq<u64>, i: int)
    requires
        0 <= i <= s.len(),
        sum_u64(s) <= PROB_ONE as int,
    ensures
        0 <= sum_u64_upto(s, i) <= PROB_ONE as int,
    decreases s.len() - i,
{
    crate::fixed::lemma_sum_u64_upto_full(s);
    lemma_sum_u64_upto_nonneg_rec(s, i);
    lemma_sum_u64_upto_mono_rec(s, i);
}

proof fn lemma_sum_u64_upto_nonneg_rec(s: Seq<u64>, i: int)
    ensures
        sum_u64_upto(s, i) >= 0,
    decreases (if i > 0 { i } else { 0 }),
{
    if i > 0 {
        lemma_sum_u64_upto_nonneg_rec(s, i - 1);
    }
}

proof fn lemma_sum_u64_upto_mono_rec(s: Seq<u64>, i: int)
    requires
        0 <= i <= s.len(),
    ensures
        sum_u64_upto(s, i) <= sum_u64_upto(s, s.len() as int),
    decreases s.len() - i,
{
    if i < s.len() {
        lemma_sum_u64_upto_mono_rec(s, i + 1);
    }
}

/// Divide a fixed-point product by `PROB_ONE`, truncating toward zero.
/// The quotient keeps the bound that the accumulated products had.
fn div_signed_by_prob(acc: i128, Ghost(bound): Ghost<int>) -> (r: i64)
    requires
        0 <= bound <= MAX_PAYOFF as int,
        -(bound * PROB_ONE as int) <= acc as int <= bound * PROB_ONE as int,
    ensures
        -bound <= r as int <= bound,
        r as int == spec_div_trunc(acc as int, PROB_ONE as int),
{
    if acc >= 0 {
        proof {
            lemma_div_is_ordered(acc as int, bound * PROB_ONE as int, PROB_ONE as int);
            assert(bound * PROB_ONE as int == PROB_ONE as int * bound) by (nonlinear_arith);
            lemma_div_multiples_vanish(bound, PROB_ONE as int);
            lemma_div_pos_is_pos(acc as int, PROB_ONE as int);
        }
        let q: i128 = acc / (PROB_ONE as i128);
        q as i64
    } else {
        let neg: i128 = -acc;
        proof {
            lemma_div_is_ordered(neg as int, bound * PROB_ONE as int, PROB_ONE as int);
            assert(bound * PROB_ONE as int == PROB_ONE as int * bound) by (nonlinear_arith);
            lemma_div_multiples_vanish(bound, PROB_ONE as int);
            lemma_div_pos_is_pos(neg as int, PROB_ONE as int);
        }
        let q: i128 = neg / (PROB_ONE as i128);
        let r: i128 = -q;
        r as i64
    }
}

/// The reach weight under Linear CFR: the reach probability times the
/// iteration index, clamped into `i64`.
fn sat_mul_to_i64(reach: u64, iteration: u64) -> (r: i64)
    requires
        reach <= PROB_ONE,
    ensures
        r as int == clamp_i64(reach as int * iteration as int),
        r >= 0,
{
    proof {
        assert(reach as int * iteration as int >= 0) by (nonlinear_arith)
            requires
                reach >= 0,
                iteration >= 0;
        assert(reach as int * iteration as int <= PROB_ONE as int * u64::MAX as int)
            by (nonlinear_arith)
            requires
                reach <= PROB_ONE,
                iteration <= u64::MAX;
        assert((PROB_ONE as int * u64::MAX as int) < u128::MAX as int) by (nonlinear_arith);
    }
    let p: u128 = (reach as u128) * (iteration as u128);
    if p > i64::MAX as u128 {
        i64::MAX
    } else {
        p as i64
    }
}

/// The index that inverse-CDF sampling picks for a given draw: the
/// first action whose cumulative probability exceeds the draw, with
/// the last action as the fallback when the cumulative mass runs out.
pub open spec fn spec_sample_index(s: Seq<u64>, draw: int, i: int, cum: int) -> int
    decreases s.len() - i,
{
    if i < 0 || i >= s.len() {
        s.len() - 1
    } else if cum + s[i] > draw {
        i
    } else {
        spec_sample_index(s, draw, i + 1, cum + s[i])
    }
}

/// Inverse-CDF sampling from a fixed-point probability vector.
pub fn sample_from_strategy(strategy: &Vec<u64>, draw: u64) -> (k: usize)
    requires
        strategy@.len() >= 1,
        draw < PROB_ONE,
        forall|j: int| 0 <= j < strategy@.len() ==> strategy@[j] <= PROB_ONE,
    ensures
        k < strategy@.len(),
        k as int == spec_sample_index(strategy@, draw as int, 0, 0),
{
    let n: usize = strategy.len();
    let mut cum: u64 = 0;
    let mut i: usize = 0;
    while i < n
        invariant
            i <= n,
            n == strategy@.len(),
            n >= 1,
            draw < PROB_ONE,
            forall|j: int| 0 <= j < strategy@.len() ==> strategy@[j] <= PROB_ONE,
            cum <= draw,
            spec_sample_index(strategy@, draw as int, 0, 0) == spec_sample_index(
                strategy@,
                draw as int,
                i as int,
                cum as int,
            ),
        decreases n - i,
    {
        let p: u64 = strategy[i];
        if cum + p > draw {
            return i;
        }
        cum = cum + p;
        i = i + 1;
    }
    // Numerical underflow of the cumulative mass: fall back to the
    // last action.
    n - 1
}

/// When the draw falls inside the strategy's cumulative mass, the
/// sampled action always has positive probability: sampling without
/// exploration draws strictly from the strategy.  (A draw beyond the
/// cumulative mass takes the documented last-action fallback.)
pub proof fn lemma_sample_in_support(s: Seq<u64>, draw: int)
    requires
        s.len() >= 1,
        0 <= draw < sum_u64(s),
    ensures
        ({
            let k = spec_sample_index(s, draw, 0, 0);
            &&& 0 <= k < s.len()
            &&& s[k] > 0
        }),
{
    crate::fixed::lemma_sum_u64_upto_full(s);
    lemma_sample_in_support_rec(s, draw, 0, 0);
}

proof fn lemma_sample_in_support_rec(s: Seq<u64>, draw: int, i: int, cum: int)
    requires
        s.len() >= 1,
        0 <= i <= s.len(),
        cum == sum_u64_upto(s, i),
        cum <= draw,
        draw < sum_u64_upto(s, s.len() as int),
    ensures
        ({
            let k = spec_sample_index(s, draw, i, cum);
            &&& 0 <= k < s.len()
            &&& s[k] > 0
        }),
    decreases s.len() - i,
{
    if i == s.len() {
        // cum == total > draw >= cum: contradiction, unreachable.
        assert(false);
    } else {
        assert(sum_u64_upto(s, i + 1) == cum + s[i]);
        if cum + s[i] > draw {
            assert(s[i] > 0);
        } else {
            lemma_sample_in_support_rec(s, draw, i + 1, cum + s[i] as int);
        }
    }
}

/// The strategy a query returns has the queried width and is a
/// sub-probability vector: entries and total at most `PROB_ONE`.
proof fn lemma_strategy_shape<G: Game>(
    solver: CFRSolver<G>,
    key: Seq<char>,
    n: nat,
    strategy: Seq<u64>,
)
    requires
        solver.wf(),
        n == solver.game.spec_key_num_actions(key),
        strategy == solver.storage.spec_current_strategy(key, n),
    ensures
        strategy.len() == n,
        forall|k: int| 0 <= k < strategy.len() ==> strategy[k] <= PROB_ONE,
        sum_u64(strategy) <= PROB_ONE as int,
{
    if spec_has_key(solver.storage@, key) {
        let i = spec_index_of(solver.storage@, key);
        assert(0 <= i < solver.storage@.len() && solver.storage@[i].key@ == key);
        let regs = spec_record_of(solver.storage@, key).regrets@;
        crate::storage::lemma_matched_in_range(regs);
        crate::storage::lemma_matched_sum_le(regs);
    } else {
        crate::storage::lemma_uniform_in_range_pub(n);
        crate::storage::lemma_uniform_sum_le_pub(n);
    }
}




/// A vector of `n` certain probabilities (`PROB_ONE` each).
fn prob_one_vec(n: usize) -> (r: Vec<u64>)
    ensures
        r@.len() == n,
        forall|k: int| 0 <= k < r@.len() ==> r@[k] == PROB_ONE,
{
    let mut out: Vec<u64> = Vec::new();
    let mut i: usize = 0;
    while i < n
        invariant
            i <= n,
            out@.len() == i,
            forall|k: int| 0 <= k < i ==> out@[k] == PROB_ONE,
        decreases n - i,
    {
        out.push(PROB_ONE);
        i = i + 1;
    }
    out
}

/// Milliseconds on the system clock.  Relies on std's `SystemTime`:
/// used only to fill in elapsed-time statistics; nothing is assumed of
/// the value.
#[verifier::external_body]
fn now_millis() -> u64 {
    match std::time::SystemTime::now().duration_since(std::time::UNIX_EPOCH) {
        Ok(d) => d.as_millis() as u64,
        Err(_) => 0,
    }
}

/// A progress report during convergence-targeted training.
#[derive(Debug, Clone, Copy)]
pub struct ConvergenceStats {
    /// Iterations completed so far.
    pub iteration: u64,
    /// The last drift value measured, if any was.
    pub ci: Option<u64>,
    /// Information sets discovered so far.
    pub info_sets: usize,
    /// Elapsed training time in milliseconds.
    pub elapsed_millis: u64,
}

/// The outcome of convergence-targeted training.
#[derive(Debug, Clone, Copy)]
pub struct ConvergenceResult {
    /// Whether the drift target was reached.
    pub converged: bool,
    /// The last drift value measured, if any was.
    pub final_ci: Option<u64>,
    /// Total iterations completed.
    pub iterations: u64,
    /// Elapsed training time in milliseconds.
    pub elapsed_millis: u64,
}

/// A solver checkpoint: the iteration counter, the store's image and
/// the statistics.
#[derive(Debug, Clone)]
pub struct SolverState {
    /// Completed iterations at checkpoint time.
    pub iteration: u64,
    /// The regret store's image.
    pub storage: StorageExport,
    /// Training statistics at checkpoint time.
    pub stats: CFRStats,
}

impl<G: Game> CFRSolver<G> {
    /// One MCCFR iteration: advance the counter, apply configured
    /// discounts, and walk the tree once for every player.  With a
    /// configured seed, the generator is re-seeded per iteration from
    /// the seed and the counter, so a checkpointed run replays exactly.
    pub fn run_iteration(&mut self)
        requires
            old(self).wf(),
        ensures
            final(self).wf(),
            final(self).game == old(self).game,
            final(self).config == old(self).config,
            final(self).stats == old(self).stats,
            final(self).iteration as int == (if old(self).iteration < u64::MAX {
                old(self).iteration as int + 1
            } else {
                u64::MAX as int
            }),
            spec_keys_preserved(old(self).storage@, final(self).storage@),
            old(self).config.regret_discount is None && old(self).config.strategy_discount is None
                && (forall|s: G::State|
                #[trigger] old(self).game.spec_is_initial(s) ==> old(self).game.spec_is_terminal(
                    s,
                )) ==> final(self).storage@ == old(self).storage@,
            spec_iteration_effect(old(self).config, old(self).storage@, final(self).storage@),
            old(self).spec_cfr_plus_invariant() ==> final(self).spec_cfr_plus_invariant(),
    {
        if self.iteration < u64::MAX {
            self.iteration = self.iteration + 1;
        }
        match self.config.seed {
            Some(seed) => {
                self.rng = crate::rng::rng_from_seed(seed ^ self.iteration);
            },
            None => {},
        }
        match self.config.regret_discount {
            Some(d) => {
                let ghost pre = self.storage@;
                self.storage.discount_regrets(d);
                proof {
                    assert forall|j: int| 0 <= j < self.storage@.len() implies (
                    #[trigger] self.storage@[j]).spec_num_actions()
                        == self.game.spec_key_num_actions(self.storage@[j].key@) by {
                        assert(self.storage@[j].key@ == pre[j].key@);
                        assert(self.storage@[j].regrets@.len() == pre[j].regrets@.len());
                    }
                    assert forall|j: int| 0 <= j < pre.len() implies (
                    #[trigger] self.storage@[j]).key@ == pre[j].key@ by {}
                    lemma_keys_preserved_step(pre, self.storage@);
                }
            },
            None => {},
        }
        let ghost after_regret_discount = self.storage@;
        match self.config.strategy_discount {
            Some(d) => {
                let ghost pre = self.storage@;
                self.storage.discount_strategy_sums(d);
                proof {
                    assert forall|j: int| 0 <= j < self.storage@.len() implies (
                    #[trigger] self.storage@[j]).spec_num_actions()
                        == self.game.spec_key_num_actions(self.storage@[j].key@) by {
                        assert(self.storage@[j].key@ == pre[j].key@);
                        assert(self.storage@[j].regrets@ == pre[j].regrets@);
                    }
                    assert forall|j: int| 0 <= j < pre.len() implies (
                    #[trigger] self.storage@[j]).key@ == pre[j].key@ by {}
                    lemma_keys_preserved_step(pre, self.storage@);
                }
            },
            None => {},
        }
        let ghost discounted = self.storage@;
        proof {
            assert forall|i: int| 0 <= i < old(self).storage@.len() implies {
                let r0 = old(self).storage@[i];
                let r1 = #[trigger] discounted[i];
                &&& r1.key@ == r0.key@
                &&& r1.regrets@ == (match old(self).config.regret_discount {
                    Some(d) => crate::storage::spec_discounted_vec(r0.regrets@, d as int),
                    None => r0.regrets@,
                })
                &&& r1.strategy_sums@ == (match old(self).config.strategy_discount {
                    Some(d) => crate::storage::spec_discounted_vec(r0.strategy_sums@, d as int),
                    None => r0.strategy_sums@,
                })
                &&& crate::storage::spec_names_like(r1.action_names, r0.action_names)
            } by {
                let r0 = old(self).storage@[i];
                let rm = after_regret_discount[i];
                let r1 = discounted[i];
                crate::storage::lemma_names_like_trans(
                    r1.action_names,
                    rm.action_names,
                    r0.action_names,
                );
            }
            assert(spec_store_discounted(
                old(self).storage@,
                discounted,
                old(self).config.regret_discount,
                old(self).config.strategy_discount,
            ));
        }
        let np: usize = self.game.num_players();
        let reach = prob_one_vec(np);
        let mut player: usize = 0;
        while player < np
            invariant
                player <= np,
                self.wf(),
                self.game == old(self).game,
                self.config == old(self).config,
                self.stats == old(self).stats,
                self.iteration as int == (if old(self).iteration < u64::MAX {
                    old(self).iteration as int + 1
                } else {
                    u64::MAX as int
                }),
                np as int == self.game.spec_num_players(),
                reach@.len() == np,
                forall|k: int| 0 <= k < reach@.len() ==> reach@[k] <= PROB_ONE,
                spec_keys_preserved(old(self).storage@, self.storage@),
                spec_keys_preserved(discounted, self.storage@),
                spec_store_discounted(
                    old(self).storage@,
                    discounted,
                    old(self).config.regret_discount,
                    old(self).config.strategy_discount,
                ),
                old(self).config.regret_discount is None && old(
                    self,
                ).config.strategy_discount is None && (forall|s: G::State|
                    #[trigger] old(self).game.spec_is_initial(s) ==> old(
                        self,
                    ).game.spec_is_terminal(s)) ==> self.storage@ == old(self).storage@,
                old(self).spec_cfr_plus_invariant() ==> self.spec_cfr_plus_invariant(),
            decreases np - player,
        {
            let root = self.game.initial_state();
            self.traverse(&root, player, &reach);
            player = player + 1;
        }
    }

    /// Run a batch of iterations.
    fn run_batch(&mut self, count: u64)
        requires
            old(self).wf(),
        ensures
            final(self).wf(),
            final(self).game == old(self).game,
            final(self).config == old(self).config,
            final(self).stats == old(self).stats,
            final(self).iteration >= old(self).iteration,
            old(self).iteration < u64::MAX && count >= 1 ==> final(self).iteration > old(
                self,
            ).iteration,
            final(self).iteration as int == (if old(self).iteration as int + count as int
                <= u64::MAX as int {
                old(self).iteration as int + count as int
            } else {
                u64::MAX as int
            }),
            spec_keys_preserved(old(self).storage@, final(self).storage@),
            spec_batch_effect(
                old(self).config,
                old(self).storage@,
                final(self).storage@,
                count as nat,
            ),
            old(self).spec_cfr_plus_invariant() ==> final(self).spec_cfr_plus_invariant(),
    {
        proof {
            lemma_batch_effect_zero(old(self).config, old(self).storage@);
        }
        let mut i: u64 = 0;
        while i < count
            invariant
                i <= count,
                self.wf(),
                self.game == old(self).game,
                self.config == old(self).config,
                self.stats == old(self).stats,
                self.iteration >= old(self).iteration,
                old(self).iteration < u64::MAX && i >= 1 ==> self.iteration > old(self).iteration,
                self.iteration as int == (if old(self).iteration as int + i as int <= u64::MAX
                    as int {
                    old(self).iteration as int + i as int
                } else {
                    u64::MAX as int
                }),
                spec_keys_preserved(old(self).storage@, self.storage@),
                spec_batch_effect(old(self).config, old(self).storage@, self.storage@, i as nat),
                old(self).spec_cfr_plus_invariant() ==> self.spec_cfr_plus_invariant(),
            decreases count - i,
        {
            let ghost before = self.storage@;
            self.run_iteration();
            proof {
                lemma_batch_effect_step(
                    old(self).config,
                    old(self).storage@,
                    before,
                    self.storage@,
                    i as nat,
                );
            }
            i = i + 1;
        }
    }

    /// Train for a fixed number of iterations and return the updated
    /// statistics.
    pub fn train(&mut self, iterations: u64) -> (r: CFRStats)
        requires
            old(self).wf(),
        ensures
            final(self).wf(),
            final(self).game == old(self).game,
            final(self).config == old(self).config,
            r == final(self).stats,
            r.iterations == final(self).iteration,
            r.info_sets == final(self).storage@.len(),
            final(self).iteration as int == (if old(self).iteration as int + iterations as int
                <= u64::MAX as int {
                old(self).iteration as int + iterations as int
            } else {
                u64::MAX as int
            }),
            spec_keys_preserved(old(self).storage@, final(self).storage@),
            spec_batch_effect(
                old(self).config,
                old(self).storage@,
                final(self).storage@,
                iterations as nat,
            ),
            old(self).spec_cfr_plus_invariant() ==> final(self).spec_cfr_plus_invariant(),
    {
        let start = now_millis();
        self.run_batch(iterations);
        let end = now_millis();
        self.stats.iterations = self.iteration;
        self.stats.info_sets = self.storage.num_info_sets();
        self.stats.elapsed_millis = if end >= start {
            end - start
        } else {
            0
        };
        self.stats.update_rate();
        self.stats
    }

    /// Train for a fixed number of iterations, reporting progress to
    /// the observer every `callback_interval` iterations.
    pub fn train_with_callback<F: Fn(&CFRStats)>(
        &mut self,
        iterations: u64,
        callback_interval: u64,
        callback: &F,
    ) -> (r: CFRStats)
        requires
            old(self).wf(),
            callback_interval >= 1,
            forall|s: &CFRStats| #[trigger] callback.requires((s,)),
        ensures
            final(self).wf(),
            final(self).game == old(self).game,
            final(self).config == old(self).config,
            r == final(self).stats,
            r.iterations == final(self).iteration,
            r.info_sets == final(self).storage@.len(),
            final(self).iteration as int == (if old(self).iteration as int + iterations as int
                <= u64::MAX as int {
                old(self).iteration as int + iterations as int
            } else {
                u64::MAX as int
            }),
            spec_keys_preserved(old(self).storage@, final(self).storage@),
            spec_batch_effect(
                old(self).config,
                old(self).storage@,
                final(self).storage@,
                iterations as nat,
            ),
            old(self).spec_cfr_plus_invariant() ==> final(self).spec_cfr_plus_invariant(),
    {
        let start = now_millis();
        proof {
            lemma_batch_effect_zero(old(self).config, old(self).storage@);
        }
        let mut i: u64 = 0;
        while i < iterations
            invariant
                i <= iterations,
                callback_interval >= 1,
                self.wf(),
                self.game == old(self).game,
                self.config == old(self).config,
                self.iteration as int == (if old(self).iteration as int + i as int <= u64::MAX
                    as int {
                    old(self).iteration as int + i as int
                } else {
                    u64::MAX as int
                }),
                spec_keys_preserved(old(self).storage@, self.storage@),
                spec_batch_effect(old(self).config, old(self).storage@, self.storage@, i as nat),
                old(self).spec_cfr_plus_invariant() ==> self.spec_cfr_plus_invariant(),
                forall|s: &CFRStats| #[trigger] callback.requires((s,)),
            decreases iterations - i,
        {
            let ghost before = self.storage@;
            self.run_iteration();
            proof {
                lemma_batch_effect_step(
                    old(self).config,
                    old(self).storage@,
                    before,
                    self.storage@,
                    i as nat,
                );
            }
            i = i + 1;
            if i % callback_interval == 0 {
                let end = now_millis();
                self.stats.iterations = self.iteration;
                self.stats.info_sets = self.storage.num_info_sets();
                self.stats.elapsed_millis = if end >= start {
                    end - start
                } else {
                    0
                };
                self.stats.update_rate();
                callback(&self.stats);
            }
        }
        let end = now_millis();
        self.stats.iterations = self.iteration;
        self.stats.info_sets = self.storage.num_info_sets();
        self.stats.elapsed_millis = if end >= start {
            end - start
        } else {
            0
        };
        self.stats.update_rate();
        self.stats
    }

    /// Train until the drift indicator reaches `ci_target`, checking
    /// every `ci_check_interval` iterations against a rolling
    /// snapshot.  Convergence is never declared before the warmup
    /// (one full interval, at least a thousand iterations) has passed
    /// and the counter has reached the convergence floor.  Stops
    /// without convergence when `max_iterations` (if non-zero) is
    /// reached.
    pub fn train_until_converged<F: Fn(&ConvergenceStats)>(
        &mut self,
        ci_target: u64,
        ci_check_interval: u64,
        max_iterations: u64,
        callback: Option<&F>,
    ) -> (r: ConvergenceResult)
        requires
            old(self).wf(),
            ci_check_interval >= 1,
            match callback {
                Some(cb) => forall|s: &ConvergenceStats| #[trigger] cb.requires((s,)),
                None => true,
            },
        ensures
            final(self).wf(),
            final(self).game == old(self).game,
            final(self).config == old(self).config,
            r.iterations == final(self).iteration,
            final(self).iteration >= old(self).iteration,
            spec_keys_preserved(old(self).storage@, final(self).storage@),
            old(self).spec_cfr_plus_invariant() ==> final(self).spec_cfr_plus_invariant(),
            r.converged ==> match r.final_ci {
                Some(ci) => ci <= ci_target && r.iterations >= MIN_CONVERGENCE_ITERATIONS,
                None => false,
            },
            r.converged ==> exists|sn: StrategySnapshot, snap_recs: Seq<InfoSetRecord>|
                {
                    &&& sn.wf()
                    &&& #[trigger] spec_snapshot_like(snap_recs, sn)
                    &&& spec_keys_preserved(old(self).storage@, snap_recs)
                    &&& spec_keys_preserved(snap_recs, final(self).storage@)
                    &&& ({
                        let cnt = spec_ci_count(
                            final(self).storage@,
                            sn.entries@,
                            final(self).storage@.len() as int,
                        );
                        let tot = spec_ci_total(
                            final(self).storage@,
                            sn.entries@,
                            final(self).storage@.len() as int,
                        );
                        &&& cnt != 0
                        &&& r.final_ci == Some(clamp_u64(100 * tot / cnt) as u64)
                    })
                },
            !r.converged ==> r.iterations >= (if max_iterations == 0 {
                u64::MAX
            } else {
                max_iterations
            }),
    {
        let start = now_millis();
        let effective_max: u64 = if max_iterations == 0 {
            u64::MAX
        } else {
            max_iterations
        };
        let warmup: u64 = if ci_check_interval > 1000 {
            ci_check_interval
        } else {
            1000
        };
        let mut snapshot: Option<StrategySnapshot> = None;
        let mut current: Option<u64> = None;
        let ghost mut snap_recs: Seq<InfoSetRecord> = Seq::empty();
        while self.iteration < effective_max
            invariant
                self.wf(),
                self.game == old(self).game,
                self.config == old(self).config,
                ci_check_interval >= 1,
                self.iteration >= old(self).iteration,
                spec_keys_preserved(old(self).storage@, self.storage@),
                old(self).spec_cfr_plus_invariant() ==> self.spec_cfr_plus_invariant(),
                effective_max == (if max_iterations == 0 {
                    u64::MAX
                } else {
                    max_iterations
                }),
                match snapshot {
                    Some(sn) => {
                        &&& sn.wf()
                        &&& spec_snapshot_like(snap_recs, sn)
                        &&& spec_keys_preserved(old(self).storage@, snap_recs)
                        &&& spec_keys_preserved(snap_recs, self.storage@)
                    },
                    None => true,
                },
                match callback {
                    Some(cb) => forall|s: &ConvergenceStats| #[trigger] cb.requires((s,)),
                    None => true,
                },
            decreases
                    (if self.iteration < effective_max {
                        effective_max as int - self.iteration as int
                    } else {
                        0int
                    }),
        {
            self.run_batch(ci_check_interval);
            let had_snapshot = snapshot.is_some();
            if self.iteration >= warmup {
                match &snapshot {
                    Some(snap) => {
                        current = self.storage.calculate_ci(snap);
                    },
                    None => {},
                }
            }
            // Report every batch; during warmup the drift is still
            // unmeasured and reported as absent.
            match callback {
                Some(cb) => {
                    let end = now_millis();
                    let progress = ConvergenceStats {
                        iteration: self.iteration,
                        ci: current,
                        info_sets: self.storage.num_info_sets(),
                        elapsed_millis: if end >= start {
                            end - start
                        } else {
                            0
                        },
                    };
                    cb(&progress);
                },
                None => {},
            }
            if self.iteration >= warmup {
                if had_snapshot {
                    let reached: bool = match current {
                        Some(ci) => ci <= ci_target,
                        None => false,
                    };
                    if reached && self.iteration >= MIN_CONVERGENCE_ITERATIONS {
                        let end = now_millis();
                        return ConvergenceResult {
                            converged: true,
                            final_ci: current,
                            iterations: self.iteration,
                            elapsed_millis: if end >= start {
                                end - start
                            } else {
                                0
                            },
                        };
                    }
                }
                snapshot = Some(self.storage.snapshot_strategies());
                proof {
                    snap_recs = self.storage@;
                }
            }
        }
        let end = now_millis();
        ConvergenceResult {
            converged: false,
            final_ci: current,
            iterations: self.iteration,
            elapsed_millis: if end >= start {
                end - start
            } else {
                0
            },
        }
    }

    /// Take a snapshot of the average strategies, for later drift
    /// measurement.
    pub fn snapshot_strategies(&self) -> (r: StrategySnapshot)
        requires
            self.wf(),
        ensures
            r.wf(),
            r.entries@.len() == self.storage@.len(),
    {
        self.storage.snapshot_strategies()
    }

    /// The drift indicator against an earlier snapshot (see
    /// [`RegretStorage::calculate_ci`]).
    pub fn calculate_ci(&self, snapshot: &StrategySnapshot) -> (r: Option<u64>)
        requires
            self.wf(),
            snapshot.wf(),
    {
        self.storage.calculate_ci(snapshot)
    }

    /// The value the exploiter can get when playing a best response
    /// while everyone else follows the average strategy.
    fn best_response_value(&mut self, state: &G::State, exploiter: usize) -> (v: i64)
        requires
            old(self).wf(),
            old(self).game.spec_state_ok(*state),
            (exploiter as int) < old(self).game.spec_num_players(),
        ensures
            final(self).wf(),
            final(self).game == old(self).game,
            final(self).config == old(self).config,
            final(self).iteration == old(self).iteration,
            final(self).stats == old(self).stats,
            final(self).storage@ == old(self).storage@,
            -old(self).game.spec_payoff_bound() <= v as int <= old(self).game.spec_payoff_bound(),
            old(self).game.spec_is_terminal(*state) ==> v as int == old(self).game.spec_payoff(
                *state,
                exploiter as int,
            ),
            !old(self).game.spec_is_terminal(*state) && !old(self).game.spec_is_chance(*state)
                && old(self).game.spec_current_player(*state) == Some(exploiter as int)
                ==> exists|vals: Seq<i64>|
                {
                    &&& vals.len() == old(self).game.spec_key_num_actions(
                        old(self).game.spec_info_key(*state),
                    )
                    &&& (forall|j: int|
                        0 <= j < vals.len() ==> -old(self).game.spec_payoff_bound() <= (
                        #[trigger] vals[j]) as int <= old(self).game.spec_payoff_bound())
                    &&& v as int == #[trigger] spec_seq_max(vals)
                },
            !old(self).game.spec_is_terminal(*state) && !old(self).game.spec_is_chance(*state)
                && old(self).game.spec_current_player(*state) is Some && old(
                self,
            ).game.spec_current_player(*state) != Some(exploiter as int) ==> ({
                let key = old(self).game.spec_info_key(*state);
                let n = old(self).game.spec_key_num_actions(key);
                let avg = old(self).storage.spec_average_strategy(key, n);
                exists|vals: Seq<i64>|
                    {
                        &&& vals.len() == n
                        &&& (forall|j: int|
                            0 <= j < vals.len() ==> -old(self).game.spec_payoff_bound() <= (
                            #[trigger] vals[j]) as int <= old(self).game.spec_payoff_bound())
                        &&& v as int == #[trigger] spec_expectation(avg, vals)
                    }
            }),
        decreases self.game.spec_measure(*state),
    {
        if self.game.is_terminal(state) {
            return self.game.get_payoff(state, exploiter);
        }
        if self.game.is_chance(state) {
            let next = sample_chance_state(&self.game, state, &mut self.rng);
            return self.best_response_value(&next, exploiter);
        }
        let player: usize = match self.game.current_player(state) {
            Some(p) => p,
            None => {
                return 0;
            },
        };
        let actions = self.game.available_actions(state);
        let n: usize = actions.len();
        if n == 0 {
            return 0;
        }
        let ghost bound = self.game.spec_payoff_bound();
        if player == exploiter {
            // The exploiter takes the best action.
            let mut best: Option<i64> = None;
            let ghost mut gvals: Seq<i64> = Seq::empty();
            let mut i: usize = 0;
            while i < n
                invariant
                    i <= n,
                    n == actions@.len(),
                    self.wf(),
                    self.game == old(self).game,
                    self.config == old(self).config,
                    self.iteration == old(self).iteration,
                    self.stats == old(self).stats,
                    self.storage@ == old(self).storage@,
                    self.game.spec_state_ok(*state),
                    self.game.spec_current_player(*state) is Some,
                    (exploiter as int) < self.game.spec_num_players(),
                    bound == self.game.spec_payoff_bound(),
                    gvals.len() == i,
                    forall|j: int|
                        0 <= j < gvals.len() ==> -bound <= (#[trigger] gvals[j]) as int <= bound,
                    match best {
                        Some(b) => i >= 1 && -bound <= b as int <= bound && b as int
                            == spec_seq_max(gvals),
                        None => i == 0,
                    },
                decreases n - i,
            {
                let next = self.game.apply_action(state, &actions[i]);
                let v = self.best_response_value(&next, exploiter);
                proof {
                    assert(gvals.push(v).drop_last() =~= gvals);
                    assert(gvals.push(v).last() == v);
                }
                best = match best {
                    Some(b) => if v > b {
                        Some(v)
                    } else {
                        Some(b)
                    },
                    None => Some(v),
                };
                proof {
                    gvals = gvals.push(v);
                }
                i = i + 1;
            }
            match best {
                Some(b) => b,
                None => 0,
            }
        } else {
            // Everyone else follows the average strategy.
            let key = self.game.info_key(state);
            let strategy = self.storage.get_average_strategy(key.as_str(), n);
            proof {
                lemma_avg_strategy_shape(*self, key@, n as nat, strategy@);
            }
            let mut values: Vec<i64> = Vec::new();
            let mut i: usize = 0;
            while i < n
                invariant
                    i <= n,
                    n == actions@.len(),
                    self.wf(),
                    self.game == old(self).game,
                    self.config == old(self).config,
                    self.iteration == old(self).iteration,
                    self.stats == old(self).stats,
                    self.storage@ == old(self).storage@,
                    self.game.spec_state_ok(*state),
                    self.game.spec_current_player(*state) is Some,
                    (exploiter as int) < self.game.spec_num_players(),
                    bound == self.game.spec_payoff_bound(),
                    values@.len() == i,
                    forall|j: int| 0 <= j < i ==> -bound <= (#[trigger] values@[j]) as int <= bound,
                decreases n - i,
            {
                let next = self.game.apply_action(state, &actions[i]);
                let v = self.best_response_value(&next, exploiter);
                values.push(v);
                i = i + 1;
            }
            expected_value(&strategy, &values, Ghost(bound))
        }
    }

    /// The value of a player when everyone, the player included,
    /// follows the average strategy.
    fn strategy_value(&mut self, state: &G::State, player_of_interest: usize) -> (v: i64)
        requires
            old(self).wf(),
            old(self).game.spec_state_ok(*state),
            (player_of_interest as int) < old(self).game.spec_num_players(),
        ensures
            final(self).wf(),
            final(self).game == old(self).game,
            final(self).config == old(self).config,
            final(self).iteration == old(self).iteration,
            final(self).stats == old(self).stats,
            final(self).storage@ == old(self).storage@,
            -old(self).game.spec_payoff_bound() <= v as int <= old(self).game.spec_payoff_bound(),
            old(self).game.spec_is_terminal(*state) ==> v as int == old(self).game.spec_payoff(
                *state,
                player_of_interest as int,
            ),
            !old(self).game.spec_is_terminal(*state) && !old(self).game.spec_is_chance(*state)
                && old(self).game.spec_current_player(*state) is Some ==> ({
                let key = old(self).game.spec_info_key(*state);
                let n = old(self).game.spec_key_num_actions(key);
                let avg = old(self).storage.spec_average_strategy(key, n);
                exists|vals: Seq<i64>|
                    {
                        &&& vals.len() == n
                        &&& (forall|j: int|
                            0 <= j < vals.len() ==> -old(self).game.spec_payoff_bound() <= (
                            #[trigger] vals[j]) as int <= old(self).game.spec_payoff_bound())
                        &&& v as int == #[trigger] spec_expectation(avg, vals)
                    }
            }),
        decreases self.game.spec_measure(*state),
    {
        if self.game.is_terminal(state) {
            return self.game.get_payoff(state, player_of_interest);
        }
        if self.game.is_chance(state) {
            let next = sample_chance_state(&self.game, state, &mut self.rng);
            return self.strategy_value(&next, player_of_interest);
        }
        match self.game.current_player(state) {
            Some(_) => {},
            None => {
                return 0;
            },
        }
        let actions = self.game.available_actions(state);
        let n: usize = actions.len();
        if n == 0 {
            return 0;
        }
        let ghost bound = self.game.spec_payoff_bound();
        let key = self.game.info_key(state);
        let strategy = self.storage.get_average_strategy(key.as_str(), n);
        proof {
            lemma_avg_strategy_shape(*self, key@, n as nat, strategy@);
        }
        let mut values: Vec<i64> = Vec::new();
        let mut i: usize = 0;
        while i < n
            invariant
                i <= n,
                n == actions@.len(),
                self.wf(),
                self.game == old(self).game,
                self.config == old(self).config,
                self.iteration == old(self).iteration,
                self.stats == old(self).stats,
                self.storage@ == old(self).storage@,
                self.game.spec_state_ok(*state),
                self.game.spec_current_player(*state) is Some,
                (player_of_interest as int) < self.game.spec_num_players(),
                bound == self.game.spec_payoff_bound(),
                values@.len() == i,
                forall|j: int| 0 <= j < i ==> -bound <= (#[trigger] values@[j]) as int <= bound,
            decreases n - i,
        {
            let next = self.game.apply_action(state, &actions[i]);
            let v = self.strategy_value(&next, player_of_interest);
            values.push(v);
            i = i + 1;
        }
        expected_value(&strategy, &values, Ghost(bound))
    }

    /// A Monte-Carlo estimate of exploitability: the average gain, over
    /// players and samples, of a best response over the average
    /// strategy.  The magnitude never exceeds twice the payoff bound.
    pub fn calculate_exploitability(&mut self, num_samples: usize) -> (r: i64)
        requires
            old(self).wf(),
            1 <= num_samples <= 1_000_000,
        ensures
            final(self).wf(),
            final(self).game == old(self).game,
            final(self).config == old(self).config,
            final(self).storage@ == old(self).storage@,
            -2 * old(self).game.spec_payoff_bound() <= r as int <= 2 * old(
                self,
            ).game.spec_payoff_bound(),
            exists|diffs: Seq<i64>|
                {
                    &&& diffs.len() == num_samples as int * old(self).game.spec_num_players()
                    &&& (forall|j: int|
                        0 <= j < diffs.len() ==> -2 * old(self).game.spec_payoff_bound() <= (
                        #[trigger] diffs[j]) as int <= 2 * old(self).game.spec_payoff_bound())
                    &&& r as int == spec_div_trunc(
                        (#[trigger] sum_i64(diffs)),
                        num_samples as int * old(self).game.spec_num_players(),
                    )
                },
    {
        let np: usize = self.game.num_players();
        let ghost bound = self.game.spec_payoff_bound();
        let ghost mut diffs: Seq<i64> = Seq::empty();
        let mut total: i128 = 0;
        let mut s: usize = 0;
        proof {
            assert((0 as int) * (2 * bound) == 0) by (nonlinear_arith);
        }
        while s < num_samples
            invariant
                s <= num_samples,
                num_samples <= 1_000_000,
                self.wf(),
                self.game == old(self).game,
                self.config == old(self).config,
                self.storage@ == old(self).storage@,
                np as int == self.game.spec_num_players(),
                np <= MAX_PLAYERS,
                bound == self.game.spec_payoff_bound(),
                -((s * np) as int * (2 * bound)) <= total as int <= (s * np) as int * (2 * bound),
                diffs.len() == s as int * np as int,
                forall|j: int|
                    0 <= j < diffs.len() ==> -2 * bound <= (#[trigger] diffs[j]) as int <= 2
                        * bound,
                total as int == sum_i64(diffs),
            decreases num_samples - s,
        {
            let mut e: usize = 0;
            while e < np
                invariant
                    e <= np,
                    s < num_samples,
                    num_samples <= 1_000_000,
                    self.wf(),
                    self.game == old(self).game,
                    self.config == old(self).config,
                    self.storage@ == old(self).storage@,
                    np as int == self.game.spec_num_players(),
                    np <= MAX_PLAYERS,
                    bound == self.game.spec_payoff_bound(),
                    -((s * np + e) as int * (2 * bound)) <= total as int <= (s * np + e) as int * (
                    2 * bound),
                    diffs.len() == s as int * np as int + e as int,
                    forall|j: int|
                        0 <= j < diffs.len() ==> -2 * bound <= (#[trigger] diffs[j]) as int <= 2
                            * bound,
                    total as int == sum_i64(diffs),
                decreases np - e,
            {
                let root = self.game.initial_state();
                let br = self.best_response_value(&root, e);
                let ev = self.strategy_value(&root, e);
                proof {
                    lemma_exploit_step(s as int, np as int, e as int, bound);
                    let d = (br as int - ev as int) as i64;
                    assert(d as int == br as int - ev as int);
                    assert(diffs.push(d).drop_last() =~= diffs);
                    assert(diffs.push(d).last() == d);
                    assert(sum_i64(diffs.push(d)) == sum_i64(diffs) + d as int);
                    diffs = diffs.push(d);
                }
                total = total + (br as i128 - ev as i128);
                e = e + 1;
            }
            proof {
                assert((s * np + np) as int == ((s + 1) * np) as int) by (nonlinear_arith);
            }
            s = s + 1;
        }
        proof {
            assert(1 <= num_samples as int * np as int <= 1_000_000_000_000) by (nonlinear_arith)
                requires
                    1 <= num_samples as int <= 1_000_000,
                    1 <= np as int <= 1_000_000;
            assert((num_samples * np) as int == num_samples as int * np as int)
                by (nonlinear_arith);
            assert(total as int <= (num_samples as int * np as int) * (2 * bound)) by {
                assert((s * np) as int * (2 * bound) <= (num_samples as int * np as int) * (2
                    * bound)) by (nonlinear_arith)
                    requires
                        s as int == num_samples as int,
                        np as int >= 1,
                        bound >= 0;
            }
            assert(-((num_samples as int * np as int) * (2 * bound)) <= total as int) by {
                assert((s * np) as int * (2 * bound) <= (num_samples as int * np as int) * (2
                    * bound)) by (nonlinear_arith)
                    requires
                        s as int == num_samples as int,
                        np as int >= 1,
                        bound >= 0;
            }
        }
        let denom: i128 = (num_samples as i128) * (np as i128);
        div_signed_by_count(total, denom, Ghost(2 * bound))
    }

    /// The current (regret-matched) strategy for an information set.
    pub fn get_current_strategy(&self, info_key: &str, num_actions: usize) -> (r: Vec<u64>)
        requires
            self.wf(),
        ensures
            r@ == self.storage.spec_current_strategy(info_key@, num_actions as nat),
    {
        self.storage.get_current_strategy(info_key, num_actions)
    }

    /// The time-averaged strategy for an information set; it converges
    /// to equilibrium as training progresses.
    pub fn get_average_strategy(&self, info_key: &str, num_actions: usize) -> (r: Vec<u64>)
        requires
            self.wf(),
        ensures
            r@ == self.storage.spec_average_strategy(info_key@, num_actions as nat),
    {
        self.storage.get_average_strategy(info_key, num_actions)
    }

    /// Completed iterations.
    pub fn iteration(&self) -> (r: u64)
        ensures
            r == self.iteration,
    {
        self.iteration
    }

    /// Number of information sets discovered so far.
    pub fn num_info_sets(&self) -> (r: usize)
        ensures
            r == self.storage@.len(),
    {
        self.storage.num_info_sets()
    }

    /// The training statistics.
    pub fn stats(&self) -> (r: &CFRStats)
        ensures
            r == self.stats,
    {
        &self.stats
    }

    /// The underlying store.
    pub fn storage(&self) -> (r: &RegretStorage)
        ensures
            r == self.storage,
    {
        &self.storage
    }

    /// The game being solved.
    pub fn game(&self) -> (r: &G)
        ensures
            r == self.game,
    {
        &self.game
    }

    /// The configuration.
    pub fn config(&self) -> (r: &CFRConfig)
        ensures
            r == self.config,
    {
        &self.config
    }

    /// Action names stored for an information set.
    pub fn get_action_names(&self, info_key: &str) -> (r: Option<Vec<String>>)
        requires
            self.wf(),
    {
        self.storage.get_action_names(info_key)
    }

    /// Every information-set key discovered so far, in store order.
    pub fn info_set_keys(&self) -> (r: Vec<String>)
        requires
            self.wf(),
        ensures
            r@.len() == self.storage@.len(),
            forall|i: int|
                0 <= i < r@.len() ==> (#[trigger] r@[i])@ == self.storage@[i].key@,
    {
        let n: usize = self.storage.num_info_sets();
        let mut out: Vec<String> = Vec::new();
        let mut i: usize = 0;
        while i < n
            invariant
                i <= n,
                n == self.storage@.len(),
                out@.len() == i,
                forall|j: int| 0 <= j < i ==> (#[trigger] out@[j])@ == self.storage@[j].key@,
            decreases n - i,
        {
            out.push(self.storage.records[i].key.clone());
            i = i + 1;
        }
        out
    }

    /// Export the solver's state for checkpointing: the iteration
    /// counter, the full store image and the statistics.
    pub fn export_state(&self) -> (r: SolverState)
        requires
            self.wf(),
        ensures
            r.iteration == self.iteration,
            r.stats == self.stats,
            r.storage.wf(),
            r.storage.entries@.len() == self.storage@.len(),
            forall|i: int|
                0 <= i < self.storage@.len() ==> crate::storage::spec_record_like(
                    #[trigger] r.storage.entries@[i],
                    self.storage@[i],
                ),
    {
        SolverState { iteration: self.iteration, storage: self.storage.export(), stats: self.stats }
    }

    /// Import a checkpoint, replacing the iteration counter, the store
    /// and the statistics.  The imported records must agree with the
    /// game's action counts, as an export of this game's store does.
    pub fn import_state(&mut self, st: SolverState)
        requires
            old(self).wf(),
            st.storage.wf(),
            forall|i: int|
                0 <= i < st.storage.entries@.len() ==> (
                #[trigger] st.storage.entries@[i]).spec_num_actions()
                    == old(self).game.spec_key_num_actions(st.storage.entries@[i].key@),
        ensures
            final(self).wf(),
            final(self).game == old(self).game,
            final(self).config == old(self).config,
            final(self).iteration == st.iteration,
            final(self).stats == st.stats,
            final(self).storage@ == st.storage.entries@,
    {
        self.iteration = st.iteration;
        self.storage.import(st.storage);
        self.stats = st.stats;
    }

    /// Reset the solver: the iteration counter returns to zero, the
    /// store is emptied and the statistics cleared.
    pub fn reset(&mut self)
        requires
            old(self).wf(),
        ensures
            final(self).wf(),
            final(self).game == old(self).game,
            final(self).config == old(self).config,
            final(self).iteration == 0,
            final(self).storage@.len() == 0,
            final(self).stats.iterations == 0,
            final(self).stats.info_sets == 0,
            final(self).stats.elapsed_millis == 0,
            final(self).stats.iterations_per_second == 0,
    {
        self.storage.clear();
        self.iteration = 0;
        self.stats = CFRStats::new();
    }
}

/// One step of the exploitability accumulator bound.
proof fn lemma_exploit_step(s: int, np: int, e: int, bound: int)
    requires
        0 <= s < 1_000_001,
        1 <= np <= MAX_PLAYERS as int,
        0 <= e < np,
        0 <= bound <= MAX_PAYOFF as int,
    ensures
        (s * np + e + 1) * (2 * bound) == (s * np + e) * (2 * bound) + 2 * bound,
        (s * np + e) * (2 * bound) >= 0,
        (s * np + e + 1) * (2 * bound) <= 2_000_002_000_000 * (2 * MAX_PAYOFF as int),
{
    assert((s * np + e + 1) * (2 * bound) == (s * np + e) * (2 * bound) + 2 * bound)
        by (nonlinear_arith);
    assert((s * np + e) * (2 * bound) >= 0) by (nonlinear_arith)
        requires
            s >= 0,
            np >= 1,
            e >= 0,
            bound >= 0;
    assert(s * np + e + 1 <= 2_000_002_000_000) by (nonlinear_arith)
        requires
            0 <= s < 1_000_001,
            1 <= np <= 1_000_000,
            0 <= e < np;
    assert((s * np + e + 1) * (2 * bound) <= 2_000_002_000_000 * (2 * MAX_PAYOFF as int))
        by (nonlinear_arith)
        requires
            0 <= s * np + e + 1 <= 2_000_002_000_000,
            0 <= bound <= MAX_PAYOFF as int;
}

/// Divide an accumulated total by a positive count, truncating toward
/// zero; the quotient keeps the per-item bound.
fn div_signed_by_count(total: i128, denom: i128, Ghost(bound): Ghost<int>) -> (r: i64)
    requires
        1 <= denom <= 1_000_000_000_000,
        0 <= bound <= 2 * MAX_PAYOFF as int,
        -(denom as int * bound) <= total as int <= denom as int * bound,
    ensures
        -bound <= r as int <= bound,
        r as int == spec_div_trunc(total as int, denom as int),
{
    proof {
        assert(denom as int * bound <= 1_000_000_000_000 * (2 * MAX_PAYOFF as int))
            by (nonlinear_arith)
            requires
                1 <= denom <= 1_000_000_000_000,
                0 <= bound <= 2 * MAX_PAYOFF as int;
    }
    if total >= 0 {
        proof {
            lemma_div_is_ordered(total as int, denom as int * bound, denom as int);
            assert(denom as int * bound == bound * denom as int) by (nonlinear_arith);
            assert(bound * denom as int == denom as int * bound) by (nonlinear_arith);
            lemma_div_multiples_vanish(bound, denom as int);
            lemma_div_pos_is_pos(total as int, denom as int);
        }
        let q: i128 = total / denom;
        q as i64
    } else {
        let neg: i128 = -total;
        proof {
            lemma_div_is_ordered(neg as int, denom as int * bound, denom as int);
            assert(denom as int * bound == bound * denom as int) by (nonlinear_arith);
            lemma_div_multiples_vanish(bound, denom as int);
            lemma_div_pos_is_pos(neg as int, denom as int);
        }
        let q: i128 = neg / denom;
        let r: i128 = -q;
        r as i64
    }
}

/// The average strategy a query returns has the queried width and is a
/// sub-probability vector.
proof fn lemma_avg_strategy_shape<G: Game>(
    solver: CFRSolver<G>,
    key: Seq<char>,
    n: nat,
    strategy: Seq<u64>,
)
    requires
        solver.wf(),
        n == solver.game.spec_key_num_actions(key),
        strategy == solver.storage.spec_average_strategy(key, n),
    ensures
        strategy.len() == n,
        forall|k: int| 0 <= k < strategy.len() ==> strategy[k] <= PROB_ONE,
        sum_u64(strategy) <= PROB_ONE as int,
{
    if spec_has_key(solver.storage@, key) {
        let i = spec_index_of(solver.storage@, key);
        assert(0 <= i < solver.storage@.len() && solver.storage@[i].key@ == key);
        let sums = spec_record_of(solver.storage@, key).strategy_sums@;
        assert(solver.storage@[i].wf());
        crate::storage::lemma_normalized_in_range_pub(sums);
        crate::storage::lemma_normalized_sum_le_pub(sums);
    } else {
        crate::storage::lemma_uniform_in_range_pub(n);
        crate::storage::lemma_uniform_sum_le_pub(n);
    }
}

} // verus!
