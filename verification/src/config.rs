//! Configuration and statistics for the solver.
//!
//! Probabilities (the exploration rate, discount factors) are
//! fixed-point integers in [`crate::fixed::PROB_ONE`] units.

use vstd::prelude::*;

use crate::fixed::PROB_ONE;

verus! {

/// Configuration of the solver's update rules.
#[derive(Debug, Clone)]
pub struct CFRConfig {
    /// Clamp negative regrets to zero after each update (CFR+).
    pub use_cfr_plus: bool,
    /// Weight strategy-sum updates by the iteration index (Linear CFR).
    pub use_linear_cfr: bool,
    /// Probability of exploring a uniformly random action when
    /// sampling an opponent's move, in `PROB_ONE` units.
    pub exploration: u64,
    /// Optional lower bound on regrets when CFR+ is off; `None` is
    /// pure vanilla CFR.
    pub regret_floor: Option<i64>,
    /// Optional per-iteration discount on all regrets, in `PROB_ONE`
    /// units.
    pub regret_discount: Option<u64>,
    /// Optional per-iteration discount on all strategy sums, in
    /// `PROB_ONE` units.
    pub strategy_discount: Option<u64>,
    /// Requested parallelism; `None` picks a default.  The solver in
    /// this crate runs its traversals sequentially.
    pub num_threads: Option<usize>,
    /// Seed for deterministic runs; `None` draws from the system.
    pub seed: Option<u64>,
}

/// A configuration is valid when every probability is at most one.
pub open spec fn spec_config_valid(c: CFRConfig) -> bool {
    &&& c.exploration <= PROB_ONE
    &&& match c.regret_discount {
        Some(d) => d <= PROB_ONE,
        None => true,
    }
    &&& match c.strategy_discount {
        Some(d) => d <= PROB_ONE,
        None => true,
    }
}

impl CFRConfig {
    /// The default configuration: CFR+ with linear weighting, no
    /// exploration, no discounting, no seed.
    pub fn new() -> (c: CFRConfig)
        ensures
            c.use_cfr_plus,
            c.use_linear_cfr,
            c.exploration == 0,
            c.regret_floor is None,
            c.regret_discount is None,
            c.strategy_discount is None,
            c.num_threads is None,
            c.seed is None,
            spec_config_valid(c),
    {
        CFRConfig {
            use_cfr_plus: true,
            use_linear_cfr: true,
            exploration: 0,
            regret_floor: None,
            regret_discount: None,
            strategy_discount: None,
            num_threads: None,
            seed: None,
        }
    }

    /// A configuration tuned for fast convergence: CFR+, linear
    /// weighting and a moderate exploration rate.
    pub fn fast() -> (c: CFRConfig)
        ensures
            c.use_cfr_plus,
            c.use_linear_cfr,
            c.exploration == 2 * PROB_ONE / 5,
            spec_config_valid(c),
    {
        let mut c = CFRConfig::new();
        c.exploration = 2 * PROB_ONE / 5;
        c
    }

    /// Pure vanilla CFR with heavy exploration, for comparison runs.
    pub fn vanilla() -> (c: CFRConfig)
        ensures
            !c.use_cfr_plus,
            !c.use_linear_cfr,
            c.exploration == 3 * PROB_ONE / 5,
            spec_config_valid(c),
    {
        let mut c = CFRConfig::new();
        c.use_cfr_plus = false;
        c.use_linear_cfr = false;
        c.exploration = 3 * PROB_ONE / 5;
        c
    }

    /// Discounted CFR: CFR+ with per-iteration discounts on regrets
    /// (`alpha`) and strategy sums (`beta`), both in `PROB_ONE` units.
    pub fn discounted(alpha: u64, beta: u64) -> (c: CFRConfig)
        requires
            alpha <= PROB_ONE,
            beta <= PROB_ONE,
        ensures
            c.use_cfr_plus,
            !c.use_linear_cfr,
            c.regret_discount == Some(alpha),
            c.strategy_discount == Some(beta),
            spec_config_valid(c),
    {
        let mut c = CFRConfig::new();
        c.use_linear_cfr = false;
        c.exploration = 3 * PROB_ONE / 5;
        c.regret_discount = Some(alpha);
        c.strategy_discount = Some(beta);
        c
    }

    /// Set whether CFR+ clamping is used.
    pub fn with_cfr_plus(self, enable: bool) -> (c: CFRConfig)
        ensures
            c == (CFRConfig { use_cfr_plus: enable, ..self }),
    {
        let mut c = self;
        c.use_cfr_plus = enable;
        c
    }

    /// Set whether Linear CFR weighting is used.
    pub fn with_linear_cfr(self, enable: bool) -> (c: CFRConfig)
        ensures
            c == (CFRConfig { use_linear_cfr: enable, ..self }),
    {
        let mut c = self;
        c.use_linear_cfr = enable;
        c
    }

    /// Set the exploration probability, clamped to at most one.
    pub fn with_exploration(self, exploration: u64) -> (c: CFRConfig)
        ensures
            c.exploration == (if exploration <= PROB_ONE {
                exploration
            } else {
                PROB_ONE
            }),
            c == (CFRConfig { exploration: c.exploration, ..self }),
    {
        let mut c = self;
        c.exploration = if exploration <= PROB_ONE {
            exploration
        } else {
            PROB_ONE
        };
        c
    }

    /// Set the requested thread count.
    pub fn with_threads(self, threads: usize) -> (c: CFRConfig)
        ensures
            c == (CFRConfig { num_threads: Some(threads), ..self }),
    {
        let mut c = self;
        c.num_threads = Some(threads);
        c
    }

    /// Set the random seed.
    pub fn with_seed(self, seed: u64) -> (c: CFRConfig)
        ensures
            c == (CFRConfig { seed: Some(seed), ..self }),
    {
        let mut c = self;
        c.seed = Some(seed);
        c
    }

    /// Validate the configuration: every probability must be at most
    /// one.  Returns the first offending value: the exploration rate,
    /// then the regret discount, then the strategy discount.
    pub fn validate(&self) -> (r: Result<(), ConfigError>)
        ensures
            match r {
                Ok(()) => spec_config_valid(*self),
                Err(ConfigError::InvalidExploration(v)) => v == self.exploration && v > PROB_ONE,
                Err(ConfigError::InvalidRegretDiscount(v)) => self.exploration <= PROB_ONE
                    && self.regret_discount == Some(v) && v > PROB_ONE,
                Err(ConfigError::InvalidStrategyDiscount(v)) => self.exploration <= PROB_ONE
                    && (match self.regret_discount {
                    Some(d) => d <= PROB_ONE,
                    None => true,
                }) && self.strategy_discount == Some(v) && v > PROB_ONE,
            },
    {
        if self.exploration > PROB_ONE {
            return Err(ConfigError::InvalidExploration(self.exploration));
        }
        match self.regret_discount {
            Some(d) => {
                if d > PROB_ONE {
                    return Err(ConfigError::InvalidRegretDiscount(d));
                }
            },
            None => {},
        }
        match self.strategy_discount {
            Some(d) => {
                if d > PROB_ONE {
                    return Err(ConfigError::InvalidStrategyDiscount(d));
                }
            },
            None => {},
        }
        Ok(())
    }
}

/// A configuration value out of range.
#[derive(Debug, Clone, Copy, PartialEq, Eq, Structural)]
pub enum ConfigError {
    /// The exploration probability exceeds one.
    InvalidExploration(u64),
    /// The regret discount exceeds one.
    InvalidRegretDiscount(u64),
    /// The strategy discount exceeds one.
    InvalidStrategyDiscount(u64),
}

/// Statistics of a training run.  Times are in milliseconds, measured
/// by the caller-facing training entry points.
#[derive(Debug, Clone, Copy)]
pub struct CFRStats {
    /// Iterations completed so far.
    pub iterations: u64,
    /// Information sets discovered.
    pub info_sets: usize,
    /// Wall-clock time spent training, in milliseconds.
    pub elapsed_millis: u64,
    /// Training speed, in iterations per second.
    pub iterations_per_second: u64,
}

impl CFRStats {
    /// Fresh, all-zero statistics.
    pub fn new() -> (s: CFRStats)
        ensures
            s.iterations == 0,
            s.info_sets == 0,
            s.elapsed_millis == 0,
            s.iterations_per_second == 0,
    {
        CFRStats { iterations: 0, info_sets: 0, elapsed_millis: 0, iterations_per_second: 0 }
    }

    /// Recompute the rate from iterations and elapsed time; zero time
    /// gives a zero rate.
    pub fn update_rate(&mut self)
        ensures
            final(self).iterations == old(self).iterations,
            final(self).info_sets == old(self).info_sets,
            final(self).elapsed_millis == old(self).elapsed_millis,
            final(self).iterations_per_second as int == (if old(self).elapsed_millis > 0 {
                crate::storage::clamp_u64(
                    old(self).iterations as int * 1000 / old(self).elapsed_millis as int,
                )
            } else {
                0
            }),
    {
        if self.elapsed_millis > 0 {
            let rate: u128 = (self.iterations as u128) * 1000 / (self.elapsed_millis as u128);
            proof {
                vstd::arithmetic::div_mod::lemma_div_pos_is_pos(
                    self.iterations as int * 1000,
                    self.elapsed_millis as int,
                );
                assert(self.iterations as int * 1000 >= 0) by (nonlinear_arith)
                    requires
                        self.iterations >= 0;
            }
            if rate > u64::MAX as u128 {
                self.iterations_per_second = u64::MAX;
            } else {
                self.iterations_per_second = rate as u64;
            }
        } else {
            self.iterations_per_second = 0;
        }
    }
}

} // verus!
