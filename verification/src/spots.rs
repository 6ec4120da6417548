//! Scenario filtering for full-game solves: which opener-defender
//! spots a run should cover.

use vstd::prelude::*;

use crate::storage::str_eq;

verus! {

/// The equity model a configuration selects, by name, and whether the
/// pot is raked.
#[derive(Debug, Clone)]
pub struct EquityModel {
    /// The model's name.
    pub model_type: String,
    /// Whether a rake is applied.
    pub raked: bool,
}

/// A specific spot to solve: the opener, the defender, and how deep
/// into the raising war to go.
#[derive(Debug, Clone)]
pub struct Spot {
    /// The position that raises first in.
    pub rfi: String,
    /// The position that responds.
    pub defender: String,
    /// Whether three-bet pots are included.
    pub include_3bet: bool,
    /// Whether four-bet-and-beyond pots are included.
    pub include_4bet_plus: bool,
}

/// Card-abstraction sizing as a configuration file carries it.
#[derive(Debug, Clone, Copy, PartialEq, Eq, Structural)]
pub struct AbstractionSettings {
    /// Buckets on the flop.
    pub flop_buckets: u16,
    /// Buckets on the turn.
    pub turn_buckets: u16,
    /// Buckets on the river.
    pub river_buckets: u16,
    /// Samples for the equity estimate.
    pub equity_samples: usize,
}

impl AbstractionSettings {
    /// The default sizing.
    pub fn new() -> (r: AbstractionSettings)
        ensures
            r == (AbstractionSettings {
                flop_buckets: 1024u16,
                turn_buckets: 256u16,
                river_buckets: 256u16,
                equity_samples: 500usize,
            }),
    {
        AbstractionSettings {
            flop_buckets: 1024,
            turn_buckets: 256,
            river_buckets: 256,
            equity_samples: 500,
        }
    }
}

/// Solver settings as a configuration file carries them.
#[derive(Debug, Clone, Copy, PartialEq, Eq, Structural)]
pub struct SolverSettings {
    /// Iterations to run.
    pub iterations: u64,
    /// Requested threads; zero asks for a default.
    pub threads: usize,
    /// Optional random seed.
    pub seed: Option<u64>,
    /// Whether CFR+ clamping is used.
    pub use_cfr_plus: bool,
    /// Whether Linear CFR weighting is used.
    pub use_linear_cfr: bool,
}

impl SolverSettings {
    /// The default settings: CFR+ with linear weighting.
    pub fn new() -> (r: SolverSettings)
        ensures
            r.use_cfr_plus,
            r.use_linear_cfr,
            r.threads == 0,
            r.seed is None,
            r.iterations == 100_000,
    {
        SolverSettings {
            iterations: 100_000,
            threads: 0,
            seed: None,
            use_cfr_plus: true,
            use_linear_cfr: true,
        }
    }
}

/// A filter naming the spots a run should solve.
#[derive(Debug, Clone)]
pub struct ScenarioFilter {
    /// The spots to solve.
    pub spots: Vec<Spot>,
}

/// Whether a spot list holds the given opener-defender pair.
pub open spec fn spec_has_spot(spots: Seq<Spot>, rfi: Seq<char>, defender: Seq<char>) -> bool {
    exists|i: int|
        0 <= i < spots.len() && (#[trigger] spots[i]).rfi@ == rfi && spots[i].defender@ == defender
}

impl ScenarioFilter {
    /// Whether the opener-defender pair is in the filter.
    pub fn includes_spot(&self, rfi: &str, defender: &str) -> (r: bool)
        ensures
            r == spec_has_spot(self.spots@, rfi@, defender@),
    {
        let n: usize = self.spots.len();
        let mut i: usize = 0;
        while i < n
            invariant
                i <= n,
                n == self.spots@.len(),
                forall|j: int|
                    0 <= j < i ==> !((#[trigger] self.spots@[j]).rfi@ == rfi@
                        && self.spots@[j].defender@ == defender@),
            decreases n - i,
        {
            if str_eq(self.spots[i].rfi.as_str(), rfi) && str_eq(
                self.spots[i].defender.as_str(),
                defender,
            ) {
                return true;
            }
            i = i + 1;
        }
        false
    }

    /// The first spot for the opener-defender pair, if the filter
    /// holds one.
    pub fn get_spot(&self, rfi: &str, defender: &str) -> (r: Option<&Spot>)
        ensures
            match r {
                Some(s) => s.rfi@ == rfi@ && s.defender@ == defender@ && spec_has_spot(
                    self.spots@,
                    rfi@,
                    defender@,
                ),
                None => !spec_has_spot(self.spots@, rfi@, defender@),
            },
    {
        let n: usize = self.spots.len();
        let mut i: usize = 0;
        while i < n
            invariant
                i <= n,
                n == self.spots@.len(),
                forall|j: int|
                    0 <= j < i ==> !((#[trigger] self.spots@[j]).rfi@ == rfi@
                        && self.spots@[j].defender@ == defender@),
            decreases n - i,
        {
            if str_eq(self.spots[i].rfi.as_str(), rfi) && str_eq(
                self.spots[i].defender.as_str(),
                defender,
            ) {
                return Some(&self.spots[i]);
            }
            i = i + 1;
        }
        None
    }
}

} // verus!
