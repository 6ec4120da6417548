//! The capability contract the solver imposes on a game.
//!
//! A game supplies state transitions, terminal payoffs, action
//! enumeration, information-set projection and chance sampling.  The
//! contracts here are what the traversal kernel relies on: payoffs are
//! bounded, a decision state offers at least one action, the number of
//! actions is a function of the information-set key alone, and every
//! move strictly shrinks a well-founded measure of the state, so that
//! the game tree is finite.

use vstd::prelude::*;

verus! {

/// An action a player can take.
pub trait Action: Sized {
    /// A short text form of the action, used for display and storage.
    fn to_string(&self) -> String;
}

/// What a player knows at a decision point.
pub trait InfoState: Sized {
    /// The storage key of this information state.  Two states that the
    /// acting player cannot distinguish must produce equal keys.
    fn key(&self) -> String;
}

/// A complete description of a point in the game.
pub trait GameState: Sized {

}

/// The game capability.  Payoffs and probabilities are fixed-point
/// integers in [`crate::fixed::PROB_ONE`] units.
pub trait Game: Sized {
    /// The game's state type.
    type State;

    /// The game's action type.
    type Action;

    /// The game's information-state type.
    type InfoState;

    /// Number of players, fixed for the game's lifetime.
    spec fn spec_num_players(&self) -> int;

    /// States the game can actually reach; the contracts below are
    /// promised on these.
    spec fn spec_state_ok(&self, s: Self::State) -> bool;

    /// The states the game starts from: everything `initial_state`
    /// can produce.
    spec fn spec_is_initial(&self, s: Self::State) -> bool;

    /// The payoff of a player at a state, in fixed-point units: what
    /// `get_payoff` computes on terminal states.
    spec fn spec_payoff(&self, s: Self::State, player: int) -> int;

    /// Whether a state is terminal.
    spec fn spec_is_terminal(&self, s: Self::State) -> bool;

    /// Whether a state is a chance node.
    spec fn spec_is_chance(&self, s: Self::State) -> bool;

    /// The player to act, if any.
    spec fn spec_current_player(&self, s: Self::State) -> Option<int>;

    /// The information-set key of a decision state.
    spec fn spec_info_key(&self, s: Self::State) -> Seq<char>;

    /// The number of actions offered at an information-set key.  Every
    /// decision state with the same key offers this many actions.
    spec fn spec_key_num_actions(&self, key: Seq<char>) -> nat;

    /// A bound on the magnitude of every payoff.
    spec fn spec_payoff_bound(&self) -> int;

    /// A well-founded measure of states: every move decreases it.
    spec fn spec_measure(&self, s: Self::State) -> nat;

    /// Number of players.
    fn num_players(&self) -> (n: usize)
        ensures
            n as int == self.spec_num_players(),
            1 <= n,
    ;

    /// A fresh root state.  It may be a chance node.
    fn initial_state(&self) -> (s: Self::State)
        ensures
            self.spec_state_ok(s),
            self.spec_is_initial(s),
    ;

    /// Whether the game is over at this state.
    fn is_terminal(&self, s: &Self::State) -> (r: bool)
        ensures
            r == self.spec_is_terminal(*s),
    ;

    /// Whether this state is resolved by chance rather than a player.
    fn is_chance(&self, s: &Self::State) -> (r: bool)
        ensures
            r == self.spec_is_chance(*s),
    ;

    /// The payoff of `player` at a terminal state, in fixed-point
    /// units: exactly the game's spec-level payoff, whose magnitude
    /// never exceeds the game's payoff bound.
    fn get_payoff(&self, s: &Self::State, player: usize) -> (v: i64)
        requires
            self.spec_state_ok(*s),
            self.spec_is_terminal(*s),
            (player as int) < self.spec_num_players(),
        ensures
            v as int == self.spec_payoff(*s, player as int),
            -self.spec_payoff_bound() <= v as int <= self.spec_payoff_bound(),
    ;

    /// The player to act: `None` at terminal states and chance nodes,
    /// and always some player below the player count otherwise.
    fn current_player(&self, s: &Self::State) -> (r: Option<usize>)
        requires
            self.spec_state_ok(*s),
        ensures
            r == match self.spec_current_player(*s) {
                Some(p) => Some(p as usize),
                None => None::<usize>,
            },
            match self.spec_current_player(*s) {
                Some(p) => 0 <= p < self.spec_num_players(),
                None => true,
            },
            self.spec_is_terminal(*s) || self.spec_is_chance(*s)
                ==> self.spec_current_player(*s) is None,
            !self.spec_is_terminal(*s) && !self.spec_is_chance(*s)
                ==> self.spec_current_player(*s) is Some,
    ;

    /// The actions available at a decision state, in a deterministic
    /// order; their number is fixed by the information-set key.
    fn available_actions(&self, s: &Self::State) -> (acts: Vec<Self::Action>)
        requires
            self.spec_state_ok(*s),
        ensures
            self.spec_current_player(*s) is Some ==> acts@.len() == self.spec_key_num_actions(
                self.spec_info_key(*s),
            ) >= 1,
    ;

    /// Apply an action to a decision state, without changing the
    /// input.  The move shrinks the state measure, and the successor
    /// is reachable.
    fn apply_action(&self, s: &Self::State, a: &Self::Action) -> (t: Self::State)
        requires
            self.spec_state_ok(*s),
            self.spec_current_player(*s) is Some,
        ensures
            self.spec_state_ok(t),
            self.spec_measure(t) < self.spec_measure(*s),
    ;

    /// The information state visible to the acting player.
    fn info_state(&self, s: &Self::State) -> Self::InfoState
        requires
            self.spec_state_ok(*s),
    ;

    /// The storage key of the acting player's information state.
    fn info_key(&self, s: &Self::State) -> (k: String)
        requires
            self.spec_state_ok(*s),
        ensures
            k@ == self.spec_info_key(*s),
    ;

    /// Sample the outcome of a chance node.  Whatever is drawn, the
    /// outcome is reachable and the measure shrinks.
    fn sample_chance(&self, s: &Self::State, rng: &mut rand::rngs::StdRng) -> (t: Self::State)
        requires
            self.spec_state_ok(*s),
            self.spec_is_chance(*s),
        ensures
            self.spec_state_ok(t),
            self.spec_measure(t) < self.spec_measure(*s),
    ;

    /// A human-readable name for an action.
    fn action_name(&self, a: &Self::Action) -> String;
}

} // verus!
