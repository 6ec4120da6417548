//! Preflop range-chart scenarios: positions, spots and the one-decision
//! game state behind a range chart.

use vstd::prelude::*;

verus! {

/// Position at an eight-seat table, as range charts label it.
#[derive(Debug, Clone, Copy, PartialEq, Eq, Structural, Hash)]
pub enum Position {
    /// Under the gun.
    UTG,
    /// Early position.
    EP,
    /// Middle position.
    MP,
    /// The hijack.
    HJ,
    /// The cutoff.
    CO,
    /// The button.
    BU,
    /// The small blind.
    SB,
    /// The big blind.
    BB,
}

/// The display name of a position.
pub open spec fn spec_position_name(p: Position) -> Seq<char> {
    match p {
        Position::UTG => "UTG"@,
        Position::EP => "EP"@,
        Position::MP => "MP"@,
        Position::HJ => "HJ"@,
        Position::CO => "CO"@,
        Position::BU => "BU"@,
        Position::SB => "SB"@,
        Position::BB => "BB"@,
    }
}

impl Position {
    /// The position's display name.
    pub fn name(&self) -> (r: &'static str)
        ensures
            r@ == spec_position_name(*self),
    {
        match self {
            Position::UTG => "UTG",
            Position::EP => "EP",
            Position::MP => "MP",
            Position::HJ => "HJ",
            Position::CO => "CO",
            Position::BU => "BU",
            Position::SB => "SB",
            Position::BB => "BB",
        }
    }

    /// All eight positions, in preflop action order.
    pub fn all() -> (r: Vec<Position>)
        ensures
            r@.len() == 8,
            forall|i: int| 0 <= i < 8 ==> (#[trigger] r@[i]).spec_index() == i,
    {
        let mut out: Vec<Position> = Vec::new();
        out.push(Position::UTG);
        out.push(Position::EP);
        out.push(Position::MP);
        out.push(Position::HJ);
        out.push(Position::CO);
        out.push(Position::BU);
        out.push(Position::SB);
        out.push(Position::BB);
        out
    }

    /// All eight positions of an eight-seat table, in action order;
    /// the same order that [`Position::all`] gives.
    pub fn all_8max() -> (r: Vec<Position>)
        ensures
            r@.len() == 8,
            forall|i: int| 0 <= i < 8 ==> (#[trigger] r@[i]).spec_index() == i,
    {
        Position::all()
    }

    /// The position's index in action order, in spec form.
    pub open spec fn spec_index(self) -> int {
        match self {
            Position::UTG => 0,
            Position::EP => 1,
            Position::MP => 2,
            Position::HJ => 3,
            Position::CO => 4,
            Position::BU => 5,
            Position::SB => 6,
            Position::BB => 7,
        }
    }

    /// The position's index in action order.
    pub fn index(&self) -> (r: usize)
        ensures
            r as int == self.spec_index(),
    {
        match self {
            Position::UTG => 0,
            Position::EP => 1,
            Position::MP => 2,
            Position::HJ => 3,
            Position::CO => 4,
            Position::BU => 5,
            Position::SB => 6,
            Position::BB => 7,
        }
    }

    /// Whether this position acts after another one postflop.
    pub fn is_ip_vs(&self, other: &Position) -> (r: bool)
        ensures
            r == (self.spec_index() > other.spec_index()),
    {
        self.index() > other.index()
    }
}

/// A preflop scenario: who opened, who responds, at which bet level.
#[derive(Debug, Clone, Copy, PartialEq, Eq, Structural, Hash)]
pub enum Scenario {
    /// An unopened pot: the position raises first in.
    RFI {
        /// The opener.
        position: Position,
    },
    /// Facing an opening raise.
    VsRFI {
        /// The responding player.
        hero: Position,
        /// The opener.
        villain: Position,
    },
    /// Facing a three-bet after opening.
    Vs3Bet {
        /// The original opener.
        hero: Position,
        /// The three-bettor.
        villain: Position,
    },
    /// Three-betting against an open.
    ThreeBet {
        /// The three-bettor.
        hero: Position,
        /// The opener.
        villain: Position,
    },
    /// Facing a four-bet after three-betting.
    Vs4Bet {
        /// The three-bettor.
        hero: Position,
        /// The four-bettor.
        villain: Position,
    },
    /// Four-betting against a three-bet.
    FourBet {
        /// The four-bettor.
        hero: Position,
        /// The three-bettor.
        villain: Position,
    },
    /// Facing a five-bet.
    Vs5Bet {
        /// The responding player.
        hero: Position,
        /// The five-bettor.
        villain: Position,
    },
}

impl Scenario {
    /// The scenario's file-friendly name, such as `UTG_RFI` or
    /// `BB_vs_UTG_RFI`.
    pub fn name(&self) -> (r: String)
        ensures
            r@ == match *self {
                Scenario::RFI { position } => spec_position_name(position) + "_RFI"@,
                Scenario::VsRFI { hero, villain } => spec_position_name(hero) + "_vs_"@
                    + spec_position_name(villain) + "_RFI"@,
                Scenario::ThreeBet { hero, villain } => spec_position_name(hero) + "_3bet_vs_"@
                    + spec_position_name(villain),
                Scenario::Vs3Bet { hero, villain } => spec_position_name(hero) + "_vs_"@
                    + spec_position_name(villain) + "_3bet"@,
                Scenario::FourBet { hero, villain } => spec_position_name(hero) + "_4bet_vs_"@
                    + spec_position_name(villain),
                Scenario::Vs4Bet { hero, villain } => spec_position_name(hero) + "_vs_"@
                    + spec_position_name(villain) + "_4bet"@,
                Scenario::Vs5Bet { hero, villain } => spec_position_name(hero) + "_vs_"@
                    + spec_position_name(villain) + "_5bet"@,
            },
    {
        match self {
            Scenario::RFI { position } => {
                let mut out = String::from_str(position.name());
                out.append("_RFI");
                out
            },
            Scenario::VsRFI { hero, villain } => {
                let mut out = String::from_str(hero.name());
                out.append("_vs_");
                out.append(villain.name());
                out.append("_RFI");
                out
            },
            Scenario::ThreeBet { hero, villain } => {
                let mut out = String::from_str(hero.name());
                out.append("_3bet_vs_");
                out.append(villain.name());
                out
            },
            Scenario::Vs3Bet { hero, villain } => {
                let mut out = String::from_str(hero.name());
                out.append("_vs_");
                out.append(villain.name());
                out.append("_3bet");
                out
            },
            Scenario::FourBet { hero, villain } => {
                let mut out = String::from_str(hero.name());
                out.append("_4bet_vs_");
                out.append(villain.name());
                out
            },
            Scenario::Vs4Bet { hero, villain } => {
                let mut out = String::from_str(hero.name());
                out.append("_vs_");
                out.append(villain.name());
                out.append("_4bet");
                out
            },
            Scenario::Vs5Bet { hero, villain } => {
                let mut out = String::from_str(hero.name());
                out.append("_vs_");
                out.append(villain.name());
                out.append("_5bet");
                out
            },
        }
    }

    /// The scenario's human-readable name, such as `UTG Open (RFI)`.
    pub fn display_name(&self) -> (r: String)
        ensures
            r@ == match *self {
                Scenario::RFI { position } => spec_position_name(position) + " Open (RFI)"@,
                Scenario::VsRFI { hero, villain } => spec_position_name(hero) + " vs "@
                    + spec_position_name(villain) + " Open"@,
                Scenario::ThreeBet { hero, villain } => spec_position_name(hero) + " 3-Bet vs "@
                    + spec_position_name(villain),
                Scenario::Vs3Bet { hero, villain } => spec_position_name(hero) + " vs "@
                    + spec_position_name(villain) + " 3-Bet"@,
                Scenario::FourBet { hero, villain } => spec_position_name(hero) + " 4-Bet vs "@
                    + spec_position_name(villain),
                Scenario::Vs4Bet { hero, villain } => spec_position_name(hero) + " vs "@
                    + spec_position_name(villain) + " 4-Bet"@,
                Scenario::Vs5Bet { hero, villain } => spec_position_name(hero) + " vs "@
                    + spec_position_name(villain) + " 5-Bet"@,
            },
    {
        match self {
            Scenario::RFI { position } => {
                let mut out = String::from_str(position.name());
                out.append(" Open (RFI)");
                out
            },
            Scenario::VsRFI { hero, villain } => {
                let mut out = String::from_str(hero.name());
                out.append(" vs ");
                out.append(villain.name());
                out.append(" Open");
                out
            },
            Scenario::ThreeBet { hero, villain } => {
                let mut out = String::from_str(hero.name());
                out.append(" 3-Bet vs ");
                out.append(villain.name());
                out
            },
            Scenario::Vs3Bet { hero, villain } => {
                let mut out = String::from_str(hero.name());
                out.append(" vs ");
                out.append(villain.name());
                out.append(" 3-Bet");
                out
            },
            Scenario::FourBet { hero, villain } => {
                let mut out = String::from_str(hero.name());
                out.append(" 4-Bet vs ");
                out.append(villain.name());
                out
            },
            Scenario::Vs4Bet { hero, villain } => {
                let mut out = String::from_str(hero.name());
                out.append(" vs ");
                out.append(villain.name());
                out.append(" 4-Bet");
                out
            },
            Scenario::Vs5Bet { hero, villain } => {
                let mut out = String::from_str(hero.name());
                out.append(" vs ");
                out.append(villain.name());
                out.append(" 5-Bet");
                out
            },
        }
    }
}

/// A preflop decision in a range chart.
#[derive(Debug, Clone, Copy, PartialEq, Eq, Structural, Hash)]
pub enum ActionType {
    /// Give up the hand.
    Fold,
    /// Call, or limp when nobody has raised.
    Call,
    /// Raise: an open, three-bet, four-bet or five-bet by context.
    Raise,
    /// Put the whole stack in.
    AllIn,
}

impl ActionType {
    /// The action's display name.
    pub fn name(&self) -> (r: &'static str)
        ensures
            match self {
                ActionType::Fold => r@ == "Fold"@,
                ActionType::Call => r@ == "Call"@,
                ActionType::Raise => r@ == "Raise"@,
                ActionType::AllIn => r@ == "All-In"@,
            },
    {
        match self {
            ActionType::Fold => "Fold",
            ActionType::Call => "Call",
            ActionType::Raise => "Raise",
            ActionType::AllIn => "All-In",
        }
    }
}

/// The one-decision state behind a range chart: a scenario, the hand
/// class held, and the decision once it is made.
#[derive(Debug, Clone, Copy, PartialEq, Eq, Structural)]
pub struct PreflopRangeState {
    /// The scenario being solved.
    pub scenario: Scenario,
    /// The hand class held (0-168).
    pub hand_class: u8,
    /// Whether the decision has been made.
    pub decided: bool,
    /// The decision, once made.
    pub action: Option<ActionType>,
}

impl PreflopRangeState {
    /// The state before the decision.
    pub fn new(scenario: Scenario, hand_class: u8) -> (r: PreflopRangeState)
        ensures
            r.scenario == scenario,
            r.hand_class == hand_class,
            !r.decided,
            r.action is None,
    {
        PreflopRangeState { scenario, hand_class, decided: false, action: None }
    }

    /// The state after the decision.
    pub fn with_action(self, action: ActionType) -> (r: PreflopRangeState)
        ensures
            r.scenario == self.scenario,
            r.hand_class == self.hand_class,
            r.decided,
            r.action == Some(action),
    {
        PreflopRangeState { scenario: self.scenario, hand_class: self.hand_class, decided: true, action: Some(action) }
    }
}

} // verus!
