//! Positions, bet levels and actions for the eight-seat preflop game.

use vstd::prelude::*;

use crate::game::{Action, InfoState};
use crate::text::{digit_string, spec_decimal, spec_digit_char, u32_to_string};

verus! {

/// Position at an eight-seat table, in preflop action order.
#[derive(Debug, Clone, Copy, PartialEq, Eq, Structural, Hash)]
pub enum Position8Max {
    /// Under the gun: first to act before the flop.
    UTG,
    /// Early position.
    EP,
    /// Middle position.
    MP,
    /// The hijack.
    HJ,
    /// The cutoff.
    CO,
    /// The button.
    BU,
    /// The small blind.
    SB,
    /// The big blind: last to act before the flop.
    BB,
}

impl Position8Max {
    /// The position's index in action order, in spec form.
    pub open spec fn spec_index(self) -> int {
        match self {
            Position8Max::UTG => 0,
            Position8Max::EP => 1,
            Position8Max::MP => 2,
            Position8Max::HJ => 3,
            Position8Max::CO => 4,
            Position8Max::BU => 5,
            Position8Max::SB => 6,
            Position8Max::BB => 7,
        }
    }

    /// The position with the given index, if it is below eight.
    pub fn from_index(idx: usize) -> (r: Option<Position8Max>)
        ensures
            match r {
                Some(p) => idx < 8 && p.spec_index() == idx as int,
                None => idx >= 8,
            },
    {
        match idx {
            0 => Some(Position8Max::UTG),
            1 => Some(Position8Max::EP),
            2 => Some(Position8Max::MP),
            3 => Some(Position8Max::HJ),
            4 => Some(Position8Max::CO),
            5 => Some(Position8Max::BU),
            6 => Some(Position8Max::SB),
            7 => Some(Position8Max::BB),
            _ => None,
        }
    }

    /// The position's index in action order.
    pub fn index(&self) -> (r: usize)
        ensures
            r as int == self.spec_index(),
    {
        match self {
            Position8Max::UTG => 0,
            Position8Max::EP => 1,
            Position8Max::MP => 2,
            Position8Max::HJ => 3,
            Position8Max::CO => 4,
            Position8Max::BU => 5,
            Position8Max::SB => 6,
            Position8Max::BB => 7,
        }
    }

    /// The position's display name.
    pub fn name(&self) -> (r: &'static str)
        ensures
            match self {
                Position8Max::UTG => r@ == "UTG"@,
                Position8Max::EP => r@ == "EP"@,
                Position8Max::MP => r@ == "MP"@,
                Position8Max::HJ => r@ == "HJ"@,
                Position8Max::CO => r@ == "CO"@,
                Position8Max::BU => r@ == "BU"@,
                Position8Max::SB => r@ == "SB"@,
                Position8Max::BB => r@ == "BB"@,
            },
    {
        match self {
            Position8Max::UTG => "UTG",
            Position8Max::EP => "EP",
            Position8Max::MP => "MP",
            Position8Max::HJ => "HJ",
            Position8Max::CO => "CO",
            Position8Max::BU => "BU",
            Position8Max::SB => "SB",
            Position8Max::BB => "BB",
        }
    }

    /// Whether this position acts after another one postflop.
    pub fn is_ip_vs(&self, other: &Position8Max) -> (r: bool)
        ensures
            r == (self.spec_index() > other.spec_index()),
    {
        self.index() > other.index()
    }

    /// Whether this is one of the blinds.
    pub fn is_blind(&self) -> (r: bool)
        ensures
            r == (self matches Position8Max::SB || self matches Position8Max::BB),
    {
        match self {
            Position8Max::SB => true,
            Position8Max::BB => true,
            _ => false,
        }
    }

    /// The next position in action order.
    pub fn next(&self) -> (r: Option<Position8Max>)
        ensures
            match r {
                Some(p) => p.spec_index() == self.spec_index() + 1,
                None => self.spec_index() == 7,
            },
    {
        Position8Max::from_index(self.index() + 1)
    }
}

/// How far the preflop betting has escalated.
#[derive(Debug, Clone, Copy, PartialEq, Eq, Structural)]
pub enum BetLevel {
    /// Nobody has entered the pot.
    Unopened,
    /// Facing an opening raise.
    FacingRaise,
    /// Facing a three-bet.
    Facing3Bet,
    /// Facing a four-bet.
    Facing4Bet,
    /// Facing a five-bet.
    Facing5Bet,
    /// All the chips are in.
    AllIn,
}

impl BetLevel {
    /// The level after one more raise.
    pub fn next(&self) -> (r: BetLevel)
        ensures
            r == match self {
                BetLevel::Unopened => BetLevel::FacingRaise,
                BetLevel::FacingRaise => BetLevel::Facing3Bet,
                BetLevel::Facing3Bet => BetLevel::Facing4Bet,
                BetLevel::Facing4Bet => BetLevel::Facing5Bet,
                BetLevel::Facing5Bet => BetLevel::AllIn,
                BetLevel::AllIn => BetLevel::AllIn,
            },
    {
        match self {
            BetLevel::Unopened => BetLevel::FacingRaise,
            BetLevel::FacingRaise => BetLevel::Facing3Bet,
            BetLevel::Facing3Bet => BetLevel::Facing4Bet,
            BetLevel::Facing4Bet => BetLevel::Facing5Bet,
            BetLevel::Facing5Bet => BetLevel::AllIn,
            BetLevel::AllIn => BetLevel::AllIn,
        }
    }

    /// A flat index for counting: the five-bet and all-in levels share
    /// the last slot.
    pub fn flat_index(&self) -> (r: usize)
        ensures
            r == match self {
                BetLevel::Unopened => 0int,
                BetLevel::FacingRaise => 1int,
                BetLevel::Facing3Bet => 2int,
                BetLevel::Facing4Bet => 3int,
                BetLevel::Facing5Bet => 4int,
                BetLevel::AllIn => 4int,
            },
    {
        match self {
            BetLevel::Unopened => 0,
            BetLevel::FacingRaise => 1,
            BetLevel::Facing3Bet => 2,
            BetLevel::Facing4Bet => 3,
            BetLevel::Facing5Bet => 4,
            BetLevel::AllIn => 4,
        }
    }
}

/// A preflop betting action.  Raise amounts are in hundredths of a big
/// blind.
#[derive(Debug, Clone, Copy, PartialEq, Eq, Structural, Hash)]
pub enum PreflopAction {
    /// Fold the hand.
    Fold,
    /// Call the current bet.
    Call,
    /// Raise to the given amount.
    Raise(u32),
    /// Put in all remaining chips.
    AllIn,
}

impl PreflopAction {
    /// The action's short code.
    pub fn short_code(&self) -> (r: String)
        ensures
            r@ == match self {
                PreflopAction::Fold => seq!['F'],
                PreflopAction::Call => seq!['C'],
                PreflopAction::Raise(amt) => seq!['R'] + spec_decimal(*amt as int),
                PreflopAction::AllIn => seq!['A'],
            },
    {
        proof {
            reveal_strlit("F");
            reveal_strlit("C");
            reveal_strlit("A");
            reveal_strlit("R");
        }
        match self {
            PreflopAction::Fold => String::from_str("F"),
            PreflopAction::Call => String::from_str("C"),
            PreflopAction::AllIn => String::from_str("A"),
            PreflopAction::Raise(amt) => {
                let mut out = String::from_str("R");
                let digits = u32_to_string(*amt);
                out.append(digits.as_str());
                proof {
                    assert(out@ =~= seq!['R'] + spec_decimal(*amt as int));
                }
                out
            },
        }
    }

    /// Whether this action raises the stakes.
    pub fn is_aggressive(&self) -> (r: bool)
        ensures
            r == (self matches PreflopAction::Raise(_) || self matches PreflopAction::AllIn),
    {
        match self {
            PreflopAction::Raise(_) => true,
            PreflopAction::AllIn => true,
            _ => false,
        }
    }
}

impl Action for PreflopAction {
    fn to_string(&self) -> String {
        self.short_code()
    }
}

/// What an eight-seat preflop player knows: their seat, hand class and
/// the action history.
#[derive(Debug, Clone, PartialEq, Eq, Hash)]
pub struct PreflopInfoState {
    /// The acting player's position.
    pub position: Position8Max,
    /// The hand class held (0-168).
    pub hand_class: u8,
    /// The action history text.
    pub history: String,
}

/// The storage key of an eight-seat information state: `P`, the seat
/// digit, `H`, the hand class, a colon, then the history.
pub open spec fn spec_preflop_key(position: int, hand_class: int, history: Seq<char>) -> Seq<
    char,
> {
    seq!['P', spec_digit_char(position)] + seq!['H'] + spec_decimal(hand_class) + seq![':']
        + history
}

impl InfoState for PreflopInfoState {
    fn key(&self) -> (r: String)
        ensures
            r@ == spec_preflop_key(
                self.position.spec_index(),
                self.hand_class as int,
                self.history@,
            ),
    {
        proof {
            reveal_strlit("P");
            reveal_strlit("H");
            reveal_strlit(":");
        }
        let mut out = String::from_str("P");
        let d = digit_string(self.position.index() as u32);
        out.append(d.as_str());
        out.append("H");
        let cls = u32_to_string(self.hand_class as u32);
        out.append(cls.as_str());
        out.append(":");
        out.append(self.history.as_str());
        proof {
            assert(out@ =~= spec_preflop_key(
                self.position.spec_index(),
                self.hand_class as int,
                self.history@,
            ));
        }
        out
    }
}

} // verus!
