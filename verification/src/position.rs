//! Seats in a heads-up game.

use vstd::prelude::*;

use crate::card::Street;

verus! {

/// Position in a heads-up poker game.
#[derive(Debug, Clone, Copy, PartialEq, Eq, Structural, Hash)]
pub enum HUPosition {
    /// The small blind: first to act before the flop and after it.
    SB,
    /// The big blind: in position after the flop.
    BB,
}

impl HUPosition {
    /// The other position.
    pub fn opponent(&self) -> (r: HUPosition)
        ensures
            r == match self {
                HUPosition::SB => HUPosition::BB,
                HUPosition::BB => HUPosition::SB,
            },
    {
        match self {
            HUPosition::SB => HUPosition::BB,
            HUPosition::BB => HUPosition::SB,
        }
    }

    /// The position's index: small blind 0, big blind 1.
    pub fn index(&self) -> (r: usize)
        ensures
            r == self.spec_index(),
    {
        match self {
            HUPosition::SB => 0,
            HUPosition::BB => 1,
        }
    }

    /// The position's index, in spec form.
    pub open spec fn spec_index(self) -> int {
        match self {
            HUPosition::SB => 0,
            HUPosition::BB => 1,
        }
    }

    /// The position with the given index: zero is the small blind, any
    /// other index the big blind.
    pub fn from_index(idx: usize) -> (r: HUPosition)
        ensures
            r == (if idx == 0 {
                HUPosition::SB
            } else {
                HUPosition::BB
            }),
    {
        if idx == 0 {
            HUPosition::SB
        } else {
            HUPosition::BB
        }
    }

    /// Whether this position acts last after the flop.
    pub fn is_ip_postflop(&self) -> (r: bool)
        ensures
            r == (self matches HUPosition::BB),
    {
        match self {
            HUPosition::BB => true,
            HUPosition::SB => false,
        }
    }

    /// The position that acts first on the given street: the small
    /// blind on every street of a heads-up hand.
    pub fn first_to_act(street: Street) -> (r: HUPosition)
        ensures
            r == HUPosition::SB,
    {
        match street {
            Street::Preflop => HUPosition::SB,
            _ => HUPosition::SB,
        }
    }
}

} // verus!
