//! Information states for the poker games: the storage key format and
//! a compact packed form.

use vstd::prelude::*;

use crate::abstraction::CardAbstraction;
use crate::card::Street;
use crate::game::InfoState;
use crate::position::HUPosition;
use crate::text::{digit_string, spec_decimal, spec_digit_char, u32_to_string};

verus! {

/// A poker information state: the position, street, abstracted hand
/// bucket and action history a player can see.
#[derive(Debug, Clone, PartialEq, Eq, Hash)]
pub struct PokerInfoState {
    /// The acting player's position index (small blind 0, big blind 1).
    pub position: u8,
    /// The street index (0-4).
    pub street: u8,
    /// The abstracted hand bucket.
    pub bucket: u16,
    /// The action history text.
    pub history: String,
}

/// The storage key of an information state: `P`, the position digit,
/// `S`, the street digit, `B`, the bucket, a bar, then the history.
pub open spec fn spec_info_key(
    position: int,
    street: int,
    bucket: int,
    history: Seq<char>,
) -> Seq<char> {
    seq!['P', spec_digit_char(position), 'S', spec_digit_char(street)] + seq!['B']
        + spec_decimal(bucket) + seq!['|'] + history
}

impl PokerInfoState {
    /// Well-formedness: one of two positions, one of five streets.
    pub open spec fn wf(self) -> bool {
        &&& self.position < 2
        &&& self.street < 5
    }

    /// Create an information state.
    pub fn new(position: HUPosition, street: Street, bucket: u16, history: String) -> (r:
        PokerInfoState)
        ensures
            r.wf(),
            r.position as int == position.spec_index(),
            r.street as int == street.spec_index(),
            r.bucket == bucket,
            r.history@ == history@,
    {
        PokerInfoState {
            position: position.index() as u8,
            street: street.index() as u8,
            bucket,
            history,
        }
    }

    /// The position this state belongs to.
    pub fn position(&self) -> (r: HUPosition)
        ensures
            r == (if self.position == 0 {
                HUPosition::SB
            } else {
                HUPosition::BB
            }),
    {
        HUPosition::from_index(self.position as usize)
    }

    /// The street this state belongs to.
    pub fn street(&self) -> (r: Street)
        ensures
            r == (if self.street == 0 {
                Street::Preflop
            } else if self.street == 1 {
                Street::Flop
            } else if self.street == 2 {
                Street::Turn
            } else if self.street == 3 {
                Street::River
            } else {
                Street::Showdown
            }),
    {
        if self.street == 0 {
            Street::Preflop
        } else if self.street == 1 {
            Street::Flop
        } else if self.street == 2 {
            Street::Turn
        } else if self.street == 3 {
            Street::River
        } else {
            Street::Showdown
        }
    }
}

impl InfoState for PokerInfoState {
    fn key(&self) -> (r: String)
        ensures
            self.wf() ==> r@ == spec_info_key(
                self.position as int,
                self.street as int,
                self.bucket as int,
                self.history@,
            ),
    {
        proof {
            reveal_strlit("P");
            reveal_strlit("S");
            reveal_strlit("B");
            reveal_strlit("|");
        }
        let mut out = String::from_str("P");
        let p = digit_string(
            if self.position < 10 {
                self.position as u32
            } else {
                9
            },
        );
        out.append(p.as_str());
        out.append("S");
        let st = digit_string(
            if self.street < 10 {
                self.street as u32
            } else {
                9
            },
        );
        out.append(st.as_str());
        out.append("B");
        let b = u32_to_string(self.bucket as u32);
        out.append(b.as_str());
        out.append("|");
        out.append(self.history.as_str());
        proof {
            if self.wf() {
                assert(out@ =~= spec_info_key(
                    self.position as int,
                    self.street as int,
                    self.bucket as int,
                    self.history@,
                ));
            }
        }
        out
    }
}

/// A builder that projects game states to information states through a
/// configured card abstraction.
#[derive(Debug, Clone)]
pub struct InfoStateBuilder {
    /// The abstraction used for bucketing.
    pub abstraction: CardAbstraction,
}

impl InfoStateBuilder {
    /// A builder with the default abstraction.
    pub fn new() -> (r: InfoStateBuilder)
        ensures
            r.abstraction.config.wf(),
    {
        InfoStateBuilder { abstraction: CardAbstraction::new() }
    }

    /// A builder with the given abstraction.
    pub fn with_abstraction(abstraction: CardAbstraction) -> (r: InfoStateBuilder)
        ensures
            r.abstraction == abstraction,
    {
        InfoStateBuilder { abstraction }
    }

    /// The abstraction in use.
    pub fn abstraction(&self) -> (r: &CardAbstraction)
        ensures
            r == self.abstraction,
    {
        &self.abstraction
    }

    /// Build the information state for a hand on a board with the
    /// given position, street and history.
    pub fn build(
        &self,
        position: HUPosition,
        street: Street,
        hole_cards: &crate::card::HoleCards,
        board: &crate::card::Board,
        history: String,
    ) -> (r: PokerInfoState)
        requires
            self.abstraction.config.wf(),
            hole_cards.wf(),
            board.wf(),
            board@.len() == 0 || board@.len() == 3 || board@.len() == 4 || board@.len() == 5,
        ensures
            r.wf(),
    {
        let bucket = self.abstraction.get_bucket(hole_cards, board);
        PokerInfoState::new(position, street, bucket, history)
    }
}

/// A fixed-size information state: position, street and bucket packed
/// into sixteen bits, with a hash of the history for uniqueness.
#[derive(Debug, Clone, Copy, PartialEq, Eq, Structural, Hash)]
pub struct CompactInfoState {
    /// Packed data: position in the top bit, street in the next three,
    /// bucket in the low twelve.
    pub packed: u16,
    /// A hash of the history text.
    pub history_hash: u64,
}

/// The packing of position, street and bucket.
pub open spec fn spec_packed(position: int, street: int, bucket: int) -> int {
    position * 0x8000 + (street % 8) * 0x1000 + bucket % 0x1000
}

impl CompactInfoState {
    /// Pack an information state's fields.
    pub fn new(position: HUPosition, street: Street, bucket: u16, history_hash: u64) -> (r:
        CompactInfoState)
        ensures
            r.packed as int == spec_packed(
                position.spec_index(),
                street.spec_index(),
                bucket as int,
            ),
            r.history_hash == history_hash,
    {
        let pos_bits: u16 = (position.index() as u16) * 0x8000;
        let street_bits: u16 = ((street.index() as u16) % 8) * 0x1000;
        let bucket_bits: u16 = bucket % 0x1000;
        CompactInfoState { packed: pos_bits + street_bits + bucket_bits, history_hash }
    }

    /// Pack a full information state, hashing its history.
    pub fn from_info_state(info: &PokerInfoState) -> (r: CompactInfoState)
        requires
            info.wf(),
        ensures
            r.packed as int == spec_packed(
                info.position as int,
                info.street as int,
                info.bucket as int,
            ),
    {
        let hash = fnv_hash(info.history.as_str());
        CompactInfoState::new(info.position(), info.street(), info.bucket, hash)
    }

    /// The packed position.
    pub fn position(&self) -> (r: HUPosition)
        ensures
            r == (if self.packed >= 0x8000 {
                HUPosition::BB
            } else {
                HUPosition::SB
            }),
    {
        if self.packed >= 0x8000 {
            HUPosition::BB
        } else {
            HUPosition::SB
        }
    }

    /// The packed street index.
    pub fn street_index(&self) -> (r: usize)
        ensures
            r as int == (self.packed as int / 0x1000) % 8,
    {
        ((self.packed / 0x1000) % 8) as usize
    }

    /// The packed bucket.
    pub fn bucket(&self) -> (r: u16)
        ensures
            r as int == self.packed as int % 0x1000,
    {
        self.packed % 0x1000
    }
}

/// A deterministic hash of a string: FNV-1a style over its characters.
pub fn fnv_hash(s: &str) -> (r: u64)
    ensures
        true,
{
    let n: usize = s.unicode_len();
    let mut h: u64 = 0xcbf29ce484222325;
    let mut i: usize = 0;
    while i < n
        invariant
            i <= n,
            n == s@.len(),
        decreases n - i,
    {
        let c: char = s.get_char(i);
        h = h.wrapping_mul(0x100000001b3);
        h = h ^ (c as u64);
        i = i + 1;
    }
    h
}

} // verus!
