//! Playing cards, hole cards, boards and decks.
//!
//! A card is identified by an index `0..52`, composed as
//! `rank * 4 + suit` with ranks `0..13` (deuce to ace) and suits `0..4`.

use vstd::prelude::*;

verus! {

/// Rank constants (0-12: deuce to ace).
pub const RANK_2: u8 = 0;

pub const RANK_3: u8 = 1;

pub const RANK_4: u8 = 2;

pub const RANK_5: u8 = 3;

pub const RANK_6: u8 = 4;

pub const RANK_7: u8 = 5;

pub const RANK_8: u8 = 6;

pub const RANK_9: u8 = 7;

pub const RANK_T: u8 = 8;

pub const RANK_J: u8 = 9;

pub const RANK_Q: u8 = 10;

pub const RANK_K: u8 = 11;

pub const RANK_A: u8 = 12;

/// Suit constants (0-3).
pub const SUIT_CLUBS: u8 = 0;

pub const SUIT_DIAMONDS: u8 = 1;

pub const SUIT_HEARTS: u8 = 2;

pub const SUIT_SPADES: u8 = 3;

/// The display character of a rank.
pub open spec fn spec_rank_char(r: int) -> char {
    if r == 0 {
        '2'
    } else if r == 1 {
        '3'
    } else if r == 2 {
        '4'
    } else if r == 3 {
        '5'
    } else if r == 4 {
        '6'
    } else if r == 5 {
        '7'
    } else if r == 6 {
        '8'
    } else if r == 7 {
        '9'
    } else if r == 8 {
        'T'
    } else if r == 9 {
        'J'
    } else if r == 10 {
        'Q'
    } else if r == 11 {
        'K'
    } else {
        'A'
    }
}

/// The display character of a suit.
pub open spec fn spec_suit_char(s: int) -> char {
    if s == 0 {
        'c'
    } else if s == 1 {
        'd'
    } else if s == 2 {
        'h'
    } else {
        's'
    }
}

/// A single playing card.
#[derive(Clone, Copy, PartialEq, Eq, Structural, Hash, Debug)]
pub struct Card {
    /// Card index 0-51: `rank * 4 + suit`.
    pub id: u8,
}

impl Card {
    /// The card's index (0-51).
    pub open spec fn spec_id(self) -> int {
        self.id as int
    }

    /// Well-formedness: the index designates one of the 52 cards.
    pub open spec fn wf(self) -> bool {
        self.id < 52
    }

    /// The card's rank, in spec form.
    pub open spec fn spec_rank(self) -> int {
        self.id as int / 4
    }

    /// The card's suit, in spec form.
    pub open spec fn spec_suit(self) -> int {
        self.id as int % 4
    }

    /// Create a new card from rank (0-12) and suit (0-3).
    pub fn new(rank: u8, suit: u8) -> (c: Card)
        requires
            rank < 13,
            suit < 4,
        ensures
            c.wf(),
            c.spec_rank() == rank as int,
            c.spec_suit() == suit as int,
            c.spec_id() == rank as int * 4 + suit as int,
    {
        Card { id: rank * 4 + suit }
    }

    /// Create a card from its index (0-51).
    pub fn from_id(id: u8) -> (c: Card)
        requires
            id < 52,
        ensures
            c.wf(),
            c.spec_id() == id as int,
    {
        Card { id }
    }

    /// Parse a card from a two-character string such as `"As"` or `"2c"`.
    /// Returns `None` exactly when the text is not a rank character
    /// followed by a suit character.
    pub fn from_str(s: &str) -> (r: Option<Card>)
        ensures
            match r {
                Some(c) => {
                    &&& c.wf()
                    &&& s@.len() == 2
                    &&& spec_rank_char(c.spec_rank()) == upper_of(s@[0])
                    &&& spec_suit_char(c.spec_suit()) == lower_of(s@[1])
                },
                None => !(exists|rk: int, st: int|
                    0 <= rk < 13 && 0 <= st < 4 && s@.len() == 2 && spec_rank_char(rk)
                        == upper_of(s@[0]) && spec_suit_char(st) == lower_of(s@[1])),
            },
    {
        let n: usize = s.unicode_len();
        if n != 2 {
            assert(s@.len() != 2);
            return None;
        }
        let c0: char = s.get_char(0);
        let c1: char = s.get_char(1);
        let rank: u8 = match rank_from_char(c0) {
            Some(r) => r,
            None => {
                return None;
            },
        };
        let suit: u8 = match suit_from_char(c1) {
            Some(r) => r,
            None => {
                return None;
            },
        };
        Some(Card::new(rank, suit))
    }

    /// The card's index (0-51).
    pub fn id(&self) -> (r: u8)
        ensures
            r as int == self.spec_id(),
    {
        self.id
    }

    /// The card's rank (0-12).
    pub fn rank(&self) -> (r: u8)
        ensures
            r as int == self.spec_rank(),
    {
        self.id / 4
    }

    /// The card's suit (0-3).
    pub fn suit(&self) -> (r: u8)
        ensures
            r as int == self.spec_suit(),
    {
        self.id % 4
    }

    /// Rank character for display.
    pub fn rank_char(&self) -> (r: char)
        requires
            self.wf(),
        ensures
            r == spec_rank_char(self.spec_rank()),
    {
        rank_char_of(self.rank())
    }

    /// Suit character for display.
    pub fn suit_char(&self) -> (r: char)
        requires
            self.wf(),
        ensures
            r == spec_suit_char(self.spec_suit()),
    {
        suit_char_of(self.suit())
    }

    /// Two-character notation, rank then suit.
    pub fn to_string(&self) -> (r: String)
        requires
            self.wf(),
        ensures
            r@ == seq![spec_rank_char(self.spec_rank()), spec_suit_char(self.spec_suit())],
    {
        let mut out = char_to_string(self.rank_char());
        let s = char_to_string(self.suit_char());
        out.append(s.as_str());
        proof {
            assert(out@ =~= seq![
                spec_rank_char(self.spec_rank()),
                spec_suit_char(self.spec_suit()),
            ]);
        }
        out
    }
}

/// Uppercase of the characters used in card notation; other characters
/// are left alone.
pub open spec fn upper_of(c: char) -> char {
    if c == 'a' {
        'A'
    } else if c == 'k' {
        'K'
    } else if c == 'q' {
        'Q'
    } else if c == 'j' {
        'J'
    } else if c == 't' {
        'T'
    } else {
        c
    }
}

/// Lowercase of the characters used in suit notation.
pub open spec fn lower_of(c: char) -> char {
    if c == 'C' {
        'c'
    } else if c == 'D' {
        'd'
    } else if c == 'H' {
        'h'
    } else if c == 'S' {
        's'
    } else {
        c
    }
}

/// Parse a rank character (case-insensitive), 0-12.
pub fn rank_from_char(c: char) -> (r: Option<u8>)
    ensures
        match r {
            Some(v) => v < 13 && spec_rank_char(v as int) == upper_of(c),
            None => !(exists|rk: int| 0 <= rk < 13 && spec_rank_char(rk) == upper_of(c)),
        },
{
    if c == '2' {
        Some(0)
    } else if c == '3' {
        Some(1)
    } else if c == '4' {
        Some(2)
    } else if c == '5' {
        Some(3)
    } else if c == '6' {
        Some(4)
    } else if c == '7' {
        Some(5)
    } else if c == '8' {
        Some(6)
    } else if c == '9' {
        Some(7)
    } else if c == 'T' || c == 't' {
        Some(8)
    } else if c == 'J' || c == 'j' {
        Some(9)
    } else if c == 'Q' || c == 'q' {
        Some(10)
    } else if c == 'K' || c == 'k' {
        Some(11)
    } else if c == 'A' || c == 'a' {
        Some(12)
    } else {
        assert(forall|rk: int| 0 <= rk < 13 ==> spec_rank_char(rk) != upper_of(c)) by {
            assert(upper_of(c) != '2' && upper_of(c) != '3' && upper_of(c) != '4' && upper_of(c)
                != '5' && upper_of(c) != '6' && upper_of(c) != '7' && upper_of(c) != '8'
                && upper_of(c) != '9' && upper_of(c) != 'T' && upper_of(c) != 'J' && upper_of(c)
                != 'Q' && upper_of(c) != 'K' && upper_of(c) != 'A');
        }
        None
    }
}

/// Parse a suit character (case-insensitive), 0-3.
pub fn suit_from_char(c: char) -> (r: Option<u8>)
    ensures
        match r {
            Some(v) => v < 4 && spec_suit_char(v as int) == lower_of(c),
            None => !(exists|st: int| 0 <= st < 4 && spec_suit_char(st) == lower_of(c)),
        },
{
    if c == 'c' || c == 'C' {
        Some(0)
    } else if c == 'd' || c == 'D' {
        Some(1)
    } else if c == 'h' || c == 'H' {
        Some(2)
    } else if c == 's' || c == 'S' {
        Some(3)
    } else {
        None
    }
}

/// Display character of a rank value.
pub fn rank_char_of(r: u8) -> (c: char)
    requires
        r < 13,
    ensures
        c == spec_rank_char(r as int),
{
    if r == 0 {
        '2'
    } else if r == 1 {
        '3'
    } else if r == 2 {
        '4'
    } else if r == 3 {
        '5'
    } else if r == 4 {
        '6'
    } else if r == 5 {
        '7'
    } else if r == 6 {
        '8'
    } else if r == 7 {
        '9'
    } else if r == 8 {
        'T'
    } else if r == 9 {
        'J'
    } else if r == 10 {
        'Q'
    } else if r == 11 {
        'K'
    } else {
        'A'
    }
}

/// Display character of a suit value.
pub fn suit_char_of(s: u8) -> (c: char)
    requires
        s < 4,
    ensures
        c == spec_suit_char(s as int),
{
    if s == 0 {
        'c'
    } else if s == 1 {
        'd'
    } else if s == 2 {
        'h'
    } else {
        's'
    }
}

/// A one-character string holding the given card-notation character.
/// Covers exactly the characters that rank and suit display can produce.
pub fn char_to_string(c: char) -> (r: String)
    requires
        c == '2' || c == '3' || c == '4' || c == '5' || c == '6' || c == '7' || c == '8' || c == '9'
            || c == 'T' || c == 'J' || c == 'Q' || c == 'K' || c == 'A' || c == 'c' || c == 'd'
            || c == 'h' || c == 's' || c == 'o',
    ensures
        r@ == seq![c],
{
    let s: &str = if c == '2' {
        "2"
    } else if c == '3' {
        "3"
    } else if c == '4' {
        "4"
    } else if c == '5' {
        "5"
    } else if c == '6' {
        "6"
    } else if c == '7' {
        "7"
    } else if c == '8' {
        "8"
    } else if c == '9' {
        "9"
    } else if c == 'T' {
        "T"
    } else if c == 'J' {
        "J"
    } else if c == 'Q' {
        "Q"
    } else if c == 'K' {
        "K"
    } else if c == 'A' {
        "A"
    } else if c == 'c' {
        "c"
    } else if c == 'd' {
        "d"
    } else if c == 'h' {
        "h"
    } else if c == 's' {
        "s"
    } else {
        "o"
    };
    proof {
        reveal_strlit("2");
        reveal_strlit("3");
        reveal_strlit("4");
        reveal_strlit("5");
        reveal_strlit("6");
        reveal_strlit("7");
        reveal_strlit("8");
        reveal_strlit("9");
        reveal_strlit("T");
        reveal_strlit("J");
        reveal_strlit("Q");
        reveal_strlit("K");
        reveal_strlit("A");
        reveal_strlit("c");
        reveal_strlit("d");
        reveal_strlit("h");
        reveal_strlit("s");
        reveal_strlit("o");
        assert(s@ =~= seq![c]);
    }
    String::from_str(s)
}

/// Whether some card parses out of the character pair at `2 * j`.
pub open spec fn spec_pair_parses(cs: Seq<char>, j: int) -> bool {
    exists|c: Card| #[trigger] spec_parses_card(cs[2 * j], cs[2 * j + 1], c)
}

/// Whether two characters parse to the given card.
pub open spec fn spec_parses_card(c0: char, c1: char, c: Card) -> bool {
    &&& c.wf()
    &&& spec_rank_char(c.spec_rank()) == upper_of(c0)
    &&& spec_suit_char(c.spec_suit()) == lower_of(c1)
}

/// The characters of a string with the spaces removed.
pub open spec fn spec_no_spaces(s: Seq<char>) -> Seq<char> {
    s.filter(|c: char| c != ' ')
}

/// Collect the characters of a string, dropping spaces.
fn chars_no_spaces(s: &str) -> (v: Vec<char>)
    ensures
        v@ == spec_no_spaces(s@),
{
    let ghost pred = |c: char| c != ' ';
    let n: usize = s.unicode_len();
    let mut v: Vec<char> = Vec::new();
    let mut i: usize = 0;
    proof {
        assert(s@.subrange(0, 0) =~= Seq::<char>::empty());
        reveal(Seq::filter);
    }
    while i < n
        invariant
            i <= n,
            n == s@.len(),
            forall|x: char| #[trigger] pred(x) == (x != ' '),
            v@ == s@.subrange(0, i as int).filter(pred),
        decreases n - i,
    {
        let c: char = s.get_char(i);
        proof {
            assert(s@.subrange(0, i + 1).drop_last() =~= s@.subrange(0, i as int));
            assert(s@.subrange(0, i + 1).last() == s@[i as int]);
            reveal(Seq::filter);
            if pred(s@[i as int]) {
                assert(s@.subrange(0, i + 1).filter(pred) =~= s@.subrange(0, i as int).filter(
                    pred,
                ).push(s@[i as int]));
            } else {
                assert(s@.subrange(0, i + 1).filter(pred) =~= s@.subrange(0, i as int).filter(
                    pred,
                ));
            }
        }
        if c != ' ' {
            v.push(c);
            proof {
                assert(c == s@[i as int]);
                assert(pred(s@[i as int]));
                assert(v@ == s@.subrange(0, i + 1).filter(pred));
            }
        } else {
            proof {
                assert(!pred(s@[i as int]));
                assert(v@ == s@.subrange(0, i + 1).filter(pred));
            }
        }
        i = i + 1;
    }
    proof {
        assert(s@.subrange(0, n as int) =~= s@);
    }
    v
}

/// Parse a card out of two characters.
fn card_from_chars(c0: char, c1: char) -> (r: Option<Card>)
    ensures
        match r {
            Some(c) => spec_parses_card(c0, c1, c),
            None => !(exists|c: Card| spec_parses_card(c0, c1, c)),
        },
{
    let rank: u8 = match rank_from_char(c0) {
        Some(r) => r,
        None => {
            proof {
                assert forall|c: Card| !spec_parses_card(c0, c1, c) by {
                    if c.wf() {
                        assert(0 <= c.spec_rank() < 13);
                    }
                }
            }
            return None;
        },
    };
    let suit: u8 = match suit_from_char(c1) {
        Some(r) => r,
        None => {
            proof {
                assert forall|c: Card| !spec_parses_card(c0, c1, c) by {
                    if c.wf() {
                        assert(0 <= c.spec_suit() < 4);
                    }
                }
            }
            return None;
        },
    };
    Some(Card::new(rank, suit))
}

/// A player's two hole cards, the higher rank held first.
#[derive(Clone, Copy, PartialEq, Eq, Structural, Hash, Debug)]
pub struct HoleCards {
    /// First card (higher or equal rank by construction).
    pub card1: Card,
    /// Second card.
    pub card2: Card,
}

impl HoleCards {
    /// Well-formedness: both cards are real and ordered by rank.
    pub open spec fn wf(self) -> bool {
        &&& self.card1.wf()
        &&& self.card2.wf()
        &&& self.card1.spec_rank() >= self.card2.spec_rank()
    }

    /// The ordered pair a constructor builds from two cards.
    pub open spec fn spec_new(a: Card, b: Card) -> HoleCards {
        if a.spec_rank() >= b.spec_rank() {
            HoleCards { card1: a, card2: b }
        } else {
            HoleCards { card1: b, card2: a }
        }
    }

    /// Create hole cards, ordering by rank (higher first).
    pub fn new(card1: Card, card2: Card) -> (h: HoleCards)
        requires
            card1.wf(),
            card2.wf(),
        ensures
            h == HoleCards::spec_new(card1, card2),
            h.wf(),
    {
        if card1.rank() >= card2.rank() {
            HoleCards { card1, card2 }
        } else {
            HoleCards { card1: card2, card2: card1 }
        }
    }

    /// Parse hole cards from text such as `"AhKs"` or `"Ah Ks"`.
    /// Spaces are ignored; exactly four card characters must remain.
    pub fn from_str(s: &str) -> (r: Option<HoleCards>)
        ensures
            match r {
                Some(h) => {
                    &&& h.wf()
                    &&& spec_no_spaces(s@).len() == 4
                    &&& exists|a: Card, b: Card|
                        spec_parses_card(spec_no_spaces(s@)[0], spec_no_spaces(s@)[1], a)
                            && spec_parses_card(spec_no_spaces(s@)[2], spec_no_spaces(s@)[3], b)
                            && h == HoleCards::spec_new(a, b)
                },
                None => spec_no_spaces(s@).len() != 4 || !(exists|a: Card, b: Card|
                    spec_parses_card(spec_no_spaces(s@)[0], spec_no_spaces(s@)[1], a)
                        && spec_parses_card(spec_no_spaces(s@)[2], spec_no_spaces(s@)[3], b)),
            },
    {
        let cs = chars_no_spaces(s);
        if cs.len() != 4 {
            return None;
        }
        let a: Card = match card_from_chars(cs[0], cs[1]) {
            Some(c) => c,
            None => {
                return None;
            },
        };
        let b: Card = match card_from_chars(cs[2], cs[3]) {
            Some(c) => c,
            None => {
                return None;
            },
        };
        Some(HoleCards::new(a, b))
    }

    /// Check if the hole cards share a suit.
    pub fn is_suited(&self) -> (r: bool)
        ensures
            r == (self.card1.spec_suit() == self.card2.spec_suit()),
    {
        self.card1.suit() == self.card2.suit()
    }

    /// Check if the hole cards are a pair.
    pub fn is_pair(&self) -> (r: bool)
        ensures
            r == (self.card1.spec_rank() == self.card2.spec_rank()),
    {
        self.card1.rank() == self.card2.rank()
    }

    /// The index of this hand's class among the 169 strategic classes:
    /// pairs are `0..13`, suited hands `13..91`, offsuit hands `91..169`.
    pub fn hand_class_index(&self) -> (r: u8)
        requires
            self.wf(),
        ensures
            r as int == spec_hand_class_index(
                self.card1.spec_rank(),
                self.card2.spec_rank(),
                self.card1.spec_suit() == self.card2.spec_suit(),
            ),
            r < 169,
    {
        let r1: u8 = self.card1.rank();
        let r2: u8 = self.card2.rank();
        if r1 == r2 {
            r1
        } else if self.is_suited() {
            13 + triangular_index(r1, r2)
        } else {
            91 + triangular_index(r1, r2)
        }
    }

    /// Both cards as an array.
    pub fn cards(&self) -> (r: [Card; 2])
        ensures
            r[0] == self.card1,
            r[1] == self.card2,
    {
        [self.card1, self.card2]
    }

    /// Check if a card is one of these hole cards.
    pub fn contains(&self, card: Card) -> (r: bool)
        ensures
            r == (self.card1.spec_id() == card.spec_id() || self.card2.spec_id()
                == card.spec_id()),
    {
        self.card1.id() == card.id() || self.card2.id() == card.id()
    }

    /// Four-character notation of the two cards.
    pub fn to_string(&self) -> (r: String)
        requires
            self.wf(),
        ensures
            r@ == seq![
                spec_rank_char(self.card1.spec_rank()),
                spec_suit_char(self.card1.spec_suit()),
                spec_rank_char(self.card2.spec_rank()),
                spec_suit_char(self.card2.spec_suit()),
            ],
    {
        let mut out = self.card1.to_string();
        let second = self.card2.to_string();
        out.append(second.as_str());
        proof {
            assert(out@ =~= seq![
                spec_rank_char(self.card1.spec_rank()),
                spec_suit_char(self.card1.spec_suit()),
                spec_rank_char(self.card2.spec_rank()),
                spec_suit_char(self.card2.spec_suit()),
            ]);
        }
        out
    }
}

/// Index of an unordered rank pair `r1 > r2` in the lower triangle,
/// row by row: `(r1, r2)` comes out as `r1 * (r1 - 1) / 2 + r2`.
pub open spec fn spec_triangular(r1: int, r2: int) -> int {
    r1 * (r1 - 1) / 2 + r2
}

/// The class index of a hand given its ranks and suitedness.
pub open spec fn spec_hand_class_index(r1: int, r2: int, suited: bool) -> int {
    if r1 == r2 {
        r1
    } else if suited {
        13 + spec_triangular(r1, r2)
    } else {
        91 + spec_triangular(r1, r2)
    }
}

/// Triangular index of two ranks with `r1 > r2`, both below 13.
pub fn triangular_index(r1: u8, r2: u8) -> (r: u8)
    requires
        r2 < r1,
        r1 < 13,
    ensures
        r as int == spec_triangular(r1 as int, r2 as int),
        r < 78,
{
    proof {
        assert((r1 as int * (r1 as int - 1) / 2 + r2 as int) < 78) by (nonlinear_arith)
            requires
                r2 < r1,
                r1 < 13;
        assert(r1 as int * (r1 as int - 1) / 2 >= 0) by (nonlinear_arith)
            requires
                r1 >= 1;
        assert((r1 * (r1 - 1) / 2) as int == r1 as int * (r1 as int - 1) / 2) by (nonlinear_arith)
            requires
                1 <= r1 < 13;
    }
    r1 * (r1 - 1) / 2 + r2
}

/// Street in a poker hand.
#[derive(Debug, Clone, Copy, PartialEq, Eq, Structural, Hash)]
pub enum Street {
    Preflop,
    Flop,
    Turn,
    River,
    Showdown,
}

impl Street {
    /// The next street, or `None` after showdown.
    pub fn next(&self) -> (r: Option<Street>)
        ensures
            r == match self {
                Street::Preflop => Some(Street::Flop),
                Street::Flop => Some(Street::Turn),
                Street::Turn => Some(Street::River),
                Street::River => Some(Street::Showdown),
                Street::Showdown => None::<Street>,
            },
    {
        match self {
            Street::Preflop => Some(Street::Flop),
            Street::Flop => Some(Street::Turn),
            Street::Turn => Some(Street::River),
            Street::River => Some(Street::Showdown),
            Street::Showdown => None,
        }
    }

    /// Street index (0-4).
    pub fn index(&self) -> (r: usize)
        ensures
            r == self.spec_index(),
    {
        match self {
            Street::Preflop => 0,
            Street::Flop => 1,
            Street::Turn => 2,
            Street::River => 3,
            Street::Showdown => 4,
        }
    }

    /// Street index, in spec form.
    pub open spec fn spec_index(self) -> int {
        match self {
            Street::Preflop => 0,
            Street::Flop => 1,
            Street::Turn => 2,
            Street::River => 3,
            Street::Showdown => 4,
        }
    }

    /// Number of board cards dealt by this street.
    pub fn num_board_cards(&self) -> (r: usize)
        ensures
            r == match self {
                Street::Preflop => 0int,
                Street::Flop => 3int,
                Street::Turn => 4int,
                Street::River => 5int,
                Street::Showdown => 5int,
            },
    {
        match self {
            Street::Preflop => 0,
            Street::Flop => 3,
            Street::Turn => 4,
            Street::River => 5,
            Street::Showdown => 5,
        }
    }
}

/// Community cards on the board.
#[derive(Debug, Clone, PartialEq, Eq, Hash)]
pub struct Board {
    /// The community cards, in deal order.
    pub cards: Vec<Card>,
}

impl Board {
    /// The cards on the board, as a sequence.
    pub open spec fn view(self) -> Seq<Card> {
        self.cards@
    }

    /// Well-formedness: at most five real cards.
    pub open spec fn wf(self) -> bool {
        &&& self@.len() <= 5
        &&& forall|i: int| 0 <= i < self@.len() ==> (#[trigger] self@[i]).wf()
    }

    /// Create an empty board.
    pub fn new() -> (b: Board)
        ensures
            b@ =~= Seq::<Card>::empty(),
            b.wf(),
    {
        Board { cards: Vec::new() }
    }

    /// Create a board from up to five cards.
    pub fn from_cards(cards: Vec<Card>) -> (b: Board)
        requires
            cards@.len() <= 5,
            forall|i: int| 0 <= i < cards@.len() ==> (#[trigger] cards@[i]).wf(),
        ensures
            b@ == cards@,
            b.wf(),
    {
        Board { cards }
    }

    /// Parse a board from text such as `"AhKsQd"`; spaces are ignored.
    /// An empty text gives the empty board; otherwise the card
    /// characters must form one to five complete cards.
    pub fn from_str(s: &str) -> (r: Option<Board>)
        ensures
            match r {
                Some(b) => {
                    &&& b.wf()
                    &&& b@.len() * 2 == spec_no_spaces(s@).len()
                    &&& forall|j: int|
                        0 <= j < b@.len() ==> spec_parses_card(
                            spec_no_spaces(s@)[2 * j],
                            spec_no_spaces(s@)[2 * j + 1],
                            #[trigger] b@[j],
                        )
                },
                None => spec_no_spaces(s@).len() % 2 != 0 || spec_no_spaces(s@).len() > 10 || (
                exists|j: int|
                    0 <= j && 2 * j + 1 < spec_no_spaces(s@).len() && !(#[trigger] spec_pair_parses(
                        spec_no_spaces(s@),
                        j,
                    ))),
            },
    {
        let cs = chars_no_spaces(s);
        let n: usize = cs.len();
        if n % 2 != 0 || n > 10 {
            return None;
        }
        let mut cards: Vec<Card> = Vec::new();
        let mut i: usize = 0;
        while i < n / 2
            invariant
                n == cs@.len(),
                n % 2 == 0,
                n <= 10,
                i <= n / 2,
                cards@.len() == i,
                cs@ == spec_no_spaces(s@),
                forall|j: int| 0 <= j < i ==> (#[trigger] cards@[j]).wf(),
                forall|j: int|
                    0 <= j < i ==> spec_parses_card(cs@[2 * j], cs@[2 * j + 1], #[trigger] cards@[j]),
            decreases n / 2 - i,
        {
            let c: Card = match card_from_chars(cs[2 * i], cs[2 * i + 1]) {
                Some(c) => c,
                None => {
                    proof {
                        if spec_pair_parses(spec_no_spaces(s@), i as int) {
                            let w = choose|w: Card|
                                #[trigger] spec_parses_card(
                                    spec_no_spaces(s@)[2 * (i as int)],
                                    spec_no_spaces(s@)[2 * (i as int) + 1],
                                    w,
                                );
                            assert(spec_parses_card(cs@[2 * (i as int)], cs@[2 * (i as int) + 1], w));
                        }
                        assert(!spec_pair_parses(spec_no_spaces(s@), i as int));
                        assert(0 <= i as int && 2 * (i as int) + 1 < spec_no_spaces(s@).len());
                    }
                    return None;
                },
            };
            cards.push(c);
            i = i + 1;
        }
        proof {
            assert(cards@.len() == n / 2);
            assert(cards@.len() * 2 == n);
        }
        Some(Board::from_cards(cards))
    }

    /// Number of cards on the board.
    pub fn len(&self) -> (r: usize)
        ensures
            r == self@.len(),
    {
        self.cards.len()
    }

    /// Whether the board is empty.
    pub fn is_empty(&self) -> (r: bool)
        ensures
            r == (self@.len() == 0),
    {
        self.cards.len() == 0
    }

    /// The cards on the board.
    pub fn cards(&self) -> (r: &[Card])
        ensures
            r@ == self@,
    {
        self.cards.as_slice()
    }

    /// Add a card to the board.
    pub fn add(&mut self, card: Card)
        requires
            old(self)@.len() < 5,
            card.wf(),
        ensures
            final(self)@ == old(self)@.push(card),
    {
        self.cards.push(card);
    }

    /// Whether the board holds the given card.
    pub fn contains(&self, card: Card) -> (r: bool)
        ensures
            r == (exists|i: int|
                0 <= i < self@.len() && (#[trigger] self@[i]).spec_id() == card.spec_id()),
    {
        let n: usize = self.cards.len();
        let mut i: usize = 0;
        while i < n
            invariant
                i <= n,
                n == self@.len(),
                forall|j: int| 0 <= j < i ==> (#[trigger] self@[j]).spec_id() != card.spec_id(),
            decreases n - i,
        {
            if self.cards[i].id() == card.id() {
                return true;
            }
            i = i + 1;
        }
        false
    }

    /// The street that this many board cards stands for.  A board holds
    /// zero, three, four or five cards; other sizes have no street.
    pub fn street(&self) -> (r: Street)
        requires
            self@.len() == 0 || self@.len() == 3 || self@.len() == 4 || self@.len() == 5,
        ensures
            r == (if self@.len() == 0 {
                Street::Preflop
            } else if self@.len() == 3 {
                Street::Flop
            } else if self@.len() == 4 {
                Street::Turn
            } else {
                Street::River
            }),
    {
        let n: usize = self.cards.len();
        if n == 0 {
            Street::Preflop
        } else if n == 3 {
            Street::Flop
        } else if n == 4 {
            Street::Turn
        } else {
            Street::River
        }
    }
}

/// The 52-card deck in standard order.
pub open spec fn spec_full_deck() -> Seq<Card> {
    Seq::new(52, |i: int| Card { id: i as u8 })
}

/// Whether a sequence of cards holds one with the given index.
pub open spec fn spec_has_card(s: Seq<Card>, c: Card) -> bool {
    exists|i: int| 0 <= i < s.len() && (#[trigger] s[i]).spec_id() == c.spec_id()
}

/// Check whether a slice of cards holds the given card.
fn slice_has_card(cards: &[Card], c: Card) -> (r: bool)
    ensures
        r == spec_has_card(cards@, c),
{
    let n: usize = cards.len();
    let mut i: usize = 0;
    while i < n
        invariant
            i <= n,
            n == cards@.len(),
            forall|j: int| 0 <= j < i ==> (#[trigger] cards@[j]).spec_id() != c.spec_id(),
        decreases n - i,
    {
        if cards[i].id() == c.id() {
            return true;
        }
        i = i + 1;
    }
    false
}

/// A deck of cards to deal from.  It holds the usable cards in order;
/// `index` marks how many have been dealt, and `dealt_mask` records the
/// dealt (or dead) cards by bit.
#[derive(Debug, Clone)]
pub struct Deck {
    /// The usable cards, dealt ones first.
    pub cards: Vec<Card>,
    /// How many cards have been dealt.
    pub index: usize,
    /// Bitmask of dealt and dead cards.
    pub dealt_mask: u64,
}

impl Deck {
    /// The cards the deck still holds beyond those dealt.
    pub open spec fn spec_cards(self) -> Seq<Card> {
        self.cards@
    }

    /// How many cards have been dealt.
    pub open spec fn spec_index(self) -> int {
        self.index as int
    }

    /// The bitmask of dealt and dead cards.
    pub open spec fn spec_mask(self) -> u64 {
        self.dealt_mask
    }

    /// Well-formedness of the deck.
    pub open spec fn wf(self) -> bool {
        &&& self.index <= self.cards@.len()
        &&& self.cards@.len() <= 52
        &&& forall|i: int| 0 <= i < self.cards@.len() ==> (#[trigger] self.cards@[i]).wf()
    }

    /// A fresh 52-card deck in standard order.
    pub fn new() -> (d: Deck)
        ensures
            d.wf(),
            d.spec_cards() == spec_full_deck(),
            d.spec_index() == 0,
            d.spec_mask() == 0u64,
    {
        let mut cards: Vec<Card> = Vec::new();
        let mut i: usize = 0;
        while i < 52
            invariant
                i <= 52,
                cards@.len() == i,
                forall|j: int| 0 <= j < i ==> (#[trigger] cards@[j]) == (Card { id: j as u8 }),
            decreases 52 - i,
        {
            cards.push(Card::from_id(i as u8));
            i = i + 1;
        }
        proof {
            assert(cards@ =~= spec_full_deck());
        }
        Deck { cards, index: 0, dealt_mask: 0 }
    }

    /// A deck with the given dead cards removed: it holds, in standard
    /// order, exactly the cards that are not dead, and the dead cards
    /// are marked dealt.
    pub fn without(dead_cards: &[Card]) -> (d: Deck)
        requires
            forall|i: int| 0 <= i < dead_cards@.len() ==> (#[trigger] dead_cards@[i]).wf(),
        ensures
            d.wf(),
            d.spec_index() == 0,
            d.spec_cards() == spec_full_deck().filter(
                |c: Card| !spec_has_card(dead_cards@, c),
            ),
            forall|c: Card|
                c.wf() ==> ((d.spec_mask() & (1u64 << (c.spec_id() as u64)) as u64 != 0)
                    == spec_has_card(dead_cards@, c)),
    {
        let ghost pred = |c: Card| !spec_has_card(dead_cards@, c);
        let mut cards: Vec<Card> = Vec::new();
        let mut mask: u64 = 0;
        let mut i: usize = 0;
        proof {
            reveal(Seq::filter);
            assert(spec_full_deck().subrange(0, 0) =~= Seq::<Card>::empty());
            assert forall|x: u64| x < 52 implies (0u64 & (1u64 << x)) == 0u64 by {
                assert(0u64 & (1u64 << x) == 0u64) by (bit_vector);
            }
        }
        while i < 52
            invariant
                i <= 52,
                forall|c: Card| #[trigger] pred(c) == !spec_has_card(dead_cards@, c),
                cards@ == spec_full_deck().subrange(0, i as int).filter(pred),
                cards@.len() <= i,
                forall|k: int| 0 <= k < cards@.len() ==> (#[trigger] cards@[k]).wf(),
                forall|j: int| 0 <= j < dead_cards@.len() ==> (#[trigger] dead_cards@[j]).wf(),
                forall|c: Card|
                    c.wf() ==> ((mask & (1u64 << (c.spec_id() as u64)) as u64 != 0) == (
                    spec_has_card(dead_cards@, c) && c.spec_id() < i)),
            decreases 52 - i,
        {
            let c: Card = Card::from_id(i as u8);
            proof {
                assert(spec_full_deck()[i as int] == c);
                assert(spec_full_deck().subrange(0, i + 1).drop_last() =~= spec_full_deck()
                    .subrange(0, i as int));
                assert(spec_full_deck().subrange(0, i + 1).last() == c);
                reveal(Seq::filter);
                if pred(c) {
                    assert(spec_full_deck().subrange(0, i + 1).filter(pred)
                        =~= spec_full_deck().subrange(0, i as int).filter(pred).push(c));
                } else {
                    assert(spec_full_deck().subrange(0, i + 1).filter(pred)
                        =~= spec_full_deck().subrange(0, i as int).filter(pred));
                }
            }
            if slice_has_card(dead_cards, c) {
                let ghost old_mask = mask;
                mask = mask | (1u64 << (c.id() as u64));
                proof {
                    assert forall|x: Card| x.wf() implies ((mask & (1u64 << (x.spec_id()
                        as u64)) as u64 != 0) == (spec_has_card(dead_cards@, x) && x.spec_id() < i
                        + 1)) by {
                        let xb = x.spec_id() as u64;
                        let cb = i as u64;
                        assert(xb < 52 && cb < 52);
                        if xb == cb {
                            assert(x.spec_id() == c.spec_id());
                            assert((old_mask | (1u64 << cb)) & (1u64 << xb) != 0) by (bit_vector)
                                requires
                                    xb == cb,
                                    xb < 52;
                        } else {
                            assert(((old_mask | (1u64 << cb)) & (1u64 << xb) != 0) == (old_mask & (
                            1u64 << xb) != 0)) by (bit_vector)
                                requires
                                    xb != cb,
                                    xb < 52,
                                    cb < 52;
                        }
                    }
                }
            } else {
                cards.push(c);
                proof {
                    assert forall|x: Card| x.wf() implies ((mask & (1u64 << (x.spec_id()
                        as u64)) as u64 != 0) == (spec_has_card(dead_cards@, x) && x.spec_id() < i
                        + 1)) by {
                        if x.spec_id() == i as int {
                            assert(!spec_has_card(dead_cards@, x)) by {
                                assert(x.spec_id() == c.spec_id());
                            }
                        }
                    }
                }
            }
            i = i + 1;
        }
        proof {
            assert(spec_full_deck().subrange(0, 52) =~= spec_full_deck());
        }
        Deck { cards, index: 0, dealt_mask: mask }
    }

    /// Deal the next card, if one is left.  The dealt card is marked in
    /// the mask; the order of the remaining cards does not change.
    pub fn deal(&mut self) -> (r: Option<Card>)
        requires
            old(self).wf(),
        ensures
            final(self).wf(),
            final(self).spec_cards() == old(self).spec_cards(),
            match r {
                Some(c) => {
                    &&& old(self).spec_index() < old(self).spec_cards().len()
                    &&& c == old(self).spec_cards()[old(self).spec_index()]
                    &&& c.wf()
                    &&& final(self).spec_index() == old(self).spec_index() + 1
                    &&& final(self).spec_mask() == (old(self).spec_mask() | (1u64 << (c.spec_id()
                        as u64)) as u64)
                },
                None => {
                    &&& old(self).spec_index() >= old(self).spec_cards().len()
                    &&& *final(self) == *old(self)
                },
            },
    {
        if self.index >= self.cards.len() {
            return None;
        }
        let card: Card = self.cards[self.index];
        self.index = self.index + 1;
        self.dealt_mask = self.dealt_mask | (1u64 << (card.id() as u64));
        Some(card)
    }

    /// Deal up to `n` cards, stopping when the deck runs out.
    pub fn deal_n(&mut self, n: usize) -> (r: Vec<Card>)
        requires
            old(self).wf(),
        ensures
            final(self).wf(),
            final(self).spec_cards() == old(self).spec_cards(),
            r@.len() == vstd::math::min(n as int, old(self).spec_cards().len() - old(
                self,
            ).spec_index()),
            final(self).spec_index() == old(self).spec_index() + r@.len(),
            forall|j: int|
                0 <= j < r@.len() ==> #[trigger] r@[j] == old(self).spec_cards()[old(
                    self,
                ).spec_index() + j],
    {
        let mut out: Vec<Card> = Vec::new();
        let mut k: usize = 0;
        while k < n
            invariant
                k <= n,
                self.wf(),
                self.spec_cards() == old(self).spec_cards(),
                self.spec_index() == old(self).spec_index() + k,
                out@.len() == k,
                old(self).spec_index() + k <= self.spec_cards().len(),
                forall|j: int|
                    0 <= j < k ==> #[trigger] out@[j] == old(self).spec_cards()[old(
                        self,
                    ).spec_index() + j],
            decreases n - k,
        {
            match self.deal() {
                Some(card) => {
                    out.push(card);
                },
                None => {
                    return out;
                },
            }
            k = k + 1;
        }
        out
    }

    /// Number of cards left to deal.
    pub fn remaining(&self) -> (r: usize)
        requires
            self.wf(),
        ensures
            r == self.spec_cards().len() - self.spec_index(),
    {
        self.cards.len() - self.index
    }

    /// Whether a card is marked dealt (or dead).
    pub fn is_dealt(&self, card: Card) -> (r: bool)
        requires
            card.wf(),
        ensures
            r == (self.spec_mask() & (1u64 << (card.spec_id() as u64)) as u64 != 0),
    {
        self.dealt_mask & (1u64 << (card.id() as u64)) != 0
    }

    /// Restore the deck to a fresh, full state.
    pub fn reset(&mut self)
        ensures
            final(self).wf(),
            final(self).spec_cards() == spec_full_deck(),
            final(self).spec_index() == 0,
            final(self).spec_mask() == 0u64,
    {
        let fresh = Deck::new();
        *self = fresh;
    }

    /// The cards not yet dealt, in order.
    pub fn remaining_cards(&self) -> (r: &[Card])
        requires
            self.wf(),
        ensures
            r@ == self.spec_cards().subrange(self.spec_index(), self.spec_cards().len() as int),
    {
        vstd::slice::slice_subrange(self.cards.as_slice(), self.index, self.cards.len())
    }

    /// Shuffle the cards not yet dealt.  Relies on rand's
    /// `SliceRandom::shuffle`: it permutes the slice in place, so the
    /// remaining cards keep their multiset and the dealt prefix, the
    /// deal position and the mask stay as they were.
    #[verifier::external_body]
    pub fn shuffle(&mut self, rng: &mut rand::rngs::StdRng)
        requires
            old(self).wf(),
        ensures
            final(self).wf(),
            final(self).spec_index() == old(self).spec_index(),
            final(self).spec_mask() == old(self).spec_mask(),
            final(self).spec_cards().len() == old(self).spec_cards().len(),
            final(self).spec_cards().subrange(0, final(self).spec_index())
                == old(self).spec_cards().subrange(0, old(self).spec_index()),
            final(self).spec_cards().to_multiset() == old(self).spec_cards().to_multiset(),
    {
        let end = self.cards.len();
        rand::seq::SliceRandom::shuffle(&mut self.cards[self.index..end], rng);
    }
}


} // verus!

