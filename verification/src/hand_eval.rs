//! Poker hand evaluation: ranking five- to seven-card hands.
//!
//! A hand's rank packs its category and kickers into one integer, so
//! ranks compare numerically.  The contract of the five-card evaluator
//! pins the category down exactly against a count-based specification.

use vstd::prelude::*;

use crate::card::{Board, Card, HoleCards};

verus! {

/// Hand categories, from worst to best.
#[derive(Debug, Clone, Copy, PartialEq, Eq, Structural, Hash)]
pub enum HandCategory {
    /// No pair, no straight, no flush.
    HighCard,
    /// One pair.
    OnePair,
    /// Two pair.
    TwoPair,
    /// Three of a kind.
    ThreeOfAKind,
    /// Five consecutive ranks.
    Straight,
    /// Five cards of one suit.
    Flush,
    /// Three of a kind and a pair.
    FullHouse,
    /// Four of a kind.
    FourOfAKind,
    /// A straight in one suit.
    StraightFlush,
}

impl HandCategory {
    /// The category's strength index, from zero for high card to
    /// eight for a straight flush.
    pub open spec fn spec_index(self) -> int {
        match self {
            HandCategory::HighCard => 0,
            HandCategory::OnePair => 1,
            HandCategory::TwoPair => 2,
            HandCategory::ThreeOfAKind => 3,
            HandCategory::Straight => 4,
            HandCategory::Flush => 5,
            HandCategory::FullHouse => 6,
            HandCategory::FourOfAKind => 7,
            HandCategory::StraightFlush => 8,
        }
    }

    /// The category with the given strength index (high card for
    /// anything above eight).
    pub open spec fn spec_from_index(i: int) -> HandCategory {
        if i == 1 {
            HandCategory::OnePair
        } else if i == 2 {
            HandCategory::TwoPair
        } else if i == 3 {
            HandCategory::ThreeOfAKind
        } else if i == 4 {
            HandCategory::Straight
        } else if i == 5 {
            HandCategory::Flush
        } else if i == 6 {
            HandCategory::FullHouse
        } else if i == 7 {
            HandCategory::FourOfAKind
        } else if i == 8 {
            HandCategory::StraightFlush
        } else {
            HandCategory::HighCard
        }
    }

    /// The category's display name.
    pub fn name(&self) -> (r: &'static str)
        ensures
            match self {
                HandCategory::HighCard => r@ == "High Card"@,
                HandCategory::OnePair => r@ == "One Pair"@,
                HandCategory::TwoPair => r@ == "Two Pair"@,
                HandCategory::ThreeOfAKind => r@ == "Three of a Kind"@,
                HandCategory::Straight => r@ == "Straight"@,
                HandCategory::Flush => r@ == "Flush"@,
                HandCategory::FullHouse => r@ == "Full House"@,
                HandCategory::FourOfAKind => r@ == "Four of a Kind"@,
                HandCategory::StraightFlush => r@ == "Straight Flush"@,
            },
    {
        match self {
            HandCategory::HighCard => "High Card",
            HandCategory::OnePair => "One Pair",
            HandCategory::TwoPair => "Two Pair",
            HandCategory::ThreeOfAKind => "Three of a Kind",
            HandCategory::Straight => "Straight",
            HandCategory::Flush => "Flush",
            HandCategory::FullHouse => "Full House",
            HandCategory::FourOfAKind => "Four of a Kind",
            HandCategory::StraightFlush => "Straight Flush",
        }
    }

    /// The category's strength index.
    pub fn index_of(&self) -> (r: u32)
        ensures
            r as int == self.spec_index(),
    {
        match self {
            HandCategory::HighCard => 0,
            HandCategory::OnePair => 1,
            HandCategory::TwoPair => 2,
            HandCategory::ThreeOfAKind => 3,
            HandCategory::Straight => 4,
            HandCategory::Flush => 5,
            HandCategory::FullHouse => 6,
            HandCategory::FourOfAKind => 7,
            HandCategory::StraightFlush => 8,
        }
    }
}

/// A comparable hand rank: the category in the high bits, up to five
/// kicker ranks in four-bit groups below it.
#[derive(Debug, Clone, Copy, PartialEq, Eq, Structural, Hash, PartialOrd, Ord)]
pub struct HandRank(pub u32);

impl HandRank {
    /// The packed rank value; higher values beat lower ones.
    pub fn value(&self) -> (r: u32)
        ensures
            r == self.0,
    {
        self.0
    }

    /// The category encoded in the rank.
    pub open spec fn spec_category(self) -> HandCategory {
        HandCategory::spec_from_index(self.0 as int / 0x100000)
    }

    /// The category encoded in the rank's high bits.
    pub fn category(&self) -> (r: HandCategory)
        ensures
            r == self.spec_category(),
    {
        let i: u32 = self.0 / 0x100000;
        if i == 1 {
            HandCategory::OnePair
        } else if i == 2 {
            HandCategory::TwoPair
        } else if i == 3 {
            HandCategory::ThreeOfAKind
        } else if i == 4 {
            HandCategory::Straight
        } else if i == 5 {
            HandCategory::Flush
        } else if i == 6 {
            HandCategory::FullHouse
        } else if i == 7 {
            HandCategory::FourOfAKind
        } else if i == 8 {
            HandCategory::StraightFlush
        } else {
            HandCategory::HighCard
        }
    }
}

/// Number of cards of the given rank.
pub open spec fn spec_rank_count(cards: Seq<Card>, r: int) -> int
    decreases cards.len(),
{
    if cards.len() == 0 {
        0
    } else {
        spec_rank_count(cards.drop_last(), r) + if cards.last().spec_rank() == r {
            1int
        } else {
            0int
        }
    }
}

/// Number of cards of the given suit.
pub open spec fn spec_suit_count(cards: Seq<Card>, s: int) -> int
    decreases cards.len(),
{
    if cards.len() == 0 {
        0
    } else {
        spec_suit_count(cards.drop_last(), s) + if cards.last().spec_suit() == s {
            1int
        } else {
            0int
        }
    }
}

/// Whether some suit appears on at least five cards.
pub open spec fn spec_is_flush(cards: Seq<Card>) -> bool {
    exists|s: int| 0 <= s < 4 && #[trigger] spec_suit_count(cards, s) >= 5
}

/// Whether the hand holds the straight with the given high rank:
/// `hi == 3` is the wheel (ace playing low), otherwise the five ranks
/// ending at `hi` are all present.
pub open spec fn spec_straight_with_high(cards: Seq<Card>, hi: int) -> bool {
    if hi == 3 {
        &&& spec_rank_count(cards, 12) > 0
        &&& spec_rank_count(cards, 0) > 0
        &&& spec_rank_count(cards, 1) > 0
        &&& spec_rank_count(cards, 2) > 0
        &&& spec_rank_count(cards, 3) > 0
    } else {
        forall|r: int| hi - 4 <= r <= hi ==> #[trigger] spec_rank_count(cards, r) > 0
    }
}

/// Whether the hand holds any straight.
pub open spec fn spec_has_straight(cards: Seq<Card>) -> bool {
    exists|hi: int| 3 <= hi <= 12 && #[trigger] spec_straight_with_high(cards, hi)
}

/// Number of ranks that appear exactly `c` times, among ranks below
/// `upto`.
pub open spec fn spec_ranks_with_count(cards: Seq<Card>, c: int, upto: int) -> int
    decreases upto,
{
    if upto <= 0 {
        0
    } else {
        spec_ranks_with_count(cards, c, upto - 1) + if spec_rank_count(cards, upto - 1) == c {
            1int
        } else {
            0int
        }
    }
}

/// The category of a five-card hand, determined by its counts: the
/// standard poker classification.
pub open spec fn spec_category5(cards: Seq<Card>) -> HandCategory {
    let flush = spec_is_flush(cards);
    let straight = spec_has_straight(cards);
    let quads = spec_ranks_with_count(cards, 4, 13) > 0;
    let trips = spec_ranks_with_count(cards, 3, 13) > 0;
    let pairs = spec_ranks_with_count(cards, 2, 13);
    if flush && straight {
        HandCategory::StraightFlush
    } else if quads {
        HandCategory::FourOfAKind
    } else if trips && pairs >= 1 {
        HandCategory::FullHouse
    } else if flush {
        HandCategory::Flush
    } else if straight {
        HandCategory::Straight
    } else if trips {
        HandCategory::ThreeOfAKind
    } else if pairs >= 2 {
        HandCategory::TwoPair
    } else if pairs == 1 {
        HandCategory::OnePair
    } else {
        HandCategory::HighCard
    }
}

/// The hand evaluator.
#[derive(Debug, Clone)]
pub struct HandEvaluator {

}

impl HandEvaluator {
    /// Create an evaluator.
    pub fn new() -> (r: HandEvaluator)
        ensures
            r == (HandEvaluator {  }),
    {
        HandEvaluator {  }
    }

    /// Evaluate a five-card hand.  The returned rank's category is
    /// exactly the count-based classification of the five cards;
    /// within a category, ties break on kicker ranks packed below the
    /// category bits.
    pub fn evaluate_5(&self, cards: &[Card; 5]) -> (r: HandRank)
        requires
            forall|i: int| 0 <= i < 5 ==> (#[trigger] cards[i]).wf(),
        ensures
            r.spec_category() == spec_category5(cards@),
    {
        let counts = rank_counts(cards.as_slice());
        let suit_counts = suit_counts_of(cards.as_slice());
        let is_flush = has_flush(&suit_counts, Ghost(cards@));
        let straight_high = find_straight(&counts, Ghost(cards@));
        let quad_rank = find_rank_with_count(&counts, 4, Ghost(cards@));
        let trip_rank = find_rank_with_count(&counts, 3, Ghost(cards@));
        let (pair_hi, pair_lo, num_pairs) = find_pairs(&counts, Ghost(cards@));
        let kickers = singles_desc(&counts, Ghost(cards@));
        match straight_high {
            Some(hi) => {
                if is_flush {
                    return make_rank(8, hi, 0, 0, 0, 0);
                }
            },
            None => {},
        }
        match quad_rank {
            Some(q) => {
                let kick: u8 = match trip_rank {
                    Some(t) => t,
                    None => match pair_hi {
                        Some(p) => p,
                        None => first_or_zero(&kickers),
                    },
                };
                return make_rank(7, q, kick, 0, 0, 0);
            },
            None => {},
        }
        match trip_rank {
            Some(t) => {
                if num_pairs >= 1 {
                    let p: u8 = match pair_hi {
                        Some(p) => p,
                        None => 0,
                    };
                    return make_rank(6, t, p, 0, 0, 0);
                }
            },
            None => {},
        }
        if is_flush {
            let sorted = ranks_desc(cards.as_slice());
            return make_rank(
                5,
                get_or_zero(&sorted, 0),
                get_or_zero(&sorted, 1),
                get_or_zero(&sorted, 2),
                get_or_zero(&sorted, 3),
                get_or_zero(&sorted, 4),
            );
        }
        match straight_high {
            Some(hi) => {
                return make_rank(4, hi, 0, 0, 0, 0);
            },
            None => {},
        }
        match trip_rank {
            Some(t) => {
                return make_rank(
                    3,
                    t,
                    get_or_zero(&kickers, 0),
                    get_or_zero(&kickers, 1),
                    0,
                    0,
                );
            },
            None => {},
        }
        if num_pairs >= 2 {
            let hi: u8 = match pair_hi {
                Some(p) => p,
                None => 0,
            };
            let lo: u8 = match pair_lo {
                Some(p) => p,
                None => 0,
            };
            return make_rank(2, hi, lo, first_or_zero(&kickers), 0, 0);
        }
        if num_pairs == 1 {
            let hi: u8 = match pair_hi {
                Some(p) => p,
                None => 0,
            };
            return make_rank(
                1,
                hi,
                get_or_zero(&kickers, 0),
                get_or_zero(&kickers, 1),
                get_or_zero(&kickers, 2),
                0,
            );
        }
        make_rank(
            0,
            get_or_zero(&kickers, 0),
            get_or_zero(&kickers, 1),
            get_or_zero(&kickers, 2),
            get_or_zero(&kickers, 3),
            get_or_zero(&kickers, 4),
        )
    }

    /// Evaluate a seven-card hand: the best five-card choice.
    pub fn evaluate_7(&self, cards: &[Card; 7]) -> (r: HandRank)
        requires
            forall|i: int| 0 <= i < 7 ==> (#[trigger] cards[i]).wf(),
    {
        let mut best = HandRank(0);
        let mut i: usize = 0;
        while i < 7
            invariant
                i <= 7,
                forall|k: int| 0 <= k < 7 ==> (#[trigger] cards[k]).wf(),
            decreases 7 - i,
        {
            let mut j: usize = i + 1;
            while j < 7
                invariant
                    i < 7,
                    j <= 7,
                    forall|k: int| 0 <= k < 7 ==> (#[trigger] cards[k]).wf(),
                decreases 7 - j,
            {
                let mut k: usize = j + 1;
                while k < 7
                    invariant
                        i < 7,
                        j < 7,
                        k <= 7,
                        forall|q: int| 0 <= q < 7 ==> (#[trigger] cards[q]).wf(),
                    decreases 7 - k,
                {
                    let mut l: usize = k + 1;
                    while l < 7
                        invariant
                            i < 7,
                            j < 7,
                            k < 7,
                            l <= 7,
                            forall|q: int| 0 <= q < 7 ==> (#[trigger] cards[q]).wf(),
                        decreases 7 - l,
                    {
                        let mut m: usize = l + 1;
                        while m < 7
                            invariant
                                i < 7,
                                j < 7,
                                k < 7,
                                l < 7,
                                m <= 7,
                                forall|q: int| 0 <= q < 7 ==> (#[trigger] cards[q]).wf(),
                            decreases 7 - m,
                        {
                            let hand: [Card; 5] = [cards[i], cards[j], cards[k], cards[l], cards[m]];
                            let rank = self.evaluate_5(&hand);
                            if rank.value() > best.value() {
                                best = rank;
                            }
                            m = m + 1;
                        }
                        l = l + 1;
                    }
                    k = k + 1;
                }
                j = j + 1;
            }
            i = i + 1;
        }
        best
    }

    /// Evaluate hole cards against a board.  With fewer than five
    /// cards in total the rank reflects the hole cards alone (a pair
    /// or two high cards); with five to seven cards it is the best
    /// five-card hand.
    pub fn evaluate(&self, hole_cards: &HoleCards, board: &Board) -> (r: HandRank)
        requires
            hole_cards.wf(),
            board.wf(),
    {
        let bn: usize = board.len();
        let total: usize = 2 + bn;
        if total < 5 {
            if hole_cards.is_pair() {
                make_rank(1, hole_cards.card1.rank(), 0, 0, 0, 0)
            } else {
                make_rank(0, hole_cards.card1.rank(), hole_cards.card2.rank(), 0, 0, 0)
            }
        } else if total == 5 {
            let b = board.cards();
            let hand: [Card; 5] = [hole_cards.card1, hole_cards.card2, b[0], b[1], b[2]];
            self.evaluate_5(&hand)
        } else if total == 6 {
            let b = board.cards();
            let mut best = HandRank(0);
            // Best five of the six cards: skip each card in turn.
            let all: [Card; 6] = [hole_cards.card1, hole_cards.card2, b[0], b[1], b[2], b[3]];
            let mut skip: usize = 0;
            while skip < 6
                invariant
                    skip <= 6,
                    hole_cards.wf(),
                    board.wf(),
                    forall|q: int| 0 <= q < 6 ==> (#[trigger] all[q]).wf(),
                decreases 6 - skip,
            {
                let mut hand: Vec<Card> = Vec::new();
                let mut q: usize = 0;
                while q < 6
                    invariant
                        q <= 6,
                        hand@.len() <= q,
                        forall|t: int| 0 <= t < 6 ==> (#[trigger] all[t]).wf(),
                        forall|t: int| 0 <= t < hand@.len() ==> (#[trigger] hand@[t]).wf(),
                    decreases 6 - q,
                {
                    if q != skip {
                        hand.push(all[q]);
                    }
                    q = q + 1;
                }
                if hand.len() == 5 {
                    let five: [Card; 5] = [hand[0], hand[1], hand[2], hand[3], hand[4]];
                    let rank = self.evaluate_5(&five);
                    if rank.value() > best.value() {
                        best = rank;
                    }
                }
                skip = skip + 1;
            }
            best
        } else {
            let b = board.cards();
            let all: [Card; 7] = [
                hole_cards.card1,
                hole_cards.card2,
                b[0],
                b[1],
                b[2],
                b[3],
                b[4],
            ];
            self.evaluate_7(&all)
        }
    }

    /// Compare two hands on a board: positive when the first wins,
    /// negative when the second does, zero on a tie.
    pub fn compare(&self, hole1: &HoleCards, hole2: &HoleCards, board: &Board) -> (r: i32)
        requires
            hole1.wf(),
            hole2.wf(),
            board.wf(),
        ensures
            r == 1 || r == -1 || r == 0,
    {
        let r1 = self.evaluate(hole1, board);
        let r2 = self.evaluate(hole2, board);
        if r1.value() > r2.value() {
            1
        } else if r1.value() < r2.value() {
            -1
        } else {
            0
        }
    }
}

/// Pack a category index and five kicker ranks into a rank value.
fn make_rank(category: u32, k0: u8, k1: u8, k2: u8, k3: u8, k4: u8) -> (r: HandRank)
    requires
        category <= 8,
        k0 < 16,
        k1 < 16,
        k2 < 16,
        k3 < 16,
        k4 < 16,
    ensures
        r.spec_category() == HandCategory::spec_from_index(category as int),
{
    let v: u32 = category * 0x100000 + (k0 as u32) * 0x10000 + (k1 as u32) * 0x1000 + (k2 as u32)
        * 0x100 + (k3 as u32) * 0x10 + (k4 as u32);
    proof {
        assert(v as int / 0x100000 == category as int) by (nonlinear_arith)
            requires
                v as int == category as int * 0x100000 + k0 as int * 0x10000 + k1 as int * 0x1000
                    + k2 as int * 0x100 + k3 as int * 0x10 + k4 as int,
                category <= 8,
                k0 < 16,
                k1 < 16,
                k2 < 16,
                k3 < 16,
                k4 < 16;
    }
    HandRank(v)
}

/// Count each rank's occurrences.
fn rank_counts(cards: &[Card]) -> (r: Vec<u8>)
    requires
        forall|i: int| 0 <= i < cards@.len() ==> (#[trigger] cards@[i]).wf(),
        cards@.len() <= 7,
    ensures
        r@.len() == 13,
        forall|t: int| 0 <= t < 13 ==> (#[trigger] r@[t]) as int == spec_rank_count(cards@, t),
{
    let mut counts: Vec<u8> = Vec::new();
    let mut t: usize = 0;
    while t < 13
        invariant
            t <= 13,
            counts@.len() == t,
            forall|q: int| 0 <= q < t ==> (#[trigger] counts@[q]) == 0,
        decreases 13 - t,
    {
        counts.push(0);
        t = t + 1;
    }
    let n: usize = cards.len();
    let mut i: usize = 0;
    proof {
        assert forall|q: int| 0 <= q < 13 implies spec_rank_count(cards@.subrange(0, 0), q)
            == 0 by {
            assert(cards@.subrange(0, 0) =~= Seq::<Card>::empty());
        }
    }
    while i < n
        invariant
            i <= n,
            n == cards@.len(),
            n <= 7,
            forall|q: int| 0 <= q < cards@.len() ==> (#[trigger] cards@[q]).wf(),
            counts@.len() == 13,
            forall|q: int|
                0 <= q < 13 ==> (#[trigger] counts@[q]) as int == spec_rank_count(
                    cards@.subrange(0, i as int),
                    q,
                ),
            forall|q: int| 0 <= q < 13 ==> (#[trigger] counts@[q]) <= i,
        decreases n - i,
    {
        let rk: u8 = cards[i].rank();
        proof {
            assert forall|q: int| 0 <= q < 13 implies spec_rank_count(
                cards@.subrange(0, i + 1),
                q,
            ) == spec_rank_count(cards@.subrange(0, i as int), q) + (if cards@[i as int].spec_rank()
                == q {
                1int
            } else {
                0int
            }) by {
                assert(cards@.subrange(0, i + 1).drop_last() =~= cards@.subrange(0, i as int));
                assert(cards@.subrange(0, i + 1).last() == cards@[i as int]);
            }
        }
        let c: u8 = counts[rk as usize];
        counts.set(rk as usize, c + 1);
        i = i + 1;
    }
    proof {
        assert(cards@.subrange(0, n as int) =~= cards@);
    }
    counts
}

/// Count each suit's occurrences.
fn suit_counts_of(cards: &[Card]) -> (r: Vec<u8>)
    requires
        forall|i: int| 0 <= i < cards@.len() ==> (#[trigger] cards@[i]).wf(),
        cards@.len() <= 7,
    ensures
        r@.len() == 4,
        forall|t: int| 0 <= t < 4 ==> (#[trigger] r@[t]) as int == spec_suit_count(cards@, t),
{
    let mut counts: Vec<u8> = Vec::new();
    let mut t: usize = 0;
    while t < 4
        invariant
            t <= 4,
            counts@.len() == t,
            forall|q: int| 0 <= q < t ==> (#[trigger] counts@[q]) == 0,
        decreases 4 - t,
    {
        counts.push(0);
        t = t + 1;
    }
    let n: usize = cards.len();
    let mut i: usize = 0;
    proof {
        assert forall|q: int| 0 <= q < 4 implies spec_suit_count(cards@.subrange(0, 0), q)
            == 0 by {
            assert(cards@.subrange(0, 0) =~= Seq::<Card>::empty());
        }
    }
    while i < n
        invariant
            i <= n,
            n == cards@.len(),
            n <= 7,
            forall|q: int| 0 <= q < cards@.len() ==> (#[trigger] cards@[q]).wf(),
            counts@.len() == 4,
            forall|q: int|
                0 <= q < 4 ==> (#[trigger] counts@[q]) as int == spec_suit_count(
                    cards@.subrange(0, i as int),
                    q,
                ),
            forall|q: int| 0 <= q < 4 ==> (#[trigger] counts@[q]) <= i,
        decreases n - i,
    {
        let st: u8 = cards[i].suit();
        proof {
            assert forall|q: int| 0 <= q < 4 implies spec_suit_count(
                cards@.subrange(0, i + 1),
                q,
            ) == spec_suit_count(cards@.subrange(0, i as int), q) + (if cards@[i as int].spec_suit()
                == q {
                1int
            } else {
                0int
            }) by {
                assert(cards@.subrange(0, i + 1).drop_last() =~= cards@.subrange(0, i as int));
                assert(cards@.subrange(0, i + 1).last() == cards@[i as int]);
            }
        }
        let c: u8 = counts[st as usize];
        counts.set(st as usize, c + 1);
        i = i + 1;
    }
    proof {
        assert(cards@.subrange(0, n as int) =~= cards@);
    }
    counts
}

/// Whether some suit count reaches five.
fn has_flush(suit_counts: &Vec<u8>, Ghost(cards): Ghost<Seq<Card>>) -> (r: bool)
    requires
        suit_counts@.len() == 4,
        forall|t: int|
            0 <= t < 4 ==> (#[trigger] suit_counts@[t]) as int == spec_suit_count(cards, t),
    ensures
        r == spec_is_flush(cards),
{
    let mut s: usize = 0;
    while s < 4
        invariant
            s <= 4,
            suit_counts@.len() == 4,
            forall|t: int|
                0 <= t < 4 ==> (#[trigger] suit_counts@[t]) as int == spec_suit_count(cards, t),
            forall|t: int| 0 <= t < s ==> #[trigger] spec_suit_count(cards, t) < 5,
        decreases 4 - s,
    {
        if suit_counts[s] >= 5 {
            return true;
        }
        s = s + 1;
    }
    false
}

/// The highest straight's high rank, if the hand holds a straight.
fn find_straight(counts: &Vec<u8>, Ghost(cards): Ghost<Seq<Card>>) -> (r: Option<u8>)
    requires
        counts@.len() == 13,
        forall|t: int| 0 <= t < 13 ==> (#[trigger] counts@[t]) as int == spec_rank_count(cards, t),
    ensures
        match r {
            Some(hi) => 3 <= hi <= 12 && spec_straight_with_high(cards, hi as int) && hi < 16,
            None => !spec_has_straight(cards),
        },
{
    // From the ace-high straight down to the wheel.
    let mut hi: usize = 12;
    loop
        invariant
            3 <= hi <= 12,
            counts@.len() == 13,
            forall|t: int|
                0 <= t < 13 ==> (#[trigger] counts@[t]) as int == spec_rank_count(cards, t),
            forall|h: int| hi < h <= 12 ==> !(#[trigger] spec_straight_with_high(cards, h)),
        decreases hi,
    {
        if hi == 3 {
            // The wheel: ace plays low.
            if counts[12] > 0 && counts[0] > 0 && counts[1] > 0 && counts[2] > 0 && counts[3] > 0 {
                return Some(3);
            }
            proof {
                assert(!spec_straight_with_high(cards, 3));
            }
            return None;
        }
        let mut all: bool = true;
        let mut r: usize = hi - 4;
        while r <= hi
            invariant
                hi <= 12,
                hi - 4 <= r <= hi + 1,
                counts@.len() == 13,
                forall|t: int|
                    0 <= t < 13 ==> (#[trigger] counts@[t]) as int == spec_rank_count(cards, t),
                all == (forall|q: int|
                    hi - 4 <= q < r ==> #[trigger] spec_rank_count(cards, q) > 0),
            decreases hi + 1 - r,
        {
            if counts[r] == 0 {
                all = false;
            }
            r = r + 1;
        }
        if all {
            return Some(hi as u8);
        }
        proof {
            assert(!spec_straight_with_high(cards, hi as int)) by {
                let w = choose|q: int|
                    hi - 4 <= q < hi + 1 && !(#[trigger] spec_rank_count(cards, q) > 0);
            }
        }
        hi = hi - 1;
    }
}

/// The highest rank appearing exactly `c` times, if any.
fn find_rank_with_count(counts: &Vec<u8>, c: u8, Ghost(cards): Ghost<Seq<Card>>) -> (r: Option<u8>)
    requires
        counts@.len() == 13,
        c >= 1,
        forall|t: int| 0 <= t < 13 ==> (#[trigger] counts@[t]) as int == spec_rank_count(cards, t),
    ensures
        match r {
            Some(rk) => rk < 13 && spec_rank_count(cards, rk as int) == c as int
                && spec_ranks_with_count(cards, c as int, 13) > 0,
            None => spec_ranks_with_count(cards, c as int, 13) == 0,
        },
{
    let mut t: usize = 13;
    while t > 0
        invariant
            t <= 13,
            counts@.len() == 13,
            forall|q: int|
                0 <= q < 13 ==> (#[trigger] counts@[q]) as int == spec_rank_count(cards, q),
            forall|q: int| t <= q < 13 ==> #[trigger] spec_rank_count(cards, q) != c as int,
        decreases t,
    {
        t = t - 1;
        if counts[t] == c {
            proof {
                lemma_ranks_with_count_pos(cards, c as int, t as int);
            }
            return Some(t as u8);
        }
    }
    proof {
        lemma_ranks_with_count_zero(cards, c as int, 13);
    }
    None
}

/// A rank counted `c` times makes the tally positive.
proof fn lemma_ranks_with_count_pos(cards: Seq<Card>, c: int, t: int)
    requires
        0 <= t < 13,
        spec_rank_count(cards, t) == c,
    ensures
        spec_ranks_with_count(cards, c, 13) > 0,
{
    lemma_ranks_with_count_from(cards, c, t + 1, 13);
}

proof fn lemma_ranks_with_count_from(cards: Seq<Card>, c: int, lo: int, upto: int)
    requires
        1 <= lo <= upto,
        spec_rank_count(cards, lo - 1) == c,
    ensures
        spec_ranks_with_count(cards, c, upto) > 0,
    decreases upto - lo,
{
    lemma_ranks_with_count_nonneg(cards, c, lo - 1);
    if lo < upto {
        lemma_ranks_with_count_mono(cards, c, lo, upto);
    }
}

proof fn lemma_ranks_with_count_mono(cards: Seq<Card>, c: int, lo: int, upto: int)
    requires
        0 <= lo <= upto,
    ensures
        spec_ranks_with_count(cards, c, lo) <= spec_ranks_with_count(cards, c, upto),
    decreases upto - lo,
{
    if lo < upto {
        lemma_ranks_with_count_mono(cards, c, lo + 1, upto);
    }
}

proof fn lemma_ranks_with_count_le(cards: Seq<Card>, c: int, upto: int)
    requires
        upto >= 0,
    ensures
        spec_ranks_with_count(cards, c, upto) <= upto,
    decreases upto,
{
    if upto > 0 {
        lemma_ranks_with_count_le(cards, c, upto - 1);
    }
}

proof fn lemma_ranks_with_count_nonneg(cards: Seq<Card>, c: int, upto: int)
    ensures
        spec_ranks_with_count(cards, c, upto) >= 0,
    decreases (if upto > 0 { upto } else { 0 }),
{
    if upto > 0 {
        lemma_ranks_with_count_nonneg(cards, c, upto - 1);
    }
}

/// When no rank is counted `c` times, the tally is zero.
proof fn lemma_ranks_with_count_zero(cards: Seq<Card>, c: int, upto: int)
    requires
        0 <= upto <= 13,
        forall|q: int| 0 <= q < upto ==> #[trigger] spec_rank_count(cards, q) != c,
    ensures
        spec_ranks_with_count(cards, c, upto) == 0,
    decreases upto,
{
    if upto > 0 {
        lemma_ranks_with_count_zero(cards, c, upto - 1);
    }
}

/// The two highest pair ranks (if any) and the number of pair ranks.
fn find_pairs(counts: &Vec<u8>, Ghost(cards): Ghost<Seq<Card>>) -> (r: (
    Option<u8>,
    Option<u8>,
    usize,
))
    requires
        counts@.len() == 13,
        forall|t: int| 0 <= t < 13 ==> (#[trigger] counts@[t]) as int == spec_rank_count(cards, t),
    ensures
        r.2 as int == spec_ranks_with_count(cards, 2, 13),
        r.2 >= 1 ==> r.0 is Some,
        r.2 >= 2 ==> r.1 is Some,
        match r.0 {
            Some(p) => p < 13 && spec_rank_count(cards, p as int) == 2,
            None => true,
        },
        match r.1 {
            Some(p) => p < 13 && spec_rank_count(cards, p as int) == 2,
            None => true,
        },
{
    let mut hi: Option<u8> = None;
    let mut lo: Option<u8> = None;
    let mut num: usize = 0;
    let mut t: usize = 13;
    while t > 0
        invariant
            t <= 13,
            counts@.len() == 13,
            forall|q: int|
                0 <= q < 13 ==> (#[trigger] counts@[q]) as int == spec_rank_count(cards, q),
            num as int == spec_ranks_with_count(cards, 2, 13) - spec_ranks_with_count(
                cards,
                2,
                t as int,
            ),
            num >= 1 ==> hi is Some,
            num >= 2 ==> lo is Some,
            match hi {
                Some(p) => p < 13 && spec_rank_count(cards, p as int) == 2,
                None => num == 0,
            },
            match lo {
                Some(p) => p < 13 && spec_rank_count(cards, p as int) == 2,
                None => num <= 1,
            },
            num as int <= 13,
        decreases t,
    {
        proof {
            lemma_ranks_with_count_mono(cards, 2, t as int - 1, t as int);
            lemma_ranks_with_count_mono(cards, 2, t as int, 13);
            lemma_ranks_with_count_nonneg(cards, 2, t as int - 1);
            lemma_ranks_with_count_le(cards, 2, 13);
        }
        t = t - 1;
        if counts[t] == 2 {
            if hi.is_none() {
                hi = Some(t as u8);
            } else if lo.is_none() {
                lo = Some(t as u8);
            }
            num = num + 1;
        }
    }
    (hi, lo, num)
}

/// The ranks that appear exactly once, highest first.
fn singles_desc(counts: &Vec<u8>, Ghost(cards): Ghost<Seq<Card>>) -> (r: Vec<u8>)
    requires
        counts@.len() == 13,
        forall|t: int| 0 <= t < 13 ==> (#[trigger] counts@[t]) as int == spec_rank_count(cards, t),
    ensures
        forall|i: int| 0 <= i < r@.len() ==> (#[trigger] r@[i]) < 13,
{
    let mut out: Vec<u8> = Vec::new();
    let mut t: usize = 13;
    while t > 0
        invariant
            t <= 13,
            counts@.len() == 13,
            forall|i: int| 0 <= i < out@.len() ==> (#[trigger] out@[i]) < 13,
        decreases t,
    {
        t = t - 1;
        if counts[t] == 1 {
            out.push(t as u8);
        }
    }
    out
}

/// All five ranks, highest first.
fn ranks_desc(cards: &[Card]) -> (r: Vec<u8>)
    requires
        forall|i: int| 0 <= i < cards@.len() ==> (#[trigger] cards@[i]).wf(),
    ensures
        forall|i: int| 0 <= i < r@.len() ==> (#[trigger] r@[i]) < 13,
{
    let n: usize = cards.len();
    let mut out: Vec<u8> = Vec::new();
    let mut i: usize = 0;
    while i < n
        invariant
            i <= n,
            n == cards@.len(),
            forall|q: int| 0 <= q < cards@.len() ==> (#[trigger] cards@[q]).wf(),
            forall|q: int| 0 <= q < out@.len() ==> (#[trigger] out@[q]) < 13,
        decreases n - i,
    {
        out.push(cards[i].rank());
        i = i + 1;
    }
    // Selection sort, highest first.
    let m: usize = out.len();
    let mut a: usize = 0;
    while a < m
        invariant
            a <= m,
            m == out@.len(),
            forall|q: int| 0 <= q < out@.len() ==> (#[trigger] out@[q]) < 13,
        decreases m - a,
    {
        let mut best: usize = a;
        let mut b: usize = a + 1;
        while b < m
            invariant
                a < m,
                a + 1 <= b <= m,
                a <= best,
                best < m,
                m == out@.len(),
                forall|q: int| 0 <= q < out@.len() ==> (#[trigger] out@[q]) < 13,
            decreases m - b,
        {
            if out[b] > out[best] {
                best = b;
            }
            b = b + 1;
        }
        let va: u8 = out[a];
        let vb: u8 = out[best];
        out.set(a, vb);
        out.set(best, va);
        a = a + 1;
    }
    out
}

/// The first element, or zero.
fn first_or_zero(v: &Vec<u8>) -> (r: u8)
    requires
        forall|i: int| 0 <= i < v@.len() ==> (#[trigger] v@[i]) < 13,
    ensures
        r < 16,
{
    if v.len() > 0 {
        v[0]
    } else {
        0
    }
}

/// The element at an index, or zero past the end.
fn get_or_zero(v: &Vec<u8>, i: usize) -> (r: u8)
    requires
        forall|j: int| 0 <= j < v@.len() ==> (#[trigger] v@[j]) < 13,
    ensures
        r < 16,
{
    if i < v.len() {
        v[i]
    } else {
        0
    }
}

/// Monte-Carlo equity of a hand against a random opponent hand, with
/// the board dealt out: the fraction of samples won, counting a tie as
/// half, in fixed-point units.  Always a probability.
pub fn calculate_equity_vs_random(hole_cards: &HoleCards, board: &Board, samples: usize) -> (r:
    u64)
    requires
        hole_cards.wf(),
        board.wf(),
        1 <= samples <= 1_000_000_000,
    ensures
        r <= crate::fixed::PROB_ONE,
{
    let evaluator = HandEvaluator::new();
    let mut rng = crate::rng::rng_from_entropy();
    // Two points per win, one per tie.
    let mut wins2: u64 = 0;
    let mut dead: Vec<Card> = Vec::new();
    dead.push(hole_cards.card1);
    dead.push(hole_cards.card2);
    let bn: usize = board.len();
    let mut bi: usize = 0;
    while bi < bn
        invariant
            bi <= bn,
            bn == board@.len(),
            board.wf(),
            hole_cards.wf(),
            dead@.len() == 2 + bi,
            forall|j: int| 0 <= j < dead@.len() ==> (#[trigger] dead@[j]).wf(),
        decreases bn - bi,
    {
        let b = board.cards();
        dead.push(b[bi]);
        bi = bi + 1;
    }
    let mut s: usize = 0;
    while s < samples
        invariant
            s <= samples,
            samples <= 1_000_000_000,
            hole_cards.wf(),
            board.wf(),
            forall|j: int| 0 <= j < dead@.len() ==> (#[trigger] dead@[j]).wf(),
            wins2 as int <= 2 * s as int,
        decreases samples - s,
    {
        let mut deck = crate::card::Deck::without(dead.as_slice());
        deck.shuffle(&mut rng);
        let o1 = deck.deal();
        let o2 = deck.deal();
        let mut scored: bool = false;
        match (o1, o2) {
            (Some(c1), Some(c2)) => {
                let opp = HoleCards::new(c1, c2);
                let board_cards = vstd::slice::slice_to_vec(board.cards());
                let mut full = Board::from_cards(board_cards);
                let mut fills: usize = 0;
                while full.len() < 5 && fills < 5
                    invariant
                        full.wf(),
                        deck.wf(),
                        fills <= 5,
                    decreases 5 - fills,
                {
                    match deck.deal() {
                        Some(c) => {
                            full.add(c);
                        },
                        None => {
                            fills = 5;
                        },
                    }
                    if fills < 5 {
                        fills = fills + 1;
                    }
                }
                if full.len() == 5 {
                    let cmp = evaluator.compare(hole_cards, &opp, &full);
                    if cmp > 0 {
                        wins2 = wins2 + 2;
                    } else if cmp == 0 {
                        wins2 = wins2 + 1;
                    }
                    scored = true;
                }
            },
            _ => {},
        }
        if !scored && wins2 + 1 <= 2 * (s as u64) + 2 {
            // A deck too short to finish the board counts as a tie.
            wins2 = wins2 + 1;
        }
        s = s + 1;
    }
    let denom: u64 = 2 * (samples as u64);
    proof {
        vstd::arithmetic::mul::lemma_mul_inequality(
            wins2 as int,
            denom as int,
            crate::fixed::PROB_ONE as int,
        );
        assert(wins2 as int * crate::fixed::PROB_ONE as int == crate::fixed::PROB_ONE as int
            * wins2 as int) by (nonlinear_arith);
        assert(denom as int * crate::fixed::PROB_ONE as int == crate::fixed::PROB_ONE as int
            * denom as int) by (nonlinear_arith);
        vstd::arithmetic::div_mod::lemma_div_is_ordered(
            wins2 as int * crate::fixed::PROB_ONE as int,
            denom as int * crate::fixed::PROB_ONE as int,
            denom as int,
        );
        vstd::arithmetic::div_mod::lemma_div_multiples_vanish(
            crate::fixed::PROB_ONE as int,
            denom as int,
        );
        vstd::arithmetic::div_mod::lemma_div_pos_is_pos(
            wins2 as int * crate::fixed::PROB_ONE as int,
            denom as int,
        );
        assert(wins2 as int * crate::fixed::PROB_ONE as int >= 0) by (nonlinear_arith)
            requires
                wins2 >= 0;
    }
    let q: u128 = (wins2 as u128) * (crate::fixed::PROB_ONE as u128) / (denom as u128);
    q as u64
}

} // verus!
