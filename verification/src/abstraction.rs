//! Card abstraction: the 169 strategic preflop hand classes and
//! equity-based postflop bucketing.

use vstd::prelude::*;

use crate::card::{
    spec_hand_class_index, spec_rank_char, spec_triangular, Board, Card, HoleCards, Street,
    char_to_string, rank_char_of, triangular_index,
};
use crate::fixed::PROB_ONE;
use crate::text::{digit_string, spec_decimal, spec_digit_char, u32_to_string};

verus! {

/// Configuration of the card abstraction.
#[derive(Debug, Clone, Copy, PartialEq, Eq, Structural)]
pub struct AbstractionConfig {
    /// Buckets on the flop.
    pub flop_buckets: u16,
    /// Buckets on the turn.
    pub turn_buckets: u16,
    /// Buckets on the river.
    pub river_buckets: u16,
    /// Samples for the equity estimate.
    pub equity_samples: usize,
}

impl AbstractionConfig {
    /// A well-formed configuration has at least one bucket per street
    /// and at least one sample.
    pub open spec fn wf(self) -> bool {
        &&& self.flop_buckets >= 1
        &&& self.turn_buckets >= 1
        &&& self.river_buckets >= 1
        &&& 1 <= self.equity_samples <= 1_000_000_000
    }

    /// The default sizing: a thousand flop buckets and a few hundred
    /// beyond.
    pub fn new() -> (c: AbstractionConfig)
        ensures
            c == (AbstractionConfig {
                flop_buckets: 1024u16,
                turn_buckets: 256u16,
                river_buckets: 256u16,
                equity_samples: 500usize,
            }),
            c.wf(),
    {
        AbstractionConfig {
            flop_buckets: 1024,
            turn_buckets: 256,
            river_buckets: 256,
            equity_samples: 500,
        }
    }

    /// A small, fast configuration for testing.
    pub fn fast() -> (c: AbstractionConfig)
        ensures
            c == (AbstractionConfig {
                flop_buckets: 100u16,
                turn_buckets: 50u16,
                river_buckets: 50u16,
                equity_samples: 100usize,
            }),
            c.wf(),
    {
        AbstractionConfig { flop_buckets: 100, turn_buckets: 50, river_buckets: 50, equity_samples: 100 }
    }

    /// A high-precision configuration.
    pub fn high_precision() -> (c: AbstractionConfig)
        ensures
            c == (AbstractionConfig {
                flop_buckets: 2048u16,
                turn_buckets: 512u16,
                river_buckets: 512u16,
                equity_samples: 1000usize,
            }),
            c.wf(),
    {
        AbstractionConfig {
            flop_buckets: 2048,
            turn_buckets: 512,
            river_buckets: 512,
            equity_samples: 1000,
        }
    }
}

/// The card abstraction: preflop hands map to their 169 classes, and
/// postflop hands to equity buckets.
#[derive(Debug, Clone, Copy, PartialEq, Eq, Structural)]
pub struct CardAbstraction {
    /// The bucket configuration.
    pub config: AbstractionConfig,
}

impl CardAbstraction {
    /// An abstraction with the default configuration.
    pub fn new() -> (r: CardAbstraction)
        ensures
            r.config == (AbstractionConfig {
                flop_buckets: 1024u16,
                turn_buckets: 256u16,
                river_buckets: 256u16,
                equity_samples: 500usize,
            }),
            r.config.wf(),
    {
        CardAbstraction { config: AbstractionConfig::new() }
    }

    /// An abstraction with the given configuration.
    pub fn with_config(config: AbstractionConfig) -> (r: CardAbstraction)
        ensures
            r.config == config,
    {
        CardAbstraction { config }
    }

    /// The bucket of a hand: the hand class before the flop, an
    /// equity bucket afterwards.  The bucket is always below the
    /// street's bucket count.
    pub fn get_bucket(&self, hole_cards: &HoleCards, board: &Board) -> (r: u16)
        requires
            self.config.wf(),
            hole_cards.wf(),
            board.wf(),
            board@.len() == 0 || board@.len() == 3 || board@.len() == 4 || board@.len() == 5,
        ensures
            board@.len() == 0 ==> r as int == spec_hand_class_index(
                hole_cards.card1.spec_rank(),
                hole_cards.card2.spec_rank(),
                hole_cards.card1.spec_suit() == hole_cards.card2.spec_suit(),
            ),
            board@.len() == 3 ==> r < self.config.flop_buckets,
            board@.len() == 4 ==> r < self.config.turn_buckets,
            board@.len() == 5 ==> r < self.config.river_buckets,
    {
        let n: usize = board.len();
        if n == 0 {
            self.preflop_bucket(hole_cards)
        } else if n == 3 {
            self.postflop_bucket(hole_cards, board, self.config.flop_buckets)
        } else if n == 4 {
            self.postflop_bucket(hole_cards, board, self.config.turn_buckets)
        } else {
            self.postflop_bucket(hole_cards, board, self.config.river_buckets)
        }
    }

    /// The preflop bucket: the hand's class index (0-168).
    pub fn preflop_bucket(&self, hole_cards: &HoleCards) -> (r: u16)
        requires
            hole_cards.wf(),
        ensures
            r as int == spec_hand_class_index(
                hole_cards.card1.spec_rank(),
                hole_cards.card2.spec_rank(),
                hole_cards.card1.spec_suit() == hole_cards.card2.spec_suit(),
            ),
            r < 169,
    {
        hole_cards.hand_class_index() as u16
    }

    /// The postflop bucket: the estimated equity against a random
    /// hand, mapped onto `num_buckets` slots.
    fn postflop_bucket(&self, hole_cards: &HoleCards, board: &Board, num_buckets: u16) -> (r: u16)
        requires
            self.config.wf(),
            hole_cards.wf(),
            board.wf(),
            num_buckets >= 1,
        ensures
            r < num_buckets,
    {
        let equity: u64 = crate::hand_eval::calculate_equity_vs_random(
            hole_cards,
            board,
            self.config.equity_samples,
        );
        // Map the fixed-point equity onto the buckets.
        proof {
            assert(equity as int * num_buckets as int <= PROB_ONE as int * 65536)
                by (nonlinear_arith)
                requires
                    equity <= PROB_ONE,
                    num_buckets <= 65535;
        }
        let wide: u64 = equity * (num_buckets as u64) / PROB_ONE;
        proof {
            vstd::arithmetic::mul::lemma_mul_inequality(
                equity as int,
                PROB_ONE as int,
                num_buckets as int,
            );
            assert(equity as int * num_buckets as int == num_buckets as int * equity as int)
                by (nonlinear_arith);
            assert(PROB_ONE as int * num_buckets as int == num_buckets as int * PROB_ONE as int)
                by (nonlinear_arith);
            vstd::arithmetic::div_mod::lemma_div_is_ordered(
                equity as int * num_buckets as int,
                PROB_ONE as int * num_buckets as int,
                PROB_ONE as int,
            );
            vstd::arithmetic::div_mod::lemma_div_multiples_vanish(
                num_buckets as int,
                PROB_ONE as int,
            );
            vstd::arithmetic::div_mod::lemma_div_pos_is_pos(
                equity as int * num_buckets as int,
                PROB_ONE as int,
            );
            assert(equity as int * num_buckets as int >= 0) by (nonlinear_arith)
                requires
                    equity >= 0,
                    num_buckets >= 0;
        }
        let bucket: u16 = wide as u16;
        if bucket >= num_buckets {
            num_buckets - 1
        } else {
            bucket
        }
    }

    /// The number of buckets a street uses.
    pub fn num_buckets(&self, street: Street) -> (r: u16)
        ensures
            r == match street {
                Street::Preflop => 169u16,
                Street::Flop => self.config.flop_buckets,
                Street::Turn => self.config.turn_buckets,
                Street::River => self.config.river_buckets,
                Street::Showdown => self.config.river_buckets,
            },
    {
        match street {
            Street::Preflop => 169,
            Street::Flop => self.config.flop_buckets,
            Street::Turn => self.config.turn_buckets,
            Street::River => self.config.river_buckets,
            Street::Showdown => self.config.river_buckets,
        }
    }

    /// The information-set key fragment of a hand: `S`, the street
    /// digit, `B`, the bucket in decimal.  Before the flop the bucket
    /// is exactly the hand class; on a dealt board it is the hand's
    /// equity bucket, below the street's bucket count.
    pub fn bucket_key(&self, hole_cards: &HoleCards, board: &Board) -> (r: String)
        requires
            self.config.wf(),
            hole_cards.wf(),
            board.wf(),
            board@.len() == 0 || board@.len() == 3 || board@.len() == 4 || board@.len() == 5,
        ensures
            board@.len() == 0 ==> r@ == spec_bucket_key(
                0,
                spec_hand_class_index(
                    hole_cards.card1.spec_rank(),
                    hole_cards.card2.spec_rank(),
                    hole_cards.card1.spec_suit() == hole_cards.card2.spec_suit(),
                ),
            ),
            board@.len() == 3 ==> exists|b: int|
                0 <= b < self.config.flop_buckets && r@ == #[trigger] spec_bucket_key(1, b),
            board@.len() == 4 ==> exists|b: int|
                0 <= b < self.config.turn_buckets && r@ == #[trigger] spec_bucket_key(2, b),
            board@.len() == 5 ==> exists|b: int|
                0 <= b < self.config.river_buckets && r@ == #[trigger] spec_bucket_key(3, b),
    {
        let bucket: u16 = self.get_bucket(hole_cards, board);
        let street = board.street();
        let street_idx: usize = street.index();
        proof {
            reveal_strlit("S");
            reveal_strlit("B");
        }
        let mut out = String::from_str("S");
        let d = digit_string(street_idx as u32);
        out.append(d.as_str());
        out.append("B");
        let digits = u32_to_string(bucket as u32);
        out.append(digits.as_str());
        proof {
            assert(out@ =~= spec_bucket_key(street_idx as int, bucket as int));
        }
        out
    }
}

/// The key fragment a street index and bucket produce: `S`, the
/// street digit, `B`, then the bucket in decimal.
pub open spec fn spec_bucket_key(street: int, bucket: int) -> Seq<char> {
    seq!['S', spec_digit_char(street), 'B'] + spec_decimal(bucket)
}

/// One of the 169 strategically distinct preflop hands: a rank pair
/// and whether the two cards share a suit.
#[derive(Debug, Clone, Copy, PartialEq, Eq, Structural)]
pub struct HandClass {
    /// The higher rank.
    pub rank1: u8,
    /// The lower (or equal) rank.
    pub rank2: u8,
    /// Whether the hand is suited; pairs are never suited.
    pub suited: bool,
}

impl HandClass {
    /// Well-formedness: ranks in range, ordered, and pairs unsuited.
    pub open spec fn wf(self) -> bool {
        &&& self.rank1 < 13
        &&& self.rank2 <= self.rank1
        &&& (self.rank1 == self.rank2 ==> !self.suited)
    }

    /// The class's index (0-168): pairs first, then suited hands,
    /// then offsuit hands.
    pub open spec fn spec_index(self) -> int {
        spec_hand_class_index(self.rank1 as int, self.rank2 as int, self.suited)
    }

    /// The class with the given index.
    pub fn from_index(index: u8) -> (r: HandClass)
        requires
            index < 169,
        ensures
            r.wf(),
            r.spec_index() == index as int,
            index < 13 ==> r.rank1 == r.rank2,
            13 <= index < 91 ==> r.suited && r.rank1 > r.rank2,
            91 <= index ==> !r.suited && r.rank1 > r.rank2,
    {
        if index < 13 {
            HandClass { rank1: index, rank2: index, suited: false }
        } else if index < 91 {
            let (r1, r2) = decode_triangular(index - 13);
            HandClass { rank1: r1, rank2: r2, suited: true }
        } else {
            let (r1, r2) = decode_triangular(index - 91);
            HandClass { rank1: r1, rank2: r2, suited: false }
        }
    }

    /// The class's index (0-168).
    pub fn index(&self) -> (r: u8)
        requires
            self.wf(),
        ensures
            r as int == self.spec_index(),
            r < 169,
    {
        if self.rank1 == self.rank2 {
            self.rank1
        } else if self.suited {
            13 + triangular_index(self.rank1, self.rank2)
        } else {
            91 + triangular_index(self.rank1, self.rank2)
        }
    }

    /// The class's display text: the two rank characters, with `s`
    /// or `o` appended for non-pairs.
    pub fn to_string(&self) -> (r: String)
        requires
            self.wf(),
        ensures
            self.rank1 == self.rank2 ==> r@ == seq![
                spec_rank_char(self.rank1 as int),
                spec_rank_char(self.rank2 as int),
            ],
            self.rank1 != self.rank2 ==> r@ == seq![
                spec_rank_char(self.rank1 as int),
                spec_rank_char(self.rank2 as int),
                if self.suited {
                    's'
                } else {
                    'o'
                },
            ],
    {
        let mut out = char_to_string(rank_char_of(self.rank1));
        let second = char_to_string(rank_char_of(self.rank2));
        out.append(second.as_str());
        if self.rank1 != self.rank2 {
            let suffix = char_to_string(
                if self.suited {
                    's'
                } else {
                    'o'
                },
            );
            out.append(suffix.as_str());
            proof {
                assert(out@ =~= seq![
                    spec_rank_char(self.rank1 as int),
                    spec_rank_char(self.rank2 as int),
                    if self.suited {
                        's'
                    } else {
                        'o'
                    },
                ]);
            }
        } else {
            proof {
                assert(out@ =~= seq![
                    spec_rank_char(self.rank1 as int),
                    spec_rank_char(self.rank2 as int),
                ]);
            }
        }
        out
    }

    /// How many concrete card pairs the class covers: six for a pair,
    /// four suited, twelve offsuit.
    pub fn num_combos(&self) -> (r: u8)
        ensures
            r as int == self.spec_num_combos(),
    {
        if self.rank1 == self.rank2 {
            6
        } else if self.suited {
            4
        } else {
            12
        }
    }

    /// The class's combo count, in spec form.
    pub open spec fn spec_num_combos(self) -> int {
        if self.rank1 == self.rank2 {
            6
        } else if self.suited {
            4
        } else {
            12
        }
    }

    /// The concrete card pair of this class with the given suits.
    pub open spec fn spec_combo(self, s1: int, s2: int) -> HoleCards {
        HoleCards {
            card1: Card { id: (self.rank1 * 4 + s1) as u8 },
            card2: Card { id: (self.rank2 * 4 + s2) as u8 },
        }
    }

    /// Every concrete card pair of this class, in enumeration order:
    /// six suit pairs for a pair, the four matching suits when suited,
    /// and the twelve ordered suit pairs offsuit.
    pub open spec fn spec_combos(self) -> Seq<HoleCards> {
        if self.rank1 == self.rank2 {
            seq![
                self.spec_combo(0, 1),
                self.spec_combo(0, 2),
                self.spec_combo(0, 3),
                self.spec_combo(1, 2),
                self.spec_combo(1, 3),
                self.spec_combo(2, 3),
            ]
        } else if self.suited {
            seq![
                self.spec_combo(0, 0),
                self.spec_combo(1, 1),
                self.spec_combo(2, 2),
                self.spec_combo(3, 3),
            ]
        } else {
            seq![
                self.spec_combo(0, 1),
                self.spec_combo(0, 2),
                self.spec_combo(0, 3),
                self.spec_combo(1, 0),
                self.spec_combo(1, 2),
                self.spec_combo(1, 3),
                self.spec_combo(2, 0),
                self.spec_combo(2, 1),
                self.spec_combo(2, 3),
                self.spec_combo(3, 0),
                self.spec_combo(3, 1),
                self.spec_combo(3, 2),
            ]
        }
    }

    /// Every concrete card pair of this class: exactly the class's
    /// combo list, each a well-formed hand of this class's ranks and
    /// suitedness.
    pub fn enumerate_combos(&self) -> (r: Vec<HoleCards>)
        requires
            self.wf(),
        ensures
            r@ == self.spec_combos(),
            r@.len() == self.spec_num_combos(),
            forall|i: int|
                0 <= i < r@.len() ==> {
                    let h = #[trigger] r@[i];
                    &&& h.wf()
                    &&& h.card1.spec_rank() == self.rank1 as int
                    &&& h.card2.spec_rank() == self.rank2 as int
                    &&& (h.card1.spec_suit() == h.card2.spec_suit()) == (self.suited || self.rank1
                        == self.rank2 && h.card1.spec_suit() == h.card2.spec_suit())
                },
    {
        let mut combos: Vec<HoleCards> = Vec::new();
        if self.rank1 == self.rank2 {
            let mut s1: u8 = 0;
            while s1 < 4
                invariant
                    s1 <= 4,
                    self.wf(),
                    self.rank1 == self.rank2,
                    combos@.len() == spec_pair_combos_before(s1 as int),
                    combos@ =~= self.spec_combos().subrange(0, combos@.len() as int),
                    forall|i: int|
                        0 <= i < combos@.len() ==> {
                            let h = #[trigger] combos@[i];
                            &&& h.wf()
                            &&& h.card1.spec_rank() == self.rank1 as int
                            &&& h.card2.spec_rank() == self.rank2 as int
                        },
                decreases 4 - s1,
            {
                let mut s2: u8 = s1 + 1;
                while s2 < 4
                    invariant
                        s1 < 4,
                        s1 + 1 <= s2 <= 4,
                        self.wf(),
                        self.rank1 == self.rank2,
                        combos@.len() == spec_pair_combos_before(s1 as int) + (s2 - s1 - 1),
                        combos@ =~= self.spec_combos().subrange(0, combos@.len() as int),
                        forall|i: int|
                            0 <= i < combos@.len() ==> {
                                let h = #[trigger] combos@[i];
                                &&& h.wf()
                                &&& h.card1.spec_rank() == self.rank1 as int
                                &&& h.card2.spec_rank() == self.rank2 as int
                            },
                    decreases 4 - s2,
                {
                    let c1 = Card::new(self.rank1, s1);
                    let c2 = Card::new(self.rank2, s2);
                    combos.push(HoleCards::new(c1, c2));
                    proof {
                        assert(combos@.last() == self.spec_combo(s1 as int, s2 as int));
                        assert(combos@ =~= self.spec_combos().subrange(0, combos@.len() as int));
                    }
                    s2 = s2 + 1;
                }
                s1 = s1 + 1;
            }
            proof {
                assert(combos@.len() == 6);
                assert(combos@ =~= self.spec_combos());
            }
        } else if self.suited {
            let mut suit: u8 = 0;
            while suit < 4
                invariant
                    suit <= 4,
                    self.wf(),
                    self.rank1 != self.rank2,
                    self.suited,
                    combos@.len() == suit,
                    combos@ =~= self.spec_combos().subrange(0, combos@.len() as int),
                    forall|i: int|
                        0 <= i < combos@.len() ==> {
                            let h = #[trigger] combos@[i];
                            &&& h.wf()
                            &&& h.card1.spec_rank() == self.rank1 as int
                            &&& h.card2.spec_rank() == self.rank2 as int
                            &&& h.card1.spec_suit() == h.card2.spec_suit()
                        },
                decreases 4 - suit,
            {
                let c1 = Card::new(self.rank1, suit);
                let c2 = Card::new(self.rank2, suit);
                combos.push(HoleCards::new(c1, c2));
                proof {
                    assert(combos@.last() == self.spec_combo(suit as int, suit as int));
                    assert(combos@ =~= self.spec_combos().subrange(0, combos@.len() as int));
                }
                suit = suit + 1;
            }
            proof {
                assert(combos@ =~= self.spec_combos());
            }
        } else {
            let mut s1: u8 = 0;
            while s1 < 4
                invariant
                    s1 <= 4,
                    self.wf(),
                    self.rank1 != self.rank2,
                    !self.suited,
                    combos@.len() == s1 as int * 3,
                    combos@ =~= self.spec_combos().subrange(0, combos@.len() as int),
                    forall|i: int|
                        0 <= i < combos@.len() ==> {
                            let h = #[trigger] combos@[i];
                            &&& h.wf()
                            &&& h.card1.spec_rank() == self.rank1 as int
                            &&& h.card2.spec_rank() == self.rank2 as int
                            &&& h.card1.spec_suit() != h.card2.spec_suit()
                        },
                decreases 4 - s1,
            {
                let mut s2: u8 = 0;
                let ghost added0 = combos@.len();
                while s2 < 4
                    invariant
                        s1 < 4,
                        s2 <= 4,
                        self.wf(),
                        self.rank1 != self.rank2,
                        !self.suited,
                        added0 == s1 as int * 3,
                        combos@.len() == added0 + (if s2 as int <= s1 as int {
                            s2 as int
                        } else {
                            s2 as int - 1
                        }),
                        combos@ =~= self.spec_combos().subrange(0, combos@.len() as int),
                        forall|i: int|
                            0 <= i < combos@.len() ==> {
                                let h = #[trigger] combos@[i];
                                &&& h.wf()
                                &&& h.card1.spec_rank() == self.rank1 as int
                                &&& h.card2.spec_rank() == self.rank2 as int
                                &&& h.card1.spec_suit() != h.card2.spec_suit()
                            },
                    decreases 4 - s2,
                {
                    if s1 != s2 {
                        let c1 = Card::new(self.rank1, s1);
                        let c2 = Card::new(self.rank2, s2);
                        combos.push(HoleCards::new(c1, c2));
                        proof {
                            assert(combos@.last() == self.spec_combo(s1 as int, s2 as int));
                            assert(combos@ =~= self.spec_combos().subrange(
                                0,
                                combos@.len() as int,
                            ));
                        }
                    }
                    s2 = s2 + 1;
                }
                proof {
                    assert((s1 as int + 1) * 3 == s1 as int * 3 + 3) by (nonlinear_arith);
                }
                s1 = s1 + 1;
            }
            proof {
                assert(combos@.len() == 12);
                assert(combos@ =~= self.spec_combos());
            }
        }
        combos
    }

    /// Combos that share no card with the given blockers: exactly the
    /// number of this class's combos that avoid every blocker.
    pub fn count_unblocked_combos(&self, blockers: &[Card]) -> (r: u8)
        requires
            self.wf(),
        ensures
            r as int == spec_unblocked_count(self.spec_combos(), blockers@),
            r as int <= self.spec_num_combos(),
    {
        let combos = self.enumerate_combos();
        let n: usize = combos.len();
        let mut count: u8 = 0;
        let mut i: usize = 0;
        proof {
            assert(combos@.subrange(0, 0) =~= Seq::<HoleCards>::empty());
        }
        while i < n
            invariant
                i <= n,
                n == combos@.len(),
                n <= 12,
                combos@ == self.spec_combos(),
                count as int == spec_unblocked_count(combos@.subrange(0, i as int), blockers@),
                count <= i,
            decreases n - i,
        {
            let h = combos[i];
            proof {
                assert(combos@.subrange(0, i + 1).drop_last() =~= combos@.subrange(0, i as int));
                assert(combos@.subrange(0, i + 1).last() == combos@[i as int]);
            }
            if !slice_blocks(blockers, &h) {
                count = count + 1;
            }
            i = i + 1;
        }
        proof {
            assert(combos@.subrange(0, n as int) =~= combos@);
        }
        count
    }
}

/// How a blocker list blocks a hand: some blocker is one of its two
/// cards.
pub open spec fn spec_hand_blocked(h: HoleCards, blockers: Seq<Card>) -> bool {
    exists|i: int|
        0 <= i < blockers.len() && ((#[trigger] blockers[i]).spec_id() == h.card1.spec_id()
            || blockers[i].spec_id() == h.card2.spec_id())
}

/// Number of combos in a list that no blocker touches.
pub open spec fn spec_unblocked_count(combos: Seq<HoleCards>, blockers: Seq<Card>) -> int
    decreases combos.len(),
{
    if combos.len() == 0 {
        0
    } else {
        spec_unblocked_count(combos.drop_last(), blockers) + if spec_hand_blocked(
            combos.last(),
            blockers,
        ) {
            0int
        } else {
            1int
        }
    }
}

/// Number of pair combos produced by the suit loops up to `s1`.
pub open spec fn spec_pair_combos_before(s1: int) -> int {
    if s1 <= 0 {
        0
    } else if s1 == 1 {
        3
    } else if s1 == 2 {
        5
    } else if s1 == 3 {
        6
    } else {
        6
    }
}

/// Whether a blocker list holds one of a hand's two cards.
fn slice_blocks(blockers: &[Card], h: &HoleCards) -> (r: bool)
    ensures
        r == spec_hand_blocked(*h, blockers@),
{
    let n: usize = blockers.len();
    let mut i: usize = 0;
    while i < n
        invariant
            i <= n,
            n == blockers@.len(),
            forall|j: int|
                0 <= j < i ==> (#[trigger] blockers@[j]).spec_id() != h.card1.spec_id()
                    && blockers@[j].spec_id() != h.card2.spec_id(),
        decreases n - i,
    {
        if h.contains(blockers[i]) {
            return true;
        }
        i = i + 1;
    }
    false
}

/// Decode a triangular index below 78 into two ranks `r1 > r2`.
fn decode_triangular(idx: u8) -> (r: (u8, u8))
    requires
        idx < 78,
    ensures
        r.1 < r.0 < 13,
        spec_triangular(r.0 as int, r.1 as int) == idx as int,
{
    let mut r1: u8 = 1;
    let mut remaining: u8 = idx;
    while remaining >= r1
        invariant
            1 <= r1 <= 13,
            spec_triangular(r1 as int, remaining as int) == idx as int,
            r1 as int * (r1 as int - 1) / 2 <= idx as int,
            idx < 78,
        decreases remaining,
    {
        proof {
            assert((r1 as int + 1) * (r1 as int) / 2 == r1 as int * (r1 as int - 1) / 2
                + r1 as int) by (nonlinear_arith);
            assert(r1 <= 12) by {
                if r1 >= 13 {
                    assert((r1 as int + 1) * (r1 as int) / 2 >= 91) by (nonlinear_arith)
                        requires
                            r1 >= 13;
                }
            }
        }
        remaining = remaining - r1;
        r1 = r1 + 1;
        proof {
            assert(r1 as int * (r1 as int - 1) / 2 <= idx as int);
        }
    }
    proof {
        assert(r1 < 13) by {
            if r1 >= 13 {
                assert(r1 as int * (r1 as int - 1) / 2 >= 78) by (nonlinear_arith)
                    requires
                        r1 >= 13;
            }
        }
    }
    (r1, remaining)
}

/// A walker over the 169 hand classes, in index order.
#[derive(Debug, Clone, Copy, PartialEq, Eq, Structural)]
pub struct HandClassIter {
    /// The next class index to hand out.
    pub index: u8,
}

impl HandClassIter {
    /// Start at the first class.
    pub fn new() -> (r: HandClassIter)
        ensures
            r.index == 0,
    {
        HandClassIter { index: 0 }
    }

    /// The next class, or `None` after all 169.
    pub fn next(&mut self) -> (r: Option<HandClass>)
        ensures
            match r {
                Some(hc) => {
                    &&& old(self).index < 169
                    &&& hc.wf()
                    &&& hc.spec_index() == old(self).index as int
                    &&& final(self).index == old(self).index + 1
                },
                None => old(self).index >= 169 && final(self).index == old(self).index,
            },
    {
        if self.index < 169 {
            let hc = HandClass::from_index(self.index);
            self.index = self.index + 1;
            Some(hc)
        } else {
            None
        }
    }
}

} // verus!
