//! Kuhn poker: the classic three-card validation game.
//!
//! Three cards (0, 1, 2), two players, each antes one chip; the first
//! player may pass or bet one chip, the second responds, and after a
//! pass-bet the first player responds once more.  The higher card wins
//! at showdown.  Payoffs are fixed-point: one chip is
//! [`crate::fixed::PROB_ONE`] units.

use vstd::prelude::*;

use crate::fixed::PROB_ONE;
use crate::game::{Action, Game, GameState, InfoState};

verus! {

/// An action in Kuhn poker.
#[derive(Debug, Clone, Copy, PartialEq, Eq, Structural, Hash)]
pub enum KuhnAction {
    /// Pass: check when unchallenged, fold when facing a bet.
    Pass,
    /// Bet: open the betting, or call when facing a bet.
    Bet,
}

impl Action for KuhnAction {
    fn to_string(&self) -> (r: String)
        ensures
            r@ == match self {
                KuhnAction::Pass => seq!['p'],
                KuhnAction::Bet => seq!['b'],
            },
    {
        match self {
            KuhnAction::Pass => kuhn_char_string('p'),
            KuhnAction::Bet => kuhn_char_string('b'),
        }
    }
}

/// A one-character string from Kuhn poker's alphabet.
fn kuhn_char_string(c: char) -> (r: String)
    requires
        c == 'p' || c == 'b' || c == '0' || c == '1' || c == '2' || c == ':',
    ensures
        r@ == seq![c],
{
    let s: &str = if c == 'p' {
        "p"
    } else if c == 'b' {
        "b"
    } else if c == '0' {
        "0"
    } else if c == '1' {
        "1"
    } else if c == '2' {
        "2"
    } else {
        ":"
    };
    proof {
        reveal_strlit("p");
        reveal_strlit("b");
        reveal_strlit("0");
        reveal_strlit("1");
        reveal_strlit("2");
        reveal_strlit(":");
        assert(s@ =~= seq![c]);
    }
    String::from_str(s)
}

/// What a Kuhn player knows: their card and the action history.
#[derive(Debug, Clone, PartialEq, Eq, Hash)]
pub struct KuhnInfoState {
    /// The player's card (0, 1 or 2).
    pub card: u8,
    /// The action history, one character per action.
    pub history: String,
}

/// The storage key of a Kuhn information state: the card digit, a
/// colon, then the history.
pub open spec fn spec_kuhn_key(card: int, history: Seq<char>) -> Seq<char> {
    seq![spec_card_digit(card), ':'] + history
}

/// The digit character of a Kuhn card.
pub open spec fn spec_card_digit(card: int) -> char {
    if card == 0 {
        '0'
    } else if card == 1 {
        '1'
    } else {
        '2'
    }
}

impl InfoState for KuhnInfoState {
    fn key(&self) -> (r: String)
        ensures
            self.card < 3 ==> r@ == spec_kuhn_key(self.card as int, self.history@),
    {
        let digit: char = if self.card == 0 {
            '0'
        } else if self.card == 1 {
            '1'
        } else {
            '2'
        };
        let mut out = kuhn_char_string(digit);
        let colon = kuhn_char_string(':');
        out.append(colon.as_str());
        out.append(self.history.as_str());
        proof {
            if self.card < 3 {
                assert(out@ =~= spec_kuhn_key(self.card as int, self.history@));
            }
        }
        out
    }
}

/// The complete state of a Kuhn poker hand.
#[derive(Debug, Clone, PartialEq, Eq)]
pub struct KuhnState {
    /// The card of each player.
    pub cards: [u8; 2],
    /// The action history, one character per action.
    pub history: String,
    /// Each player's investment in the pot.
    pub pot: [i32; 2],
    /// Whether the cards have been dealt.
    pub dealt: bool,
}

impl GameState for KuhnState {

}

/// The views of the short history literals, for use at call sites.
proof fn lemma_kuhn_literals()
    ensures
        "p"@ =~= seq!['p'],
        "b"@ =~= seq!['b'],
        "pp"@ =~= seq!['p', 'p'],
        "pb"@ =~= seq!['p', 'b'],
        "bp"@ =~= seq!['b', 'p'],
        "bb"@ =~= seq!['b', 'b'],
        "pbp"@ =~= seq!['p', 'b', 'p'],
        "pbb"@ =~= seq!['p', 'b', 'b'],
{
    reveal_strlit("p");
    reveal_strlit("b");
    reveal_strlit("pp");
    reveal_strlit("pb");
    reveal_strlit("bp");
    reveal_strlit("bb");
    reveal_strlit("pbp");
    reveal_strlit("pbb");
}

/// The valid decision histories of Kuhn poker.
pub open spec fn spec_decision_history(h: Seq<char>) -> bool {
    ||| h =~= Seq::<char>::empty()
    ||| h =~= seq!['p']
    ||| h =~= seq!['b']
    ||| h =~= seq!['p', 'b']
}

/// The terminal histories of Kuhn poker.
pub open spec fn spec_terminal_history(h: Seq<char>) -> bool {
    ||| h =~= seq!['p', 'p']
    ||| h =~= seq!['p', 'b', 'p']
    ||| h =~= seq!['p', 'b', 'b']
    ||| h =~= seq!['b', 'p']
    ||| h =~= seq!['b', 'b']
}

/// The states Kuhn poker can reach: valid cards, an undealt state has
/// no history, and the history is a valid line of play.
pub open spec fn spec_kuhn_ok(s: KuhnState) -> bool {
    &&& s.cards[0] < 3
    &&& s.cards[1] < 3
    &&& (!s.dealt ==> s.history@ =~= Seq::<char>::empty())
    &&& (spec_decision_history(s.history@) || spec_terminal_history(s.history@))
}

impl KuhnState {
    /// The state before the deal: empty history, both antes posted.
    pub fn initial() -> (s: KuhnState)
        ensures
            spec_kuhn_ok(s),
            !s.dealt,
            s.history@ =~= Seq::<char>::empty(),
            s.pot[0] == 1 && s.pot[1] == 1,
            s.cards[0] == 0 && s.cards[1] == 0,
    {
        KuhnState { cards: [0, 0], history: String::new(), pot: [1, 1], dealt: false }
    }
}

/// The Kuhn poker game.
#[derive(Debug, Clone)]
pub struct KuhnPoker {

}

impl KuhnPoker {
    /// Create the game.
    pub fn new() -> (g: KuhnPoker)
        ensures
            g == (KuhnPoker {  }),
    {
        KuhnPoker {  }
    }

    /// A card's name for display.
    pub fn card_name(card: u8) -> (r: &'static str)
        ensures
            card == 0 ==> r@ == "Jack"@,
            card == 1 ==> r@ == "Queen"@,
            card == 2 ==> r@ == "King"@,
            card >= 3 ==> r@ == "Unknown"@,
    {
        match card {
            0 => "Jack",
            1 => "Queen",
            2 => "King",
            _ => "Unknown",
        }
    }

    /// Player 0's payoff at a terminal history, in fixed-point units.
    /// Pass-pass and bet-call go to showdown for one or two chips; a
    /// fold hands one chip to the other player.
    pub open spec fn spec_payoff_p0(s: KuhnState) -> int {
        let h = s.history@;
        let one = PROB_ONE as int;
        if h =~= seq!['p', 'p'] {
            if s.cards[0] > s.cards[1] {
                one
            } else {
                -one
            }
        } else if h =~= seq!['b', 'p'] {
            one
        } else if h =~= seq!['p', 'b', 'p'] {
            -one
        } else if h =~= seq!['b', 'b'] || h =~= seq!['p', 'b', 'b'] {
            if s.cards[0] > s.cards[1] {
                2 * one
            } else {
                -2 * one
            }
        } else {
            0
        }
    }

    /// Compare a state's history to a short pattern.
    fn history_is(s: &KuhnState, pattern: &str) -> (r: bool)
        ensures
            r == (s.history@ == pattern@),
    {
        crate::storage::str_eq(s.history.as_str(), pattern)
    }
}

impl Game for KuhnPoker {
    type State = KuhnState;

    type Action = KuhnAction;

    type InfoState = KuhnInfoState;

    open spec fn spec_num_players(&self) -> int {
        2
    }

    open spec fn spec_state_ok(&self, s: KuhnState) -> bool {
        spec_kuhn_ok(s)
    }

    open spec fn spec_is_initial(&self, s: KuhnState) -> bool {
        &&& !s.dealt
        &&& s.history@ =~= Seq::<char>::empty()
        &&& s.pot[0] == 1 && s.pot[1] == 1
        &&& s.cards[0] == 0 && s.cards[1] == 0
    }

    open spec fn spec_payoff(&self, s: KuhnState, player: int) -> int {
        if player == 0 {
            KuhnPoker::spec_payoff_p0(s)
        } else {
            -KuhnPoker::spec_payoff_p0(s)
        }
    }

    open spec fn spec_is_terminal(&self, s: KuhnState) -> bool {
        spec_terminal_history(s.history@)
    }

    open spec fn spec_is_chance(&self, s: KuhnState) -> bool {
        !s.dealt
    }

    open spec fn spec_current_player(&self, s: KuhnState) -> Option<int> {
        if !s.dealt {
            None
        } else if s.history@ =~= Seq::<char>::empty() {
            Some(0)
        } else if s.history@ =~= seq!['p'] || s.history@ =~= seq!['b'] {
            Some(1)
        } else if s.history@ =~= seq!['p', 'b'] {
            Some(0)
        } else {
            None
        }
    }

    open spec fn spec_info_key(&self, s: KuhnState) -> Seq<char> {
        let p = match self.spec_current_player(s) {
            Some(p) => p,
            None => 0,
        };
        spec_kuhn_key(s.cards[if p == 1 {
            1int
        } else {
            0int
        }] as int, s.history@)
    }

    open spec fn spec_key_num_actions(&self, key: Seq<char>) -> nat {
        2
    }

    open spec fn spec_payoff_bound(&self) -> int {
        2 * PROB_ONE as int
    }

    open spec fn spec_measure(&self, s: KuhnState) -> nat {
        (((if s.dealt {
            4int
        } else {
            5int
        }) - (if s.history@.len() <= 4 {
            s.history@.len() as int
        } else {
            4int
        })) as nat)
    }

    fn num_players(&self) -> (n: usize) {
        2
    }

    fn initial_state(&self) -> (s: KuhnState) {
        KuhnState::initial()
    }

    fn is_terminal(&self, s: &KuhnState) -> (r: bool) {
        proof {
            lemma_kuhn_literals();
        }
        KuhnPoker::history_is(s, "pp") || KuhnPoker::history_is(s, "pbp") || KuhnPoker::history_is(
            s,
            "pbb",
        ) || KuhnPoker::history_is(s, "bp") || KuhnPoker::history_is(s, "bb")
    }

    fn is_chance(&self, s: &KuhnState) -> (r: bool) {
        !s.dealt
    }

    fn get_payoff(&self, s: &KuhnState, player: usize) -> (v: i64) {
        proof {
            lemma_kuhn_literals();
        }
        let one: i64 = PROB_ONE as i64;
        let p0: i64 = if KuhnPoker::history_is(s, "pp") {
            if s.cards[0] > s.cards[1] {
                one
            } else {
                -one
            }
        } else if KuhnPoker::history_is(s, "bp") {
            one
        } else if KuhnPoker::history_is(s, "pbp") {
            -one
        } else if KuhnPoker::history_is(s, "bb") || KuhnPoker::history_is(s, "pbb") {
            if s.cards[0] > s.cards[1] {
                2 * one
            } else {
                -2 * one
            }
        } else {
            0
        };
        proof {
            assert(p0 as int == KuhnPoker::spec_payoff_p0(*s));
        }
        if player == 0 {
            p0
        } else {
            -p0
        }
    }

    fn current_player(&self, s: &KuhnState) -> (r: Option<usize>) {
        if !s.dealt {
            return None;
        }
        proof {
            lemma_kuhn_literals();
        }
        if s.history.as_str().unicode_len() == 0 {
            proof {
                assert(s.history@ =~= Seq::<char>::empty());
            }
            Some(0)
        } else if KuhnPoker::history_is(s, "p") || KuhnPoker::history_is(s, "b") {
            Some(1)
        } else if KuhnPoker::history_is(s, "pb") {
            Some(0)
        } else {
            None
        }
    }

    fn available_actions(&self, s: &KuhnState) -> (acts: Vec<KuhnAction>)
        ensures
            !self.spec_is_terminal(*s) && !self.spec_is_chance(*s) ==> acts@ =~= seq![
                KuhnAction::Pass,
                KuhnAction::Bet,
            ],
            self.spec_is_terminal(*s) || self.spec_is_chance(*s) ==> acts@.len() == 0,
    {
        let mut acts: Vec<KuhnAction> = Vec::new();
        if self.is_terminal(s) || self.is_chance(s) {
            return acts;
        }
        acts.push(KuhnAction::Pass);
        acts.push(KuhnAction::Bet);
        acts
    }

    fn apply_action(&self, s: &KuhnState, a: &KuhnAction) -> (t: KuhnState)
        ensures
            t.cards == s.cards,
            t.dealt == s.dealt,
            t.history@ == s.history@ + match a {
                KuhnAction::Pass => seq!['p'],
                KuhnAction::Bet => seq!['b'],
            },
            ({
                let p = match self.spec_current_player(*s) {
                    Some(p) => p,
                    None => 0,
                };
                match a {
                    KuhnAction::Pass => t.pot == s.pot,
                    KuhnAction::Bet => {
                        &&& t.pot[1 - p] == s.pot[1 - p]
                        &&& t.pot[p] as int == (if s.pot[p] < i32::MAX {
                            s.pot[p] + 1
                        } else {
                            s.pot[p] as int
                        })
                    },
                }
            }),
    {
        proof {
            lemma_kuhn_literals();
        }
        let mut t = s.clone_state();
        match a {
            KuhnAction::Pass => {
                t.history.append("p");
                proof {
                    reveal_strlit("p");
                    assert("p"@ =~= seq!['p']);
                }
            },
            KuhnAction::Bet => {
                t.history.append("b");
                proof {
                    reveal_strlit("b");
                    assert("b"@ =~= seq!['b']);
                }
                let player = match self.current_player(s) {
                    Some(p) => p,
                    None => 0,
                };
                if player == 0 {
                    if t.pot[0] < i32::MAX {
                        t.pot[0] = t.pot[0] + 1;
                    }
                } else {
                    if t.pot[1] < i32::MAX {
                        t.pot[1] = t.pot[1] + 1;
                    }
                }
            },
        }
        proof {
            assert(spec_kuhn_ok(t));
            assert(self.spec_measure(t) < self.spec_measure(*s));
        }
        t
    }

    fn info_state(&self, s: &KuhnState) -> (r: KuhnInfoState)
        ensures
            ({
                let p = match self.spec_current_player(*s) {
                    Some(p) => p,
                    None => 0,
                };
                r.card == s.cards[if p == 1 {
                    1int
                } else {
                    0int
                }] && r.history@ == s.history@
            }),
    {
        let player: usize = match self.current_player(s) {
            Some(p) => p,
            None => 0,
        };
        KuhnInfoState {
            card: if player == 1 {
                s.cards[1]
            } else {
                s.cards[0]
            },
            history: clone_string(&s.history),
        }
    }

    fn info_key(&self, s: &KuhnState) -> (k: String) {
        let player: usize = match self.current_player(s) {
            Some(p) => p,
            None => 0,
        };
        let info = KuhnInfoState {
            card: if player == 1 {
                s.cards[1]
            } else {
                s.cards[0]
            },
            history: clone_string(&s.history),
        };
        let k = info.key();
        proof {
            assert(k@ == self.spec_info_key(*s));
        }
        k
    }

    fn sample_chance(&self, s: &KuhnState, rng: &mut rand::rngs::StdRng) -> (t: KuhnState)
        ensures
            t.dealt,
            t.history@ =~= Seq::<char>::empty(),
            t.pot[0] == 1 && t.pot[1] == 1,
            t.cards[0] < 3 && t.cards[1] < 3,
            t.cards[0] != t.cards[1],
    {
        // Deal two distinct cards out of three with two draws.
        let mut cards: [u8; 3] = [0, 1, 2];
        let j: usize = crate::rng::rng_below(rng, 3);
        let c0: u8 = cards[j];
        cards[j] = cards[2];
        let k: usize = crate::rng::rng_below(rng, 2);
        let c1: u8 = cards[k];
        KuhnState { cards: [c0, c1], history: String::new(), pot: [1, 1], dealt: true }
    }

    fn action_name(&self, a: &KuhnAction) -> (r: String) {
        proof {
            reveal_strlit("Pass");
            reveal_strlit("Bet");
        }
        match a {
            KuhnAction::Pass => String::from_str("Pass"),
            KuhnAction::Bet => String::from_str("Bet"),
        }
    }
}

impl KuhnState {
    /// A copy of the state.
    pub fn clone_state(&self) -> (t: KuhnState)
        ensures
            t.cards == self.cards,
            t.history@ == self.history@,
            t.pot == self.pot,
            t.dealt == self.dealt,
    {
        KuhnState {
            cards: [self.cards[0], self.cards[1]],
            history: clone_string(&self.history),
            pot: [self.pot[0], self.pot[1]],
            dealt: self.dealt,
        }
    }
}

/// A copy of a string with the same characters.
fn clone_string(s: &String) -> (r: String)
    ensures
        r@ == s@,
{
    s.clone()
}

} // verus!
