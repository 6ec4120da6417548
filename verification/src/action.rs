//! Poker betting actions and their short text codes.

use vstd::prelude::*;

use crate::game::Action;
use crate::text::{parse_u32, spec_all_digits, spec_decimal, spec_digits_value, u32_to_string};


verus! {

/// A poker betting action.  Bet and raise amounts are in hundredths of
/// a big blind.
#[derive(Debug, Clone, Copy, PartialEq, Eq, Structural, Hash)]
pub enum PokerAction {
    /// Fold, forfeiting any money invested.
    Fold,
    /// Check (pass when there is no bet to call).
    Check,
    /// Call the current bet.
    Call,
    /// Bet the given amount when nobody has bet this street.
    Bet(u32),
    /// Raise to the given amount when facing a bet.
    Raise(u32),
    /// Put in all remaining chips.
    AllIn,
}

/// What a short code denotes, in full: one of the plain letters, or
/// `B`/`R` followed by one or more digits whose value fits 32 bits;
/// everything else denotes nothing.
pub open spec fn spec_parse_code(s: Seq<char>) -> Option<PokerAction> {
    if s =~= seq!['F'] {
        Some(PokerAction::Fold)
    } else if s =~= seq!['X'] {
        Some(PokerAction::Check)
    } else if s =~= seq!['C'] {
        Some(PokerAction::Call)
    } else if s =~= seq!['A'] {
        Some(PokerAction::AllIn)
    } else if s.len() >= 2 && s[0] == 'B' && spec_all_digits(s.skip(1)) && spec_digits_value(
        s.skip(1),
    ) <= u32::MAX as int {
        Some(PokerAction::Bet(spec_digits_value(s.skip(1)) as u32))
    } else if s.len() >= 2 && s[0] == 'R' && spec_all_digits(s.skip(1)) && spec_digits_value(
        s.skip(1),
    ) <= u32::MAX as int {
        Some(PokerAction::Raise(spec_digits_value(s.skip(1)) as u32))
    } else {
        None
    }
}

/// The short code of an action: one letter, with the amount appended
/// for bets and raises.
pub open spec fn spec_short_code(a: PokerAction) -> Seq<char> {
    match a {
        PokerAction::Fold => seq!['F'],
        PokerAction::Check => seq!['X'],
        PokerAction::Call => seq!['C'],
        PokerAction::Bet(amt) => seq!['B'] + spec_decimal(amt as int),
        PokerAction::Raise(amt) => seq!['R'] + spec_decimal(amt as int),
        PokerAction::AllIn => seq!['A'],
    }
}

impl PokerAction {
    /// Whether this action voluntarily puts money in.
    pub fn is_aggressive(&self) -> (r: bool)
        ensures
            r == (self matches PokerAction::Bet(_) || self matches PokerAction::Raise(_)
                || self matches PokerAction::AllIn),
    {
        match self {
            PokerAction::Bet(_) => true,
            PokerAction::Raise(_) => true,
            PokerAction::AllIn => true,
            _ => false,
        }
    }

    /// Whether this is a fold.
    pub fn is_fold(&self) -> (r: bool)
        ensures
            r == (self matches PokerAction::Fold),
    {
        match self {
            PokerAction::Fold => true,
            _ => false,
        }
    }

    /// Whether this is a check.
    pub fn is_check(&self) -> (r: bool)
        ensures
            r == (self matches PokerAction::Check),
    {
        match self {
            PokerAction::Check => true,
            _ => false,
        }
    }

    /// Whether this is a call.
    pub fn is_call(&self) -> (r: bool)
        ensures
            r == (self matches PokerAction::Call),
    {
        match self {
            PokerAction::Call => true,
            _ => false,
        }
    }

    /// Whether this puts the whole stack in.
    pub fn is_allin(&self) -> (r: bool)
        ensures
            r == (self matches PokerAction::AllIn),
    {
        match self {
            PokerAction::AllIn => true,
            _ => false,
        }
    }

    /// The bet or raise amount, if the action carries one.
    pub fn amount(&self) -> (r: Option<u32>)
        ensures
            r == match self {
                PokerAction::Bet(amt) => Some(*amt),
                PokerAction::Raise(amt) => Some(*amt),
                _ => None::<u32>,
            },
    {
        match self {
            PokerAction::Bet(amt) => Some(*amt),
            PokerAction::Raise(amt) => Some(*amt),
            _ => None,
        }
    }

    /// The action's short code, used in information-set keys.
    pub fn short_code(&self) -> (r: String)
        ensures
            r@ == spec_short_code(*self),
    {
        proof {
            reveal_strlit("F");
            reveal_strlit("X");
            reveal_strlit("C");
            reveal_strlit("A");
            reveal_strlit("B");
            reveal_strlit("R");
        }
        match self {
            PokerAction::Fold => String::from_str("F"),
            PokerAction::Check => String::from_str("X"),
            PokerAction::Call => String::from_str("C"),
            PokerAction::AllIn => String::from_str("A"),
            PokerAction::Bet(amt) => {
                let mut out = String::from_str("B");
                let digits = u32_to_string(*amt);
                out.append(digits.as_str());
                proof {
                    assert(out@ =~= spec_short_code(*self));
                }
                out
            },
            PokerAction::Raise(amt) => {
                let mut out = String::from_str("R");
                let digits = u32_to_string(*amt);
                out.append(digits.as_str());
                proof {
                    assert(out@ =~= spec_short_code(*self));
                }
                out
            },
        }
    }

    /// Parse an action from its short code: exactly the codes the
    /// denotation above accepts, and nothing else.
    pub fn from_short_code(code: &str) -> (r: Option<PokerAction>)
        ensures
            r == spec_parse_code(code@),
    {
        let n: usize = code.unicode_len();
        if n == 0 {
            return None;
        }
        let c0: char = code.get_char(0);
        if c0 == 'F' || c0 == 'X' || c0 == 'C' || c0 == 'A' {
            if n != 1 {
                return None;
            }
            proof {
                assert(code@ =~= seq![c0]);
            }
            if c0 == 'F' {
                Some(PokerAction::Fold)
            } else if c0 == 'X' {
                Some(PokerAction::Check)
            } else if c0 == 'C' {
                Some(PokerAction::Call)
            } else {
                Some(PokerAction::AllIn)
            }
        } else if c0 == 'B' || c0 == 'R' {
            let rest: &str = code.substring_char(1, n);
            let amt: u32 = match parse_u32(rest) {
                Some(v) => v,
                None => {
                    return None;
                },
            };
            proof {
                assert(rest@ =~= code@.skip(1));
            }
            if c0 == 'B' {
                Some(PokerAction::Bet(amt))
            } else {
                Some(PokerAction::Raise(amt))
            }
        } else {
            None
        }
    }
}

impl Action for PokerAction {
    fn to_string(&self) -> String {
        self.short_code()
    }
}

/// Printing an action's short code and parsing it back returns the
/// same action: the code round-trips.
pub proof fn lemma_short_code_roundtrip(a: PokerAction)
    ensures
        spec_parse_code(spec_short_code(a)) == Some(a),
{
    match a {
        PokerAction::Bet(amt) => {
            crate::text::lemma_decimal_value(amt as int);
            let s = seq!['B'] + spec_decimal(amt as int);
            assert(spec_short_code(a) == s);
            assert(s.len() >= 2);
            assert(s[0] == 'B');
            assert(s.skip(1) =~= spec_decimal(amt as int));
            assert(s.skip(1) == spec_decimal(amt as int));
            assert(spec_all_digits(s.skip(1)));
            assert(spec_digits_value(s.skip(1)) == amt as int);
            assert(!(s =~= seq!['F']) && !(s =~= seq!['X']) && !(s =~= seq!['C']) && !(s =~= seq![
                'A',
            ]));
            assert(spec_parse_code(s) == Some(PokerAction::Bet(amt)));
        },
        PokerAction::Raise(amt) => {
            crate::text::lemma_decimal_value(amt as int);
            let s = seq!['R'] + spec_decimal(amt as int);
            assert(spec_short_code(a) == s);
            assert(s.len() >= 2);
            assert(s[0] == 'R');
            assert(s.skip(1) =~= spec_decimal(amt as int));
            assert(s.skip(1) == spec_decimal(amt as int));
            assert(spec_all_digits(s.skip(1)));
            assert(spec_digits_value(s.skip(1)) == amt as int);
            assert(!(s =~= seq!['F']) && !(s =~= seq!['X']) && !(s =~= seq!['C']) && !(s =~= seq![
                'A',
            ]));
            assert(spec_parse_code(s) == Some(PokerAction::Raise(amt)));
        },
        PokerAction::Fold => {
            assert(spec_short_code(a) =~= seq!['F']);
            assert(spec_parse_code(seq!['F']) == Some(PokerAction::Fold));
            assert(spec_parse_code(spec_short_code(a)) == Some(a));
        },
        PokerAction::Check => {
            assert(spec_short_code(a) =~= seq!['X']);
            assert(!(seq!['X'] =~= seq!['F'])) by {
                assert(seq!['X'][0] != seq!['F'][0]);
            }
            assert(spec_parse_code(seq!['X']) == Some(PokerAction::Check));
            assert(spec_parse_code(spec_short_code(a)) == Some(a));
        },
        PokerAction::Call => {
            assert(spec_short_code(a) =~= seq!['C']);
            assert(!(seq!['C'] =~= seq!['F'])) by {
                assert(seq!['C'][0] != seq!['F'][0]);
            }
            assert(!(seq!['C'] =~= seq!['X'])) by {
                assert(seq!['C'][0] != seq!['X'][0]);
            }
            assert(spec_parse_code(seq!['C']) == Some(PokerAction::Call));
            assert(spec_parse_code(spec_short_code(a)) == Some(a));
        },
        PokerAction::AllIn => {
            assert(spec_short_code(a) =~= seq!['A']);
            assert(!(seq!['A'] =~= seq!['F'])) by {
                assert(seq!['A'][0] != seq!['F'][0]);
            }
            assert(!(seq!['A'] =~= seq!['X'])) by {
                assert(seq!['A'][0] != seq!['X'][0]);
            }
            assert(!(seq!['A'] =~= seq!['C'])) by {
                assert(seq!['A'][0] != seq!['C'][0]);
            }
            assert(spec_parse_code(seq!['A']) == Some(PokerAction::AllIn));
            assert(spec_parse_code(spec_short_code(a)) == Some(a));
        },
    }
}

} // verus!
