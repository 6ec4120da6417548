//! Hand ranges: sets of the 169 preflop hand classes, with the usual
//! range notation (`"AA"`, `"AKs"`, `"TT+"`, `"A5s-A2s"`).

use vstd::prelude::*;

use crate::abstraction::HandClass;
use crate::card::{Card, HoleCards};

verus! {

/// A set of hand classes.
#[derive(Debug, Clone)]
pub struct Range {
    /// Membership of each of the 169 classes.
    pub classes: Vec<bool>,
}

impl Range {
    /// Well-formedness: one slot per class.
    pub open spec fn wf(self) -> bool {
        self.classes@.len() == 169
    }

    /// Whether the class with the given index is in the range.
    pub open spec fn spec_contains(self, idx: int) -> bool {
        0 <= idx < 169 && self.classes@[idx]
    }

    /// The number of classes in the range, among indices below `upto`.
    pub open spec fn spec_count(self, upto: int) -> int
        decreases upto,
    {
        if upto <= 0 {
            0
        } else {
            self.spec_count(upto - 1) + if self.spec_contains(upto - 1) {
                1int
            } else {
                0int
            }
        }
    }

    /// The number of concrete combos in the range, among indices
    /// below `upto`: six per pair class, four per suited class,
    /// twelve per offsuit class.
    pub open spec fn spec_combo_count(self, upto: int) -> int
        decreases upto,
    {
        if upto <= 0 {
            0
        } else {
            self.spec_combo_count(upto - 1) + if self.spec_contains(upto - 1) {
                spec_combos_of_index(upto - 1)
            } else {
                0int
            }
        }
    }

    /// An empty range.
    pub fn empty() -> (r: Range)
        ensures
            r.wf(),
            forall|i: int| 0 <= i < 169 ==> !r.spec_contains(i),
    {
        let mut classes: Vec<bool> = Vec::new();
        let mut i: usize = 0;
        while i < 169
            invariant
                i <= 169,
                classes@.len() == i,
                forall|j: int| 0 <= j < i ==> !(#[trigger] classes@[j]),
            decreases 169 - i,
        {
            classes.push(false);
            i = i + 1;
        }
        Range { classes }
    }

    /// The range of all 169 classes.
    pub fn all() -> (r: Range)
        ensures
            r.wf(),
            forall|i: int| 0 <= i < 169 ==> r.spec_contains(i),
    {
        let mut range = Range::empty();
        let mut i: u8 = 0;
        while i < 169
            invariant
                i <= 169,
                range.wf(),
                forall|j: int| 0 <= j < i ==> #[trigger] range.classes@[j],
            decreases 169 - i,
        {
            range.add_class(i);
            i = i + 1;
        }
        range
    }

    /// Add a class by index.
    pub fn add_class(&mut self, class_idx: u8)
        requires
            old(self).wf(),
            class_idx < 169,
        ensures
            final(self).wf(),
            final(self).classes@ == old(self).classes@.update(class_idx as int, true),
    {
        self.classes.set(class_idx as usize, true);
    }

    /// Remove a class by index.
    pub fn remove_class(&mut self, class_idx: u8)
        requires
            old(self).wf(),
            class_idx < 169,
        ensures
            final(self).wf(),
            final(self).classes@ == old(self).classes@.update(class_idx as int, false),
    {
        self.classes.set(class_idx as usize, false);
    }

    /// Whether a class index is in the range.
    pub fn contains_class(&self, class_idx: u8) -> (r: bool)
        requires
            self.wf(),
            class_idx < 169,
        ensures
            r == self.spec_contains(class_idx as int),
    {
        self.classes[class_idx as usize]
    }

    /// Whether concrete hole cards fall in the range.
    pub fn contains(&self, hole_cards: &HoleCards) -> (r: bool)
        requires
            self.wf(),
            hole_cards.wf(),
        ensures
            r == self.spec_contains(
                crate::card::spec_hand_class_index(
                    hole_cards.card1.spec_rank(),
                    hole_cards.card2.spec_rank(),
                    hole_cards.card1.spec_suit() == hole_cards.card2.spec_suit(),
                ),
            ),
    {
        self.contains_class(hole_cards.hand_class_index())
    }

    /// The number of classes in the range.
    pub fn num_classes(&self) -> (r: usize)
        requires
            self.wf(),
        ensures
            r as int == self.spec_count(169),
    {
        let mut count: usize = 0;
        let mut i: usize = 0;
        while i < 169
            invariant
                i <= 169,
                self.wf(),
                count as int == self.spec_count(i as int),
                count <= i,
            decreases 169 - i,
        {
            if self.classes[i] {
                count = count + 1;
            }
            i = i + 1;
        }
        count
    }

    /// The number of concrete combos in the range.
    pub fn num_combos(&self) -> (r: usize)
        requires
            self.wf(),
        ensures
            r as int == self.spec_combo_count(169),
    {
        let mut count: usize = 0;
        let mut i: usize = 0;
        while i < 169
            invariant
                i <= 169,
                self.wf(),
                count as int == self.spec_combo_count(i as int),
                count as int <= i as int * 12,
            decreases 169 - i,
        {
            proof {
                assert((i as int + 1) * 12 == i as int * 12 + 12) by (nonlinear_arith);
            }
            if self.classes[i] {
                let hc = HandClass::from_index(i as u8);
                count = count + hc.num_combos() as usize;
                proof {
                    assert(hc.spec_num_combos() == spec_combos_of_index(i as int));
                }
            }
            i = i + 1;
        }
        count
    }

    /// Combos in the range that share no card with the blockers.
    pub fn count_unblocked_combos(&self, blockers: &[Card]) -> (r: usize)
        requires
            self.wf(),
        ensures
            r as int <= self.spec_combo_count(169),
    {
        let mut count: usize = 0;
        let mut i: usize = 0;
        while i < 169
            invariant
                i <= 169,
                self.wf(),
                count as int <= self.spec_combo_count(i as int),
                count as int <= i as int * 12,
            decreases 169 - i,
        {
            proof {
                assert((i as int + 1) * 12 == i as int * 12 + 12) by (nonlinear_arith);
                lemma_combo_count_mono(*self, i as int, 169);
            }
            if self.classes[i] {
                let hc = HandClass::from_index(i as u8);
                count = count + hc.count_unblocked_combos(blockers) as usize;
                proof {
                    assert(hc.spec_num_combos() == spec_combos_of_index(i as int));
                }
            }
            i = i + 1;
        }
        proof {
            lemma_combo_count_mono(*self, 169, 169);
        }
        count
    }

    /// The classes in the range, in index order.
    pub fn iter_classes(&self) -> (r: Vec<HandClass>)
        requires
            self.wf(),
        ensures
            r@.len() == self.spec_count(169),
            forall|j: int| 0 <= j < r@.len() ==> (#[trigger] r@[j]).wf(),
    {
        let mut out: Vec<HandClass> = Vec::new();
        let mut i: usize = 0;
        while i < 169
            invariant
                i <= 169,
                self.wf(),
                out@.len() == self.spec_count(i as int),
                out@.len() <= i,
                forall|j: int| 0 <= j < out@.len() ==> (#[trigger] out@[j]).wf(),
            decreases 169 - i,
        {
            if self.classes[i] {
                out.push(HandClass::from_index(i as u8));
            }
            i = i + 1;
        }
        out
    }

    /// Every concrete combo in the range, class by class.
    pub fn enumerate_combos(&self) -> (r: Vec<HoleCards>)
        requires
            self.wf(),
        ensures
            r@.len() == self.spec_combo_count(169),
            forall|j: int| 0 <= j < r@.len() ==> (#[trigger] r@[j]).wf(),
    {
        let mut out: Vec<HoleCards> = Vec::new();
        let mut i: usize = 0;
        while i < 169
            invariant
                i <= 169,
                self.wf(),
                out@.len() == self.spec_combo_count(i as int),
                out@.len() as int <= i as int * 12,
                forall|j: int| 0 <= j < out@.len() ==> (#[trigger] out@[j]).wf(),
            decreases 169 - i,
        {
            proof {
                assert((i as int + 1) * 12 == i as int * 12 + 12) by (nonlinear_arith);
            }
            if self.classes[i] {
                let hc = HandClass::from_index(i as u8);
                let combos = hc.enumerate_combos();
                let m: usize = combos.len();
                let mut k: usize = 0;
                while k < m
                    invariant
                        k <= m,
                        m == combos@.len(),
                        out@.len() == self.spec_combo_count(i as int) + k,
                        self.wf(),
                        i < 169,
                        out@.len() as int <= i as int * 12 + k,
                        forall|j: int| 0 <= j < combos@.len() ==> (#[trigger] combos@[j]).wf(),
                        forall|j: int| 0 <= j < out@.len() ==> (#[trigger] out@[j]).wf(),
                    decreases m - k,
                {
                    out.push(combos[k]);
                    k = k + 1;
                }
                proof {
                    assert(hc.spec_num_combos() == spec_combos_of_index(i as int));
                }
            }
            i = i + 1;
        }
        out
    }

    /// Combos in the range whose cards avoid all the blockers.
    pub fn enumerate_unblocked_combos(&self, blockers: &[Card]) -> (r: Vec<HoleCards>)
        requires
            self.wf(),
        ensures
            r@.len() <= self.spec_combo_count(169),
            forall|j: int| 0 <= j < r@.len() ==> (#[trigger] r@[j]).wf(),
    {
        let all = self.enumerate_combos();
        let n: usize = all.len();
        let mut out: Vec<HoleCards> = Vec::new();
        let mut i: usize = 0;
        while i < n
            invariant
                i <= n,
                n == all@.len(),
                out@.len() <= i,
                forall|j: int| 0 <= j < all@.len() ==> (#[trigger] all@[j]).wf(),
                forall|j: int| 0 <= j < out@.len() ==> (#[trigger] out@[j]).wf(),
            decreases n - i,
        {
            let h = all[i];
            let mut blocked: bool = false;
            let bn: usize = blockers.len();
            let mut b: usize = 0;
            while b < bn
                invariant
                    b <= bn,
                    bn == blockers@.len(),
                decreases bn - b,
            {
                if h.contains(blockers[b]) {
                    blocked = true;
                }
                b = b + 1;
            }
            if !blocked {
                out.push(h);
            }
            i = i + 1;
        }
        out
    }

    /// Parse a comma-separated range notation.  Empty parts are
    /// skipped; each remaining part must be a pair (`"AA"`), a hand
    /// with optional `s`/`o` suffix (`"AK"`, `"AKs"`), a plus form
    /// (`"TT+"`, `"AQs+"`) or a dash span (`"A5s-A2s"`); otherwise the
    /// offending part's error is returned.
    pub fn from_notation(notation: &str) -> (r: Result<Range, RangeParseError>)
        ensures
            match r {
                Ok(range) => {
                    &&& range.wf()
                    &&& forall|c: int|
                        0 <= c < 169 ==> ((#[trigger] range.spec_contains(c))
                            <==> spec_notation_denotes(notation@, 0, c))
                },
                Err(_) => spec_notation_has_dead_part(notation@, 0),
            },
    {
        let mut range = Range::empty();
        let n: usize = notation.unicode_len();
        let mut start: usize = 0;
        let mut i: usize = 0;
        while i < n
            invariant
                start <= i,
                i <= n,
                n == notation@.len(),
                range.wf(),
                spec_comma_from(notation@, start as int) == spec_comma_from(notation@, i as int),
                forall|c: int|
                    #![trigger range.spec_contains(c)]
                    #![trigger spec_notation_denotes(notation@, 0, c)]
                    0 <= c < 169 ==> (spec_notation_denotes(notation@, 0, c)
                        <==> range.spec_contains(c) || spec_notation_denotes(
                        notation@,
                        start as int,
                        c,
                    )),
                spec_notation_has_dead_part(notation@, start as int)
                    ==> spec_notation_has_dead_part(notation@, 0),
            decreases n - i,
        {
            if notation.get_char(i) == ',' {
                proof {
                    assert(spec_comma_from(notation@, i as int) == i as int);
                    assert(spec_comma_from(notation@, start as int) == i as int);
                }
                let ghost tp = spec_despace(notation@.subrange(start as int, i as int));
                let ghost pre = range;
                proof {
                    assert forall|c: int| 0 <= c < 169 implies (spec_notation_denotes(
                        notation@,
                        start as int,
                        c,
                    ) == ((tp.len() > 0 && spec_part_denotes(tp, c)) || spec_notation_denotes(
                        notation@,
                        i as int + 1,
                        c,
                    ))) by {}
                    assert(spec_notation_has_dead_part(notation@, start as int) == ((tp.len() > 0
                        && !(exists|c: int| 0 <= c < 169 && spec_part_denotes(tp, c)))
                        || spec_notation_has_dead_part(notation@, i as int + 1)));
                }
                if i > start {
                    let part: &str = notation.substring_char(start, i);
                    let trimmed = trim_spaces(part);
                    proof {
                        assert(trimmed@ == tp);
                    }
                    if trimmed.len() > 0 {
                        match Range::parse_part(&mut range, &trimmed) {
                            Ok(()) => {},
                            Err(e) => {
                                proof {
                                    assert(spec_notation_has_dead_part(notation@, start as int));
                                }
                                return Err(e);
                            },
                        }
                    }
                }
                proof {
                    assert forall|c: int| 0 <= c < 169 implies (spec_notation_denotes(
                        notation@,
                        0,
                        c,
                    ) <==> ((#[trigger] range.spec_contains(c)) || spec_notation_denotes(
                        notation@,
                        i as int + 1,
                        c,
                    ))) by {
                        assert(spec_notation_denotes(notation@, 0, c) <==> (pre.spec_contains(c)
                            || spec_notation_denotes(notation@, start as int, c)));
                        if tp.len() > 0 {
                            assert(range.spec_contains(c) <==> pre.spec_contains(c)
                                || spec_part_denotes(tp, c));
                        } else {
                            assert(range == pre);
                        }
                    }
                }
                start = i + 1;
            } else {
                proof {
                    assert(spec_comma_from(notation@, i as int) == spec_comma_from(
                        notation@,
                        i + 1,
                    ));
                }
            }
            i = i + 1;
        }
        if n > start {
            proof {
                assert(spec_comma_from(notation@, n as int) == n as int);
                assert(spec_comma_from(notation@, start as int) == n as int);
            }
            let ghost tp = spec_despace(notation@.subrange(start as int, n as int));
            let ghost pre = range;
            proof {
                assert forall|c: int| 0 <= c < 169 implies (spec_notation_denotes(
                    notation@,
                    start as int,
                    c,
                ) == (tp.len() > 0 && spec_part_denotes(tp, c))) by {}
                assert(spec_notation_has_dead_part(notation@, start as int) == (tp.len() > 0 && !(
                exists|c: int| 0 <= c < 169 && spec_part_denotes(tp, c))));
            }
            let part: &str = notation.substring_char(start, n);
            let trimmed = trim_spaces(part);
            proof {
                assert(trimmed@ == tp);
            }
            if trimmed.len() > 0 {
                match Range::parse_part(&mut range, &trimmed) {
                    Ok(()) => {},
                    Err(e) => {
                        proof {
                            assert(spec_notation_has_dead_part(notation@, start as int));
                        }
                        return Err(e);
                    },
                }
            }
            proof {
                assert forall|c: int| 0 <= c < 169 implies (spec_notation_denotes(
                    notation@,
                    0,
                    c,
                ) <==> (#[trigger] range.spec_contains(c))) by {
                    assert(spec_notation_denotes(notation@, 0, c) <==> (pre.spec_contains(c)
                        || spec_notation_denotes(notation@, start as int, c)));
                    if tp.len() > 0 {
                        assert(range.spec_contains(c) <==> pre.spec_contains(c)
                            || spec_part_denotes(tp, c));
                    } else {
                        assert(range == pre);
                    }
                }
            }
        }
        Ok(range)
    }

    /// Parse one part of a range notation into the range: a dash span
    /// when a dash follows the first character, else a plus form when
    /// the part ends in `+`, else a single hand token.  Each form's
    /// parser states exactly which classes its token denotes.
    fn parse_part(range: &mut Range, part: &Vec<char>) -> (r: Result<(), RangeParseError>)
        requires
            old(range).wf(),
        ensures
            final(range).wf(),
            r is Ok ==> forall|c: int|
                #![trigger spec_part_denotes(part@, c)]
                #![trigger final(range).spec_contains(c)]
                0 <= c < 169 ==> (final(range).spec_contains(c) <==> old(range).spec_contains(c)
                    || spec_part_denotes(part@, c)),
            r is Err ==> final(range).classes@ == old(range).classes@ && !(exists|c: int|
                0 <= c < 169 && #[trigger] spec_part_denotes(part@, c)),
    {
        let n: usize = part.len();
        // A dash span such as "A5s-A2s": split at the first dash past
        // the leading character.
        let mut d: usize = 1;
        while d < n && part[d] != '-'
            invariant
                1 <= d,
                d <= n || n <= 1,
                n == part@.len(),
                spec_dash_from(part@, 1) == spec_dash_from(part@, d as int),
            decreases n - d,
        {
            d = d + 1;
        }
        if d < n {
            proof {
                assert(spec_dash_from(part@, d as int) == d as int);
            }
            let ghost pre = *range;
            let left = copy_range(part, 0, d);
            let right = copy_range(part, d + 1, n);
            let res = Range::parse_span(range, &left, &right);
            proof {
                assert forall|c: int| 0 <= c < 169 implies (#[trigger] spec_part_denotes(part@, c)
                    == spec_span_denotes(left@, right@, c)) by {}
                if res is Ok {
                    assert forall|c: int| 0 <= c < 169 implies ((#[trigger] range.spec_contains(
                        c,
                    )) <==> pre.spec_contains(c) || spec_part_denotes(part@, c)) by {
                        assert(range.spec_contains(c) <==> pre.spec_contains(c)
                            || spec_span_denotes(left@, right@, c));
                    }
                }
            }
            return res;
        }
        proof {
            assert(spec_dash_from(part@, d as int) == part@.len());
        }
        // A plus form such as "TT+".
        if n >= 1 && part[n - 1] == '+' {
            let ghost pre = *range;
            let stem = copy_range(part, 0, n - 1);
            let res = Range::parse_plus(range, &stem);
            proof {
                assert forall|c: int| 0 <= c < 169 implies (#[trigger] spec_part_denotes(part@, c)
                    == spec_plus_denotes(stem@, c)) by {}
                if res is Ok {
                    assert forall|c: int| 0 <= c < 169 implies ((#[trigger] range.spec_contains(
                        c,
                    )) <==> pre.spec_contains(c) || spec_part_denotes(part@, c)) by {
                        assert(range.spec_contains(c) <==> pre.spec_contains(c)
                            || spec_plus_denotes(stem@, c));
                    }
                }
            }
            return res;
        }
        let ghost pre = *range;
        let res = Range::parse_single(range, part);
        proof {
            assert forall|c: int| 0 <= c < 169 implies (#[trigger] spec_part_denotes(part@, c)
                == spec_single_denotes(part@, c)) by {}
            if res is Ok {
                assert forall|c: int| 0 <= c < 169 implies ((#[trigger] range.spec_contains(c))
                    <==> pre.spec_contains(c) || spec_part_denotes(part@, c)) by {
                    assert(range.spec_contains(c) <==> pre.spec_contains(c) || spec_single_denotes(
                        part@,
                        c,
                    ));
                }
            }
        }
        res
    }

    /// Parse a single hand such as "AA", "AKs", "AKo" or "AK": on
    /// success the range gains exactly the classes the token denotes;
    /// on an error it is unchanged.
    fn parse_single(range: &mut Range, hand: &Vec<char>) -> (r: Result<(), RangeParseError>)
        requires
            old(range).wf(),
        ensures
            final(range).wf(),
            r is Ok ==> forall|c: int|
                #![trigger spec_single_denotes(hand@, c)]
                #![trigger final(range).spec_contains(c)]
                0 <= c < 169 ==> (final(range).spec_contains(c) <==> old(range).spec_contains(c)
                    || spec_single_denotes(hand@, c)),
            r is Err ==> final(range).classes@ == old(range).classes@ && !(exists|c: int|
                0 <= c < 169 && #[trigger] spec_single_denotes(hand@, c)),
    {
        let n: usize = hand.len();
        if n < 2 || n > 3 {
            return Err(RangeParseError::InvalidFormat);
        }
        let r1: u8 = match parse_rank_char(hand[0]) {
            Some(v) => v,
            None => {
                return Err(RangeParseError::InvalidRank(hand[0]));
            },
        };
        let r2: u8 = match parse_rank_char(hand[1]) {
            Some(v) => v,
            None => {
                return Err(RangeParseError::InvalidRank(hand[1]));
            },
        };
        let (high, low) = if r1 >= r2 {
            (r1, r2)
        } else {
            (r2, r1)
        };
        if high == low {
            let hc = HandClass { rank1: high, rank2: low, suited: false };
            range.add_class(hc.index());
            return Ok(());
        }
        if n == 3 {
            let suffix = hand[2];
            if suffix == 's' || suffix == 'S' {
                let hc = HandClass { rank1: high, rank2: low, suited: true };
                range.add_class(hc.index());
                Ok(())
            } else if suffix == 'o' || suffix == 'O' {
                let hc = HandClass { rank1: high, rank2: low, suited: false };
                range.add_class(hc.index());
                Ok(())
            } else {
                Err(RangeParseError::InvalidSuffix(suffix))
            }
        } else {
            let hs = HandClass { rank1: high, rank2: low, suited: true };
            range.add_class(hs.index());
            let ho = HandClass { rank1: high, rank2: low, suited: false };
            range.add_class(ho.index());
            Ok(())
        }
    }

    /// Parse a plus form: "TT+" adds every pair from tens up, "AQs+"
    /// every kicker from the queen to just below the high card.  On
    /// success the range gains exactly the classes the token denotes;
    /// on an error it is unchanged.
    fn parse_plus(range: &mut Range, stem: &Vec<char>) -> (r: Result<(), RangeParseError>)
        requires
            old(range).wf(),
        ensures
            final(range).wf(),
            r is Ok ==> forall|c: int|
                #![trigger spec_plus_denotes(stem@, c)]
                #![trigger final(range).spec_contains(c)]
                0 <= c < 169 ==> (final(range).spec_contains(c) <==> old(range).spec_contains(c)
                    || spec_plus_denotes(stem@, c)),
            r is Err ==> final(range).classes@ == old(range).classes@ && !(exists|c: int|
                0 <= c < 169 && #[trigger] spec_plus_denotes(stem@, c)),
    {
        let n: usize = stem.len();
        if n < 2 || n > 3 {
            return Err(RangeParseError::InvalidFormat);
        }
        let r1: u8 = match parse_rank_char(stem[0]) {
            Some(v) => v,
            None => {
                return Err(RangeParseError::InvalidRank(stem[0]));
            },
        };
        let r2: u8 = match parse_rank_char(stem[1]) {
            Some(v) => v,
            None => {
                return Err(RangeParseError::InvalidRank(stem[1]));
            },
        };
        if r1 == r2 {
            let mut rank: u8 = r1;
            while rank < 13
                invariant
                    range.wf(),
                    r1 <= rank <= 13,
                    forall|c: int|
                        0 <= c < 169 ==> (range.spec_contains(c) <==> old(range).spec_contains(c)
                            || (r1 <= c < rank)),
                decreases 13 - rank,
            {
                let hc = HandClass { rank1: rank, rank2: rank, suited: false };
                range.add_class(hc.index());
                rank = rank + 1;
            }
            return Ok(());
        }
        let (high, low) = if r1 >= r2 {
            (r1, r2)
        } else {
            (r2, r1)
        };
        let suited: bool = n == 3 && (stem[2] == 's' || stem[2] == 'S');
        let offsuit: bool = n == 3 && (stem[2] == 'o' || stem[2] == 'O');
        let both: bool = n == 2;
        if n == 3 && !suited && !offsuit {
            return Err(RangeParseError::InvalidSuffix(stem[2]));
        }
        let ghost tri = high as int * (high as int - 1) / 2;
        let mut kicker: u8 = low;
        while kicker < high
            invariant
                range.wf(),
                low <= kicker <= high,
                high < 13,
                low < high,
                tri == high as int * (high as int - 1) / 2,
                (suited || both) == spec_tok_s(stem@),
                (offsuit || both) == spec_tok_o(stem@),
                n == stem@.len(),
                forall|c: int|
                    0 <= c < 169 ==> ((#[trigger] range.spec_contains(c)) <==> old(
                        range,
                    ).spec_contains(c) || (spec_tok_s(stem@) && 13 + tri + low as int <= c < 13
                        + tri + kicker as int) || (spec_tok_o(stem@) && 91 + tri + low as int <= c
                        < 91 + tri + kicker as int)),
            decreases high - kicker,
        {
            proof {
                assert(crate::card::spec_hand_class_index(high as int, kicker as int, true) == 13
                    + tri + kicker as int);
                assert(crate::card::spec_hand_class_index(high as int, kicker as int, false) == 91
                    + tri + kicker as int);
            }
            let ghost at_entry = *range;
            if suited || both {
                let hc = HandClass { rank1: high, rank2: kicker, suited: true };
                range.add_class(hc.index());
            }
            let ghost after_suited = *range;
            if offsuit || both {
                let hc = HandClass { rank1: high, rank2: kicker, suited: false };
                range.add_class(hc.index());
            }
            proof {
                assert forall|c: int| 0 <= c < 169 implies ((#[trigger] range.spec_contains(c))
                    <==> at_entry.spec_contains(c) || (spec_tok_s(stem@) && c == 13 + tri
                    + kicker as int) || (spec_tok_o(stem@) && c == 91 + tri + kicker as int)) by {
                    assert(after_suited.spec_contains(c) <==> at_entry.spec_contains(c) || (
                    spec_tok_s(stem@) && c == 13 + tri + kicker as int));
                }
            }
            kicker = kicker + 1;
        }
        proof {
            assert(high as int == spec_tok_high(stem@));
            assert(low as int == spec_tok_low(stem@));
            lemma_plus_interval_bridge(*old(range), *range, stem@, high as int, low as int, tri);
        }
        Ok(())
    }

    /// Parse a dash span such as "A5s-A2s": on success the range gains
    /// exactly the classes the span denotes; on an error it is
    /// unchanged.
    fn parse_span(range: &mut Range, left: &Vec<char>, right: &Vec<char>) -> (r: Result<
        (),
        RangeParseError,
    >)
        requires
            old(range).wf(),
        ensures
            final(range).wf(),
            r is Ok ==> forall|c: int|
                #![trigger spec_span_denotes(left@, right@, c)]
                #![trigger final(range).spec_contains(c)]
                0 <= c < 169 ==> (final(range).spec_contains(c) <==> old(range).spec_contains(c)
                    || spec_span_denotes(left@, right@, c)),
            r is Err ==> final(range).classes@ == old(range).classes@ && !(exists|c: int|
                0 <= c < 169 && #[trigger] spec_span_denotes(left@, right@, c)),
    {
        let ln: usize = left.len();
        let rn: usize = right.len();
        if ln < 2 || rn < 2 {
            return Err(RangeParseError::InvalidFormat);
        }
        let s_r1: u8 = match parse_rank_char(left[0]) {
            Some(v) => v,
            None => {
                return Err(RangeParseError::InvalidRank(left[0]));
            },
        };
        let s_r2: u8 = match parse_rank_char(left[1]) {
            Some(v) => v,
            None => {
                return Err(RangeParseError::InvalidRank(left[1]));
            },
        };
        let e_r1: u8 = match parse_rank_char(right[0]) {
            Some(v) => v,
            None => {
                return Err(RangeParseError::InvalidRank(right[0]));
            },
        };
        let e_r2: u8 = match parse_rank_char(right[1]) {
            Some(v) => v,
            None => {
                return Err(RangeParseError::InvalidRank(right[1]));
            },
        };
        let s_hi: u8 = if s_r1 >= s_r2 {
            s_r1
        } else {
            s_r2
        };
        let e_hi: u8 = if e_r1 >= e_r2 {
            e_r1
        } else {
            e_r2
        };
        if s_r1 != e_r1 && s_hi != e_hi {
            return Err(RangeParseError::InvalidSpan);
        }
        let high: u8 = if s_hi >= e_hi {
            s_hi
        } else {
            e_hi
        };
        let low_start: u8 = if s_r1 <= s_r2 {
            s_r1
        } else {
            s_r2
        };
        let low_end: u8 = if e_r1 <= e_r2 {
            e_r1
        } else {
            e_r2
        };
        let (low_min, low_max) = if low_start <= low_end {
            (low_start, low_end)
        } else {
            (low_end, low_start)
        };
        let suited: bool = (ln == 3 && (left[2] == 's' || left[2] == 'S')) || (rn == 3 && (right[2]
            == 's' || right[2] == 'S')) || (ln == 2 && rn == 2);
        let offsuit: bool = (ln == 3 && (left[2] == 'o' || left[2] == 'O')) || (rn == 3 && (
        right[2] == 'o' || right[2] == 'O')) || (ln == 2 && rn == 2);
        let ghost tri = high as int * (high as int - 1) / 2;
        let mut low: u8 = low_min;
        while low <= low_max
            invariant
                range.wf(),
                low_min <= low <= low_max + 1,
                low_max < 13,
                high < 13,
                tri == high as int * (high as int - 1) / 2,
                high as int == spec_span_high(left@, right@),
                low_min as int == spec_span_low_min(left@, right@),
                low_max as int == spec_span_low_max(left@, right@),
                suited == spec_span_s(left@, right@),
                offsuit == spec_span_o(left@, right@),
                forall|c: int|
                    0 <= c < 169 ==> ((#[trigger] range.spec_contains(c)) <==> old(
                        range,
                    ).spec_contains(c) || (spec_span_s(left@, right@) && 13 + tri + low_min as int
                        <= c < 13 + tri + span_cap(low as int, high as int)) || (spec_span_o(
                        left@,
                        right@,
                    ) && 91 + tri + low_min as int <= c < 91 + tri + span_cap(
                        low as int,
                        high as int,
                    ))),
            decreases low_max + 1 - low,
        {
            if low < high {
                proof {
                    assert(crate::card::spec_hand_class_index(high as int, low as int, true) == 13
                        + tri + low as int);
                    assert(crate::card::spec_hand_class_index(high as int, low as int, false)
                        == 91 + tri + low as int);
                }
                let ghost at_entry = *range;
                if suited {
                    let hc = HandClass { rank1: high, rank2: low, suited: true };
                    range.add_class(hc.index());
                }
                let ghost after_suited = *range;
                if offsuit {
                    let hc = HandClass { rank1: high, rank2: low, suited: false };
                    range.add_class(hc.index());
                }
                proof {
                    assert forall|c: int| 0 <= c < 169 implies ((
                    #[trigger] range.spec_contains(c)) <==> at_entry.spec_contains(c) || (
                    spec_span_s(left@, right@) && c == 13 + tri + low as int) || (spec_span_o(
                        left@,
                        right@,
                    ) && c == 91 + tri + low as int)) by {
                        assert(after_suited.spec_contains(c) <==> at_entry.spec_contains(c) || (
                        spec_span_s(left@, right@) && c == 13 + tri + low as int));
                    }
                }
            }
            low = low + 1;
        }
        proof {
            lemma_span_interval_bridge(
                *old(range),
                *range,
                left@,
                right@,
                high as int,
                low_min as int,
                low_max as int,
                tri,
            );
        }
        Ok(())
    }
}

/// The interval form of the span denotation matches the kicker-wise
/// form.
proof fn lemma_span_interval_bridge(
    pre: Range,
    post: Range,
    l: Seq<char>,
    r: Seq<char>,
    high: int,
    low_min: int,
    low_max: int,
    tri: int,
)
    requires
        l.len() >= 2,
        r.len() >= 2,
        spec_rank_of(l[0]) < 13,
        spec_rank_of(l[1]) < 13,
        spec_rank_of(r[0]) < 13,
        spec_rank_of(r[1]) < 13,
        spec_rank_of(l[0]) == spec_rank_of(r[0]) || spec_tok_high(l) == spec_tok_high(r),
        high == spec_span_high(l, r),
        low_min == spec_span_low_min(l, r),
        low_max == spec_span_low_max(l, r),
        tri == high * (high - 1) / 2,
        forall|c: int|
            0 <= c < 169 ==> ((#[trigger] post.spec_contains(c)) <==> pre.spec_contains(c) || (
            spec_span_s(l, r) && 13 + tri + low_min <= c < 13 + tri + span_cap(low_max + 1, high))
                || (spec_span_o(l, r) && 91 + tri + low_min <= c < 91 + tri + span_cap(
                low_max + 1,
                high,
            ))),
    ensures
        forall|c: int|
            0 <= c < 169 ==> ((#[trigger] post.spec_contains(c)) <==> pre.spec_contains(c)
                || spec_span_denotes(l, r, c)),
{
    assert forall|k: int| low_min <= k < high implies
        #[trigger] crate::card::spec_hand_class_index(high, k, true) == 13 + tri + k
        && #[trigger] crate::card::spec_hand_class_index(high, k, false) == 91 + tri + k by {}
    let cap = span_cap(low_max + 1, high);
    assert forall|c: int| 0 <= c < 169 implies (spec_span_denotes(l, r, c) <==> ((spec_span_s(
        l,
        r,
    ) && 13 + tri + low_min <= c < 13 + tri + cap) || (spec_span_o(l, r) && 91 + tri + low_min
        <= c < 91 + tri + cap))) by {
        if spec_span_s(l, r) && 13 + tri + low_min <= c < 13 + tri + cap {
            assert(low_min <= (c - 13 - tri) <= low_max && (c - 13 - tri) < high
                && crate::card::spec_hand_class_index(high, c - 13 - tri, true) == c);
            assert(spec_span_denotes(l, r, c));
        }
        if spec_span_o(l, r) && 91 + tri + low_min <= c < 91 + tri + cap {
            assert(low_min <= (c - 91 - tri) <= low_max && (c - 91 - tri) < high
                && crate::card::spec_hand_class_index(high, c - 91 - tri, false) == c);
            assert(spec_span_denotes(l, r, c));
        }
    }
}

/// A character sequence with every space removed, as the notation
/// parser prepares each part.
pub open spec fn spec_despace(s: Seq<char>) -> Seq<char>
    decreases s.len(),
{
    if s.len() == 0 {
        Seq::empty()
    } else if s.last() == ' ' {
        spec_despace(s.drop_last())
    } else {
        spec_despace(s.drop_last()).push(s.last())
    }
}

/// The position of the first comma at or after `i`, or the length
/// when none follows.
pub open spec fn spec_comma_from(s: Seq<char>, i: int) -> int
    decreases s.len() - i,
{
    if i < 0 || i >= s.len() {
        s.len() as int
    } else if s[i] == ',' {
        i
    } else {
        spec_comma_from(s, i + 1)
    }
}

/// The position of the first dash at or after the second character,
/// or the length when none follows: where a part splits into a span.
pub open spec fn spec_dash_from(s: Seq<char>, i: int) -> int
    decreases s.len() - i,
{
    if i < 1 || i >= s.len() {
        s.len() as int
    } else if s[i] == '-' {
        i
    } else {
        spec_dash_from(s, i + 1)
    }
}

/// What one trimmed part denotes: a part with a dash past its leading
/// character splits there into a span, a part ending in `+` is a plus
/// form, and anything else is a single hand token.
pub open spec fn spec_part_denotes(part: Seq<char>, cls: int) -> bool {
    let d = spec_dash_from(part, 1);
    if d < part.len() {
        spec_span_denotes(part.subrange(0, d), part.subrange(d + 1, part.len() as int), cls)
    } else if part.len() >= 1 && part[part.len() - 1] == '+' {
        spec_plus_denotes(part.subrange(0, part.len() - 1), cls)
    } else {
        spec_single_denotes(part, cls)
    }
}

/// What the notation from position `start` on denotes: the union of
/// what its comma-separated parts denote, spaces removed and empty
/// parts skipped.
pub open spec fn spec_notation_denotes(s: Seq<char>, start: int, cls: int) -> bool
    decreases s.len() - start,
{
    if start < 0 || start >= s.len() {
        false
    } else {
        let j = spec_comma_from(s, start);
        let part = spec_despace(s.subrange(start, j));
        ||| (part.len() > 0 && spec_part_denotes(part, cls))
        ||| (j < s.len() && start <= j && spec_notation_denotes(s, j + 1, cls))
    }
}

/// Whether some comma-separated part of the notation from `start` on,
/// spaces removed, is non-empty yet denotes no class at all: exactly
/// the parts the notation parser rejects with an error.
pub open spec fn spec_notation_has_dead_part(s: Seq<char>, start: int) -> bool
    decreases s.len() - start,
{
    if start < 0 || start >= s.len() {
        false
    } else {
        let j = spec_comma_from(s, start);
        let part = spec_despace(s.subrange(start, j));
        ||| (part.len() > 0 && !(exists|cls: int| 0 <= cls < 169 && spec_part_denotes(part, cls)))
        ||| (j < s.len() && start <= j && spec_notation_has_dead_part(s, j + 1))
    }
}

/// What a single hand token denotes: for `"AA"` the pair class, for a
/// three-character token the suited or offsuit class named by the
/// suffix, and for a two-character non-pair both classes.
pub open spec fn spec_single_denotes(chars: Seq<char>, cls: int) -> bool {
    let r1 = spec_rank_of(chars[0]);
    let r2 = spec_rank_of(chars[1]);
    let high = if r1 >= r2 {
        r1
    } else {
        r2
    };
    let low = if r1 >= r2 {
        r2
    } else {
        r1
    };
    &&& 2 <= chars.len() <= 3
    &&& r1 < 13
    &&& r2 < 13
    &&& if high == low {
        cls == high
    } else if chars.len() == 3 {
        if chars[2] == 's' || chars[2] == 'S' {
            cls == crate::card::spec_hand_class_index(high, low, true)
        } else if chars[2] == 'o' || chars[2] == 'O' {
            cls == crate::card::spec_hand_class_index(high, low, false)
        } else {
            false
        }
    } else {
        cls == crate::card::spec_hand_class_index(high, low, true) || cls
            == crate::card::spec_hand_class_index(high, low, false)
    }
}

/// The higher of a token's two named ranks.
pub open spec fn spec_tok_high(chars: Seq<char>) -> int {
    if spec_rank_of(chars[0]) >= spec_rank_of(chars[1]) {
        spec_rank_of(chars[0])
    } else {
        spec_rank_of(chars[1])
    }
}

/// The lower of a token's two named ranks.
pub open spec fn spec_tok_low(chars: Seq<char>) -> int {
    if spec_rank_of(chars[0]) >= spec_rank_of(chars[1]) {
        spec_rank_of(chars[1])
    } else {
        spec_rank_of(chars[0])
    }
}

/// Whether a token names the suited classes: no suffix, or `s`.
pub open spec fn spec_tok_s(chars: Seq<char>) -> bool {
    chars.len() == 2 || (chars.len() == 3 && (chars[2] == 's' || chars[2] == 'S'))
}

/// Whether a token names the offsuit classes: no suffix, or `o`.
pub open spec fn spec_tok_o(chars: Seq<char>) -> bool {
    chars.len() == 2 || (chars.len() == 3 && (chars[2] == 'o' || chars[2] == 'O'))
}

/// What a plus token denotes: `"TT+"` every pair from the rank up;
/// `"AQs+"` (or `o`, or no suffix for both) every kicker from the
/// named one to just below the high card.
pub open spec fn spec_plus_denotes(chars: Seq<char>, cls: int) -> bool {
    &&& 2 <= chars.len() <= 3
    &&& spec_rank_of(chars[0]) < 13
    &&& spec_rank_of(chars[1]) < 13
    &&& if spec_rank_of(chars[0]) == spec_rank_of(chars[1]) {
        spec_rank_of(chars[0]) <= cls < 13
    } else {
        exists|k: int|
            #![trigger crate::card::spec_hand_class_index(spec_tok_high(chars), k, true)]
            #![trigger crate::card::spec_hand_class_index(spec_tok_high(chars), k, false)]
            spec_tok_low(chars) <= k < spec_tok_high(chars) && ((spec_tok_s(chars) && cls
                == crate::card::spec_hand_class_index(spec_tok_high(chars), k, true)) || (
            spec_tok_o(chars) && cls == crate::card::spec_hand_class_index(
                spec_tok_high(chars),
                k,
                false,
            )))
    }
}

/// The high card of a dash span: the highest rank either endpoint
/// names.
pub open spec fn spec_span_high(l: Seq<char>, r: Seq<char>) -> int {
    if spec_tok_high(l) >= spec_tok_high(r) {
        spec_tok_high(l)
    } else {
        spec_tok_high(r)
    }
}

/// The smaller of the endpoints' low cards.
pub open spec fn spec_span_low_min(l: Seq<char>, r: Seq<char>) -> int {
    if spec_tok_low(l) <= spec_tok_low(r) {
        spec_tok_low(l)
    } else {
        spec_tok_low(r)
    }
}

/// The larger of the endpoints' low cards.
pub open spec fn spec_span_low_max(l: Seq<char>, r: Seq<char>) -> int {
    if spec_tok_low(l) <= spec_tok_low(r) {
        spec_tok_low(r)
    } else {
        spec_tok_low(l)
    }
}

/// Whether a span names the suited classes: either endpoint carries
/// an `s` suffix, or neither carries any suffix.
pub open spec fn spec_span_s(l: Seq<char>, r: Seq<char>) -> bool {
    ||| (l.len() == 3 && (l[2] == 's' || l[2] == 'S'))
    ||| (r.len() == 3 && (r[2] == 's' || r[2] == 'S'))
    ||| (l.len() == 2 && r.len() == 2)
}

/// Whether a span names the offsuit classes.
pub open spec fn spec_span_o(l: Seq<char>, r: Seq<char>) -> bool {
    ||| (l.len() == 3 && (l[2] == 'o' || l[2] == 'O'))
    ||| (r.len() == 3 && (r[2] == 'o' || r[2] == 'O'))
    ||| (l.len() == 2 && r.len() == 2)
}

/// The capped upper bound of a span's kicker interval: kickers run up
/// to the larger low card but never reach the high card.
pub open spec fn span_cap(cur: int, high: int) -> int {
    if cur <= high {
        cur
    } else {
        high
    }
}

/// What a dash span such as `"A5s-A2s"` denotes: the kickers between
/// the endpoints' low cards, under the shared high card, suited or
/// offsuit as the endpoints' suffixes say (both when neither has one).
pub open spec fn spec_span_denotes(l: Seq<char>, r: Seq<char>, cls: int) -> bool {
    &&& l.len() >= 2
    &&& r.len() >= 2
    &&& spec_rank_of(l[0]) < 13
    &&& spec_rank_of(l[1]) < 13
    &&& spec_rank_of(r[0]) < 13
    &&& spec_rank_of(r[1]) < 13
    &&& (spec_rank_of(l[0]) == spec_rank_of(r[0]) || spec_tok_high(l) == spec_tok_high(r))
    &&& exists|k: int|
        #![trigger crate::card::spec_hand_class_index(spec_span_high(l, r), k, true)]
        #![trigger crate::card::spec_hand_class_index(spec_span_high(l, r), k, false)]
        spec_span_low_min(l, r) <= k <= spec_span_low_max(l, r) && k < spec_span_high(l, r) && ((
        spec_span_s(l, r) && cls == crate::card::spec_hand_class_index(
            spec_span_high(l, r),
            k,
            true,
        )) || (spec_span_o(l, r) && cls == crate::card::spec_hand_class_index(
            spec_span_high(l, r),
            k,
            false,
        )))
}

/// The interval form of the plus denotation matches the kicker-wise
/// form: the suited and offsuit classes of consecutive kickers under
/// one high card occupy consecutive indices.
proof fn lemma_plus_interval_bridge(
    pre: Range,
    post: Range,
    stem: Seq<char>,
    high: int,
    low: int,
    tri: int,
)
    requires
        2 <= stem.len() <= 3,
        spec_rank_of(stem[0]) < 13,
        spec_rank_of(stem[1]) < 13,
        spec_rank_of(stem[0]) != spec_rank_of(stem[1]),
        high == spec_tok_high(stem),
        low == spec_tok_low(stem),
        tri == high * (high - 1) / 2,
        stem.len() == 3 ==> (stem[2] == 's' || stem[2] == 'S' || stem[2] == 'o' || stem[2] == 'O'),
        forall|c: int|
            0 <= c < 169 ==> ((#[trigger] post.spec_contains(c)) <==> pre.spec_contains(c) || (
            spec_tok_s(stem) && 13 + tri + low <= c < 13 + tri + high) || (spec_tok_o(stem) && 91
                + tri + low <= c < 91 + tri + high)),
    ensures
        forall|c: int|
            0 <= c < 169 ==> ((#[trigger] post.spec_contains(c)) <==> pre.spec_contains(c)
                || spec_plus_denotes(stem, c)),
{
    assert forall|k: int| low <= k < high implies #[trigger] crate::card::spec_hand_class_index(
        high,
        k,
        true,
    ) == 13 + tri + k && #[trigger] crate::card::spec_hand_class_index(high, k, false) == 91 + tri
        + k by {}
    assert forall|c: int| 0 <= c < 169 implies (spec_plus_denotes(stem, c) <==> ((spec_tok_s(stem)
        && 13 + tri + low <= c < 13 + tri + high) || (spec_tok_o(stem) && 91 + tri + low <= c < 91
        + tri + high))) by {
        if spec_tok_s(stem) && 13 + tri + low <= c < 13 + tri + high {
            assert(low <= (c - 13 - tri) < high && crate::card::spec_hand_class_index(
                high,
                c - 13 - tri,
                true,
            ) == c);
            assert(spec_plus_denotes(stem, c));
        }
        if spec_tok_o(stem) && 91 + tri + low <= c < 91 + tri + high {
            assert(low <= (c - 91 - tri) < high && crate::card::spec_hand_class_index(
                high,
                c - 91 - tri,
                false,
            ) == c);
            assert(spec_plus_denotes(stem, c));
        }
    }
}

/// The combo count of a class index: six for a pair index, four for a
/// suited index, twelve for an offsuit index.
pub open spec fn spec_combos_of_index(idx: int) -> int {
    if idx < 13 {
        6
    } else if idx < 91 {
        4
    } else {
        12
    }
}

/// A prefix combo count is bounded by the whole count.
proof fn lemma_combo_count_mono(r: Range, lo: int, hi: int)
    requires
        0 <= lo <= hi,
    ensures
        r.spec_combo_count(lo) <= r.spec_combo_count(hi),
    decreases hi - lo,
{
    if lo < hi {
        lemma_combo_count_mono(r, lo + 1, hi);
    }
}

/// Errors of range-notation parsing.
#[derive(Debug, Clone, Copy, PartialEq, Eq, Structural)]
pub enum RangeParseError {
    /// A part has the wrong shape or length.
    InvalidFormat,
    /// A character is not a rank.
    InvalidRank(char),
    /// A suffix is neither `s` nor `o`.
    InvalidSuffix(char),
    /// A dash span's endpoints do not share a high card.
    InvalidSpan,
}

/// The rank a notation character denotes, or thirteen for any other
/// character.
pub open spec fn spec_rank_of(c: char) -> int {
    if c == '2' {
        0
    } else if c == '3' {
        1
    } else if c == '4' {
        2
    } else if c == '5' {
        3
    } else if c == '6' {
        4
    } else if c == '7' {
        5
    } else if c == '8' {
        6
    } else if c == '9' {
        7
    } else if c == 'T' || c == 't' {
        8
    } else if c == 'J' || c == 'j' {
        9
    } else if c == 'Q' || c == 'q' {
        10
    } else if c == 'K' || c == 'k' {
        11
    } else if c == 'A' || c == 'a' {
        12
    } else {
        13
    }
}

/// Parse a rank character, `2` to `A`, case-insensitive.
fn parse_rank_char(c: char) -> (r: Option<u8>)
    ensures
        match r {
            Some(v) => v as int == spec_rank_of(c) && v < 13,
            None => spec_rank_of(c) == 13,
        },
{
    if c == '2' {
        Some(0)
    } else if c == '3' {
        Some(1)
    } else if c == '4' {
        Some(2)
    } else if c == '5' {
        Some(3)
    } else if c == '6' {
        Some(4)
    } else if c == '7' {
        Some(5)
    } else if c == '8' {
        Some(6)
    } else if c == '9' {
        Some(7)
    } else if c == 'T' || c == 't' {
        Some(8)
    } else if c == 'J' || c == 'j' {
        Some(9)
    } else if c == 'Q' || c == 'q' {
        Some(10)
    } else if c == 'K' || c == 'k' {
        Some(11)
    } else if c == 'A' || c == 'a' {
        Some(12)
    } else {
        None
    }
}

/// The characters of a part, with every space removed.
fn trim_spaces(part: &str) -> (r: Vec<char>)
    ensures
        r@ == spec_despace(part@),
{
    let n: usize = part.unicode_len();
    let mut out: Vec<char> = Vec::new();
    let mut i: usize = 0;
    while i < n
        invariant
            i <= n,
            n == part@.len(),
            out@ =~= spec_despace(part@.subrange(0, i as int)),
        decreases n - i,
    {
        let c: char = part.get_char(i);
        proof {
            assert(part@.subrange(0, i + 1).drop_last() =~= part@.subrange(0, i as int));
            assert(part@.subrange(0, i + 1).last() == part@[i as int]);
        }
        if c != ' ' {
            out.push(c);
        }
        i = i + 1;
    }
    proof {
        assert(part@.subrange(0, n as int) =~= part@);
    }
    out
}

/// A copy of a slice of characters.
fn copy_range(v: &Vec<char>, from: usize, to: usize) -> (r: Vec<char>)
    requires
        from <= to <= v@.len(),
    ensures
        r@ == v@.subrange(from as int, to as int),
{
    let mut out: Vec<char> = Vec::new();
    let mut i: usize = from;
    while i < to
        invariant
            from <= i <= to,
            to <= v@.len(),
            out@ =~= v@.subrange(from as int, i as int),
        decreases to - i,
    {
        out.push(v[i]);
        proof {
            assert(out@ =~= v@.subrange(from as int, i + 1));
        }
        i = i + 1;
    }
    out
}

} // verus!
