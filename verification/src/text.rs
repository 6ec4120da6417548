//! Decimal text helpers: rendering and parsing of unsigned numbers,
//! used by action codes and information-set keys.

use vstd::prelude::*;

verus! {

/// The digit character of a value below ten.
pub open spec fn spec_digit_char(d: int) -> char {
    if d == 0 {
        '0'
    } else if d == 1 {
        '1'
    } else if d == 2 {
        '2'
    } else if d == 3 {
        '3'
    } else if d == 4 {
        '4'
    } else if d == 5 {
        '5'
    } else if d == 6 {
        '6'
    } else if d == 7 {
        '7'
    } else if d == 8 {
        '8'
    } else {
        '9'
    }
}

/// The value of a digit character, or ten for any other character.
pub open spec fn spec_digit_val(c: char) -> int {
    if c == '0' {
        0
    } else if c == '1' {
        1
    } else if c == '2' {
        2
    } else if c == '3' {
        3
    } else if c == '4' {
        4
    } else if c == '5' {
        5
    } else if c == '6' {
        6
    } else if c == '7' {
        7
    } else if c == '8' {
        8
    } else if c == '9' {
        9
    } else {
        10
    }
}

/// The decimal rendering of a non-negative number, most significant
/// digit first.
pub open spec fn spec_decimal(n: int) -> Seq<char>
    decreases n,
{
    if n < 10 {
        seq![spec_digit_char(n)]
    } else {
        spec_decimal(n / 10).push(spec_digit_char(n % 10))
    }
}

/// The numeric value of a digit string, most significant digit first.
pub open spec fn spec_digits_value(s: Seq<char>) -> int
    decreases s.len(),
{
    if s.len() == 0 {
        0
    } else {
        spec_digits_value(s.drop_last()) * 10 + spec_digit_val(s.last())
    }
}

/// Whether every character of a string is a decimal digit.
pub open spec fn spec_all_digits(s: Seq<char>) -> bool {
    forall|i: int| 0 <= i < s.len() ==> spec_digit_val(#[trigger] s[i]) < 10
}

/// The digit character of a value below ten.
pub fn digit_char(d: u32) -> (c: char)
    requires
        d < 10,
    ensures
        c == spec_digit_char(d as int),
{
    if d == 0 {
        '0'
    } else if d == 1 {
        '1'
    } else if d == 2 {
        '2'
    } else if d == 3 {
        '3'
    } else if d == 4 {
        '4'
    } else if d == 5 {
        '5'
    } else if d == 6 {
        '6'
    } else if d == 7 {
        '7'
    } else if d == 8 {
        '8'
    } else {
        '9'
    }
}

/// A one-character string holding a digit.
pub fn digit_string(d: u32) -> (r: String)
    requires
        d < 10,
    ensures
        r@ == seq![spec_digit_char(d as int)],
{
    let s: &str = if d == 0 {
        "0"
    } else if d == 1 {
        "1"
    } else if d == 2 {
        "2"
    } else if d == 3 {
        "3"
    } else if d == 4 {
        "4"
    } else if d == 5 {
        "5"
    } else if d == 6 {
        "6"
    } else if d == 7 {
        "7"
    } else if d == 8 {
        "8"
    } else {
        "9"
    };
    proof {
        reveal_strlit("0");
        reveal_strlit("1");
        reveal_strlit("2");
        reveal_strlit("3");
        reveal_strlit("4");
        reveal_strlit("5");
        reveal_strlit("6");
        reveal_strlit("7");
        reveal_strlit("8");
        reveal_strlit("9");
        assert(s@ =~= seq![spec_digit_char(d as int)]);
    }
    String::from_str(s)
}

/// Render a number in decimal.
pub fn u32_to_string(n: u32) -> (r: String)
    ensures
        r@ == spec_decimal(n as int),
    decreases n,
{
    if n < 10 {
        digit_string(n)
    } else {
        let mut out = u32_to_string(n / 10);
        let d = digit_string(n % 10);
        out.append(d.as_str());
        proof {
            assert(out@ =~= spec_decimal(n as int));
        }
        out
    }
}

/// Parse a decimal number.  Returns the value exactly when the text is
/// one or more digits whose value fits in 32 bits.
pub fn parse_u32(s: &str) -> (r: Option<u32>)
    ensures
        match r {
            Some(v) => s@.len() >= 1 && spec_all_digits(s@) && v as int == spec_digits_value(s@)
                && spec_digits_value(s@) <= u32::MAX as int,
            None => s@.len() == 0 || !spec_all_digits(s@) || spec_digits_value(s@) > u32::MAX
                as int,
        },
{
    let n: usize = s.unicode_len();
    if n == 0 {
        return None;
    }
    let mut acc: u64 = 0;
    let mut i: usize = 0;
    while i < n
        invariant
            i <= n,
            n == s@.len(),
            n >= 1,
            acc as int == spec_digits_value(s@.subrange(0, i as int)),
            acc <= u32::MAX,
            forall|j: int| 0 <= j < i ==> spec_digit_val(#[trigger] s@[j]) < 10,
        decreases n - i,
    {
        let c: char = s.get_char(i);
        let d: u32 = if c == '0' {
            0
        } else if c == '1' {
            1
        } else if c == '2' {
            2
        } else if c == '3' {
            3
        } else if c == '4' {
            4
        } else if c == '5' {
            5
        } else if c == '6' {
            6
        } else if c == '7' {
            7
        } else if c == '8' {
            8
        } else if c == '9' {
            9
        } else {
            proof {
                assert(spec_digit_val(s@[i as int]) >= 10);
            }
            return None;
        };
        proof {
            assert(s@.subrange(0, i + 1).drop_last() =~= s@.subrange(0, i as int));
            assert(s@.subrange(0, i + 1).last() == s@[i as int]);
            assert(d as int == spec_digit_val(s@[i as int]));
        }
        let next: u64 = acc * 10 + d as u64;
        if next > u32::MAX as u64 {
            proof {
                if spec_all_digits(s@) {
                    lemma_digits_value_grows(s@, i as int + 1);
                }
            }
            return None;
        }
        acc = next;
        i = i + 1;
    }
    proof {
        assert(s@.subrange(0, n as int) =~= s@);
    }
    Some(acc as u32)
}

/// A digit string's value only grows as digits are appended.
proof fn lemma_digits_value_grows(s: Seq<char>, i: int)
    requires
        0 <= i <= s.len(),
        spec_all_digits(s),
    ensures
        spec_digits_value(s.subrange(0, i)) <= spec_digits_value(s),
    decreases s.len() - i,
{
    if i < s.len() {
        lemma_digits_value_grows(s, i + 1);
        assert(s.subrange(0, i + 1).drop_last() =~= s.subrange(0, i));
        assert(s.subrange(0, i + 1).last() == s[i]);
        let v = spec_digits_value(s.subrange(0, i));
        assert(spec_digits_value(s.subrange(0, i + 1)) == v * 10 + spec_digit_val(s[i]));
        lemma_digits_value_nonneg(s.subrange(0, i));
        assert(v * 10 >= v) by (nonlinear_arith)
            requires
                v >= 0;
    } else {
        assert(s.subrange(0, i) =~= s);
    }
}

/// A digit string's value is never negative.
proof fn lemma_digits_value_nonneg(s: Seq<char>)
    ensures
        spec_digits_value(s) >= 0,
    decreases s.len(),
{
    if s.len() > 0 {
        lemma_digits_value_nonneg(s.drop_last());
        let v = spec_digits_value(s.drop_last());
        assert(v * 10 >= 0) by (nonlinear_arith)
            requires
                v >= 0;
    }
}

/// A decimal rendering is one or more digits whose value is the
/// rendered number: printing and parsing are inverse.
pub proof fn lemma_decimal_value(n: int)
    requires
        n >= 0,
    ensures
        spec_decimal(n).len() >= 1,
        spec_all_digits(spec_decimal(n)),
        spec_digits_value(spec_decimal(n)) == n,
    decreases n,
{
    if n < 10 {
        assert(spec_decimal(n) =~= seq![spec_digit_char(n)]);
        assert(spec_digits_value(seq![spec_digit_char(n)]) == spec_digit_val(spec_digit_char(n)))
            by {
            let one = seq![spec_digit_char(n)];
            assert(one.drop_last() =~= Seq::<char>::empty());
            assert(one.last() == spec_digit_char(n));
            assert(spec_digits_value(Seq::<char>::empty()) == 0);
            assert(spec_digits_value(one) == spec_digits_value(one.drop_last()) * 10
                + spec_digit_val(one.last()));
            assert(spec_digits_value(one.drop_last()) == 0);
            assert(0int * 10 == 0) by (nonlinear_arith);
        }
    } else {
        lemma_decimal_value(n / 10);
        vstd::arithmetic::div_mod::lemma_fundamental_div_mod(n, 10);
        vstd::arithmetic::div_mod::lemma_mod_bound(n, 10);
        let prefix = spec_decimal(n / 10);
        let d = spec_digit_char(n % 10);
        assert(spec_decimal(n) == prefix.push(d));
        assert(prefix.push(d).drop_last() =~= prefix);
        assert(prefix.push(d).last() == d);
        assert(spec_digits_value(prefix.push(d)) == spec_digits_value(prefix) * 10
            + spec_digit_val(d));
        assert(spec_digit_val(spec_digit_char(n % 10)) == n % 10);
        assert(spec_digits_value(prefix) * 10 == 10 * spec_digits_value(prefix))
            by (nonlinear_arith);
        assert forall|i: int| 0 <= i < prefix.push(d).len() implies spec_digit_val(
            #[trigger] prefix.push(d)[i],
        ) < 10 by {
            if i < prefix.len() {
                assert(prefix.push(d)[i] == prefix[i]);
            }
        }
    }
}

} // verus!
