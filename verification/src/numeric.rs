//! The numeric interpretation used by the `add` function: an evaluated
//! text counts as a number exactly when it is a decimal numeral of one
//! to nineteen digits (so that it always fits the machine word); any
//! other text, the `"?"` placeholder included, counts as zero.  Sums
//! saturate at the largest representable value.

use vstd::prelude::*;
use crate::text::push_char;

verus! {

pub open spec fn is_digit(c: char) -> bool {
    '0' <= c && c <= '9'
}

/// The value of a digit sequence read as a decimal numeral.
pub open spec fn dec_value(s: Seq<char>) -> int
    decreases s,
{
    if s.len() == 0 {
        0
    } else {
        dec_value(s.drop_last()) * 10 + (s.last() as int - '0' as int)
    }
}

/// How an operand text counts: numerals of one to nineteen digits have
/// their decimal value, every other text counts as zero.
pub open spec fn operand_value(s: Seq<char>) -> int {
    if 1 <= s.len() <= 19 && (forall|i: int| 0 <= i < s.len() ==> is_digit(s[i])) {
        dec_value(s)
    } else {
        0
    }
}

/// The sum, saturated at the largest `u64`.
pub open spec fn sat_sum(a: int, b: int) -> int {
    if a + b > u64::MAX {
        u64::MAX as int
    } else {
        a + b
    }
}

pub open spec fn digit_char(d: int) -> char {
    ((d + 48) as u8) as char
}

/// The decimal rendering of a non-negative number.
pub open spec fn dec_digits(x: int) -> Seq<char>
    decreases x,
{
    if x < 10 {
        seq![digit_char(if x < 0 { 0 } else { x })]
    } else {
        dec_digits(x / 10).push(digit_char(x % 10))
    }
}

pub open spec fn pow10(k: int) -> int
    decreases k,
{
    if k <= 0 {
        1
    } else {
        10 * pow10(k - 1)
    }
}

proof fn lemma_dec_value_bound(s: Seq<char>)
    requires
        forall|i: int| 0 <= i < s.len() ==> is_digit(s[i]),
    ensures
        0 <= dec_value(s) && dec_value(s) < pow10(s.len() as int),
    decreases s,
{
    if s.len() > 0 {
        assert(forall|i: int| 0 <= i < s.drop_last().len() ==> s.drop_last()[i] == s[i]);
        lemma_dec_value_bound(s.drop_last());
    }
}

/// Read an operand text as a number.
#[verifier::loop_isolation(false)]
pub fn parse_operand(s: &str) -> (r: u64)
    ensures
        r as int == operand_value(s@),
{
    let n = s.unicode_len();
    if n == 0 || n > 19 {
        return 0;
    }
    let mut acc: u64 = 0;
    let mut i: usize = 0;
    proof {
        assert(s@.take(0) =~= Seq::<char>::empty());
        reveal_with_fuel(pow10, 20);
    }
    while i < n
        invariant
            0 <= i <= n,
            forall|j: int| 0 <= j < i ==> is_digit(s@[j]),
            acc as int == dec_value(s@.take(i as int)),
            0 <= (acc as int) && (acc as int) < pow10(i as int),
        decreases n - i,
    {
        let c = s.get_char(i);
        if !('0' <= c && c <= '9') {
            proof {
                assert(!is_digit(s@[i as int]));
            }
            return 0;
        }
        let d = (c as u8) - 48;
        proof {
            let t = s@.take(i as int + 1);
            assert(t.drop_last() =~= s@.take(i as int));
            assert(t.last() == s@[i as int]);
            assert(forall|j: int| 0 <= j < t.len() ==> is_digit(t[j]));
            lemma_dec_value_bound(s@.take(i as int));
            assert(pow10(i as int) <= pow10(18)) by {
                lemma_pow10_monotone(i as int, 18);
            }
        }
        acc = acc * 10 + (d as u64);
        i = i + 1;
    }
    proof {
        assert(s@.take(n as int) =~= s@);
    }
    acc
}

proof fn lemma_pow10_monotone(a: int, b: int)
    requires
        0 <= a <= b,
    ensures
        pow10(a) <= pow10(b),
    decreases b - a,
{
    if a < b {
        lemma_pow10_monotone(a, b - 1);
        assert(pow10(b) == 10 * pow10(b - 1));
        assert(pow10(b - 1) >= 1) by {
            lemma_pow10_positive(b - 1);
        }
    }
}

proof fn lemma_pow10_positive(k: int)
    ensures
        pow10(k) >= 1,
    decreases (if k <= 0 { 0 } else { k }),
{
    if k > 0 {
        lemma_pow10_positive(k - 1);
    }
}

/// Append the decimal rendering of `x`.
pub fn render_dec(x: u64, out: &mut String)
    ensures
        final(out)@ == old(out)@ + dec_digits(x as int),
    decreases x,
{
    if x < 10 {
        push_char(out, (48 + (x as u8)) as char);
        proof {
            assert(old(out)@ + dec_digits(x as int) =~= old(out)@.push(digit_char(x as int)));
        }
    } else {
        render_dec(x / 10, out);
        push_char(out, (48 + ((x % 10) as u8)) as char);
        proof {
            assert(old(out)@ + dec_digits(x as int) =~= (old(out)@ + dec_digits(x as int / 10)).push(
                digit_char(x as int % 10),
            ));
        }
    }
}

/// The saturating sum of two operands.
pub fn sat_sum_exec(a: u64, b: u64) -> (r: u64)
    ensures
        r as int == sat_sum(a as int, b as int),
{
    if a > u64::MAX - b {
        u64::MAX
    } else {
        a + b
    }
}

} // verus!
