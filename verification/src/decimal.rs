//! Decimal numerals: reading and writing 32-bit numbers.

use vstd::prelude::*;
use vstd::slice::slice_subrange;

verus! {

pub open spec fn is_digit(c: char) -> bool {
    '0' <= c <= '9'
}

/// The number that a sequence of digits denotes.
pub open spec fn digits_value(s: Seq<char>) -> nat
    decreases s.len(),
{
    if s.len() == 0 {
        0
    } else {
        10 * digits_value(s.drop_last()) + (s.last() as nat - '0' as nat) as nat
    }
}

pub open spec fn all_digits(s: Seq<char>) -> bool {
    forall|i: int| 0 <= i < s.len() ==> is_digit(#[trigger] s[i])
}

/// The digits of a numeral, without the plus sign it may begin with.
pub open spec fn unsigned_part(s: Seq<char>) -> Seq<char> {
    if s.len() > 0 && s[0] == '+' {
        s.skip(1)
    } else {
        s
    }
}

/// The 32-bit number that `s` spells: one or more digits, after an optional plus sign.
pub open spec fn u32_of(s: Seq<char>) -> Option<u32> {
    let digits = unsigned_part(s);
    if digits.len() > 0 && all_digits(digits) && digits_value(digits) <= u32::MAX {
        Some(digits_value(digits) as u32)
    } else {
        None
    }
}

proof fn lemma_value_grows(s: Seq<char>, n: int)
    requires
        0 <= n <= s.len(),
        all_digits(s),
    ensures
        digits_value(s.take(n)) <= digits_value(s),
    decreases s.len(),
{
    if n == s.len() {
        assert(s.take(n) == s);
    } else {
        assert(s.drop_last().take(n) == s.take(n));
        lemma_value_grows(s.drop_last(), n);
    }
}

/// Reads a 32-bit number.
pub fn parse_u32(chars: &[char]) -> (res: Option<u32>)
    ensures
        res == u32_of(chars@),
{
    let digits: &[char] = if chars.len() > 0 && chars[0] == '+' {
        slice_subrange(chars, 1, chars.len())
    } else {
        chars
    };
    proof {
        assert(digits@ == unsigned_part(chars@));
    }
    if digits.len() == 0 {
        return None;
    }
    let mut value: u32 = 0;
    let mut i: usize = 0;
    while i < digits.len()
        invariant
            i <= digits@.len(),
            digits@ == unsigned_part(chars@),
            digits@.len() > 0,
            value == digits_value(digits@.take(i as int)),
            forall|j: int| 0 <= j < i ==> is_digit(#[trigger] digits@[j]),
        decreases digits@.len() - i,
    {
        let c = digits[i];
        if !('0' <= c && c <= '9') {
            assert(!is_digit(digits@[i as int]));
            return None;
        }
        let digit: u32 = c as u32 - '0' as u32;
        let wide: u64 = 10 * (value as u64) + digit as u64;
        proof {
            assert(digits@.take(i + 1).drop_last() == digits@.take(i as int));
            assert(wide == digits_value(digits@.take(i + 1)));
        }
        if wide > u32::MAX as u64 {
            proof {
                if all_digits(digits@) {
                    lemma_value_grows(digits@, i + 1);
                }
            }
            return None;
        }
        value = wide as u32;
        i = i + 1;
    }
    proof {
        assert(digits@.take(digits@.len() as int) == digits@);
    }
    Some(value)
}

pub open spec fn digit_char(d: nat) -> char {
    (d + '0' as nat) as char
}

/// The decimal numeral of a number, without leading zeros.
pub open spec fn numeral(n: nat) -> Seq<char>
    decreases n,
{
    if n < 10 {
        seq![digit_char(n)]
    } else {
        numeral(n / 10).push(digit_char(n % 10))
    }
}

/// Appends the decimal numeral of `n` to `out`.
pub fn push_numeral(out: &mut String, n: u32)
    ensures
        final(out)@ == old(out)@ + numeral(n as nat),
    decreases n,
{
    if n >= 10 {
        push_numeral(out, n / 10);
    }
    let d: u8 = (n % 10) as u8;
    out.push((d + 48u8) as char);
    proof {
        assert(out@ =~= old(out)@ + numeral(n as nat));
    }
}

/// Reading the numeral of a 32-bit number gives the number back.
pub proof fn lemma_numeral_reads_back(n: u32)
    ensures
        u32_of(numeral(n as nat)) == Some(n),
{
    lemma_numeral_value(n as nat);
    assert(is_digit(numeral(n as nat)[0]));
}

pub proof fn lemma_numeral_value(n: nat)
    ensures
        numeral(n).len() > 0,
        all_digits(numeral(n)),
        digits_value(numeral(n)) == n,
    decreases n,
{
    let s = numeral(n);
    if n < 10 {
        assert(s.drop_last() =~= Seq::empty());
        assert(digits_value(s.drop_last()) == 0);
    } else {
        lemma_numeral_value(n / 10);
        assert(s.drop_last() =~= numeral(n / 10));
    }
}

} // verus!
