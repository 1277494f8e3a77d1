//! Numbers written in decimal digits: how a latency is read from the digits of
//! a probe report, and how a number is written into a report line.

use vstd::prelude::*;
use vstd::string::*;

verus! {

/// A decimal digit.
pub open spec fn is_digit(c: char) -> bool {
    '0' <= c <= '9'
}

/// The number that a sequence of decimal digits writes.
pub open spec fn decimal_value(digits: Seq<char>) -> nat
    decreases digits.len(),
{
    if digits.len() == 0 {
        0
    } else {
        10 * decimal_value(digits.drop_last()) + (digits.last() as u32 - '0' as u32) as nat
    }
}

/// The latency that `digits` stands for: its value where it is one or more
/// decimal digits and the value fits 32 bits, nothing otherwise.
pub open spec fn parse_latency(digits: Seq<char>) -> Option<u32> {
    if digits.len() > 0 && (forall|i: int| 0 <= i < digits.len() ==> is_digit(#[trigger] digits[i]))
        && decimal_value(digits) <= u32::MAX {
        Some(decimal_value(digits) as u32)
    } else {
        None
    }
}

proof fn lemma_decimal_value_grows(digits: Seq<char>, k: int)
    requires
        0 <= k <= digits.len(),
        forall|i: int| 0 <= i < digits.len() ==> is_digit(digits[i]),
    ensures
        decimal_value(digits.take(k)) <= decimal_value(digits),
    decreases digits.len(),
{
    if k == digits.len() {
        assert(digits.take(k) =~= digits);
    } else {
        let shorter = digits.drop_last();
        assert(shorter.take(k) =~= digits.take(k));
        lemma_decimal_value_grows(shorter, k);
    }
}

/// Reads a latency written in decimal digits.
pub fn latency_from_digits(digits: &str) -> (r: Option<u32>)
    ensures
        r == parse_latency(digits@),
{
    if !digits.is_ascii() {
        proof {
            if forall|i: int| 0 <= i < digits@.len() ==> is_digit(#[trigger] digits@[i]) {
                assert(vstd::utf8::is_ascii_chars(digits@));
            }
        }
        return None;
    }
    let bytes = digits.as_bytes();
    proof {
        is_ascii_spec_bytes(digits);
    }
    let n = bytes.len();
    if n == 0 {
        return None;
    }
    let mut value: u64 = 0;
    let mut i: usize = 0;
    while i < n
        invariant
            i <= n,
            n == digits@.len(),
            n == bytes@.len(),
            is_ascii(digits),
            forall|j: int| 0 <= j < n ==> bytes@[j] == digits@[j] as u8,
            forall|j: int| 0 <= j < i ==> is_digit(digits@[j]),
            value == decimal_value(digits@.take(i as int)),
            value <= u32::MAX,
        decreases n - i,
    {
        let b = bytes[i];
        if b < 0x30 || b > 0x39 {
            assert(!is_digit(digits@[i as int]));
            return None;
        }
        proof {
            let next = digits@.take(i + 1);
            assert(next.drop_last() =~= digits@.take(i as int));
            assert(next.last() == digits@[i as int]);
            assert(is_digit(digits@[i as int]));
        }
        value = value * 10 + (b - 0x30) as u64;
        if value > u32::MAX as u64 {
            proof {
                if forall|j: int| 0 <= j < n ==> is_digit(digits@[j]) {
                    lemma_decimal_value_grows(digits@, i + 1);
                }
            }
            return None;
        }
        i = i + 1;
    }
    assert(digits@.take(n as int) =~= digits@);
    Some(value as u32)
}

/// The digit for a value below ten.
pub open spec fn digit_char(value: nat) -> char {
    (value + 0x30) as char
}

/// The decimal digits that write `n`, without leading zeros.
pub open spec fn decimal_digits(n: nat) -> Seq<char>
    decreases n,
{
    if n < 10 {
        seq![digit_char(n)]
    } else {
        decimal_digits(n / 10).push(digit_char(n % 10))
    }
}

/// Calls `String::push`, which appends one character.
#[verifier::external_body]
fn push_char(out: &mut String, c: char)
    ensures
        final(out)@ == old(out)@.push(c),
{
    out.push(c)
}

/// Appends `n` in decimal digits to `out`.
pub fn push_decimal(out: &mut String, n: u32)
    ensures
        final(out)@ == old(out)@ + decimal_digits(n as nat),
    decreases n,
{
    if n >= 10 {
        push_decimal(out, n / 10);
    }
    let digit = (n % 10) as u8 + 0x30;
    push_char(out, digit as char);
    assert(out@ =~= old(out)@ + decimal_digits(n as nat));
}

/// What is written can be read: the digits that write a number are decimal
/// digits and stand for that number.
pub proof fn lemma_digits_read_back(n: nat)
    ensures
        decimal_digits(n).len() > 0,
        forall|i: int| 0 <= i < decimal_digits(n).len() ==> is_digit(#[trigger] decimal_digits(n)[i]),
        decimal_value(decimal_digits(n)) == n,
    decreases n,
{
    if n < 10 {
        let one = decimal_digits(n);
        assert(one.drop_last() =~= Seq::<char>::empty());
        assert(decimal_value(one.drop_last()) == 0);
    } else {
        lemma_digits_read_back(n / 10);
        let all = decimal_digits(n);
        assert(all.drop_last() =~= decimal_digits(n / 10));
    }
}

/// A latency written in decimal digits is read back as it was.
pub proof fn lemma_latency_reads_back(ms: u32)
    ensures
        parse_latency(decimal_digits(ms as nat)) == Some(ms),
{
    lemma_digits_read_back(ms as nat);
}

} // verus!
