//! Unsigned decimal numbers as the markup writes them: an optional plus
//! sign, then digits.

use vstd::prelude::*;
use vstd::string::StringExecFns;

verus! {

/// Whether `b` is the byte of an ASCII digit.
pub open spec fn digit_byte(b: u8) -> bool {
    48 <= b <= 57
}

/// Whether every byte of `s` is the byte of an ASCII digit.
pub open spec fn all_digit_bytes(s: Seq<u8>) -> bool {
    forall|i: int| 0 <= i < s.len() ==> digit_byte(#[trigger] s[i])
}

/// The number that a run of digits writes, the most significant first.
pub open spec fn decimal_value(digits: Seq<u8>) -> nat
    decreases digits.len(),
{
    if digits.len() == 0 {
        0
    } else {
        decimal_value(digits.drop_last()) * 10 + (digits.last() - 48) as nat
    }
}

/// The digits of a number: the text without its plus sign, if it has one.
pub open spec fn digits_of(text: Seq<u8>) -> Seq<u8> {
    if text.len() > 0 && text[0] == 43 {
        text.drop_first()
    } else {
        text
    }
}

/// The number that `text` writes, where it writes one that is at most
/// `max`: an optional plus sign, then at least one digit and nothing else.
pub open spec fn unsigned_decimal(text: Seq<u8>, max: nat) -> Option<nat> {
    let digits = digits_of(text);
    if digits.len() > 0 && all_digit_bytes(digits) && decimal_value(digits) <= max {
        Some(decimal_value(digits))
    } else {
        None
    }
}

/// A run of digits writes no smaller a number than any of its beginnings.
pub proof fn lemma_decimal_value_grows(digits: Seq<u8>, k: int)
    requires
        0 <= k <= digits.len(),
        all_digit_bytes(digits),
    ensures
        decimal_value(digits.take(k)) <= decimal_value(digits),
    decreases digits.len() - k,
{
    if k == digits.len() {
        assert(digits.take(k) =~= digits);
    } else {
        lemma_decimal_value_grows(digits, k + 1);
        assert(digits.take(k + 1).drop_last() =~= digits.take(k));
        assert(digit_byte(digits[k]));
    }
}

/// Reads an unsigned number that is at most `max`.
fn parse_bounded(text: &[u8], max: u64) -> (value: Option<u64>)
    requires
        max <= u32::MAX,
    ensures
        value == match unsigned_decimal(text@, max as nat) {
            Some(v) => Some(v as u64),
            None => None,
        },
{
    let n = text.len();
    let start: usize = if n > 0 && text[0] == 43 {
        1
    } else {
        0
    };
    let ghost digits = digits_of(text@);
    assert(digits =~= text@.skip(start as int));
    if start == n {
        return None;
    }
    let mut acc: u64 = 0;
    let mut i: usize = start;
    assert(digits.take(0) =~= Seq::empty());
    while i < n
        invariant
            start <= i <= n,
            n == text@.len(),
            digits == text@.skip(start as int),
            digits == digits_of(text@),
            max <= u32::MAX,
            all_digit_bytes(digits.take(i - start)),
            acc == decimal_value(digits.take(i - start)),
            acc <= max,
        decreases n - i,
    {
        let b = text[i];
        assert(digits[i - start] == b);
        if b < 48 || b > 57 {
            assert(!all_digit_bytes(digits));
            return None;
        }
        let next = acc * 10 + (b - 48) as u64;
        proof {
            let longer = digits.take(i - start + 1);
            assert(longer.drop_last() =~= digits.take(i - start));
            assert(longer.last() == b);
            assert(next == decimal_value(longer));
            assert forall|j: int| 0 <= j < longer.len() implies digit_byte(
                #[trigger] longer[j],
            ) by {
                if j < i - start {
                    assert(digit_byte(digits.take(i - start)[j]));
                }
            }
        }
        if next > max {
            proof {
                if all_digit_bytes(digits) {
                    lemma_decimal_value_grows(digits, i - start + 1);
                }
            }
            return None;
        }
        acc = next;
        i += 1;
    }
    assert(digits.take(n - start) =~= digits);
    Some(acc)
}

/// Reads an unsigned 16-bit number.
pub fn parse_u16(text: &[u8]) -> (value: Option<u16>)
    ensures
        value == match unsigned_decimal(text@, 0xffff) {
            Some(v) => Some(v as u16),
            None => None,
        },
{
    match parse_bounded(text, 0xffff) {
        Some(v) => Some(v as u16),
        None => None,
    }
}

/// Reads an unsigned 32-bit number.
pub fn parse_u32(text: &[u8]) -> (value: Option<u32>)
    ensures
        value == match unsigned_decimal(text@, 0xffff_ffff) {
            Some(v) => Some(v as u32),
            None => None,
        },
{
    match parse_bounded(text, 0xffff_ffff) {
        Some(v) => Some(v as u32),
        None => None,
    }
}

/// The character of a digit.
pub open spec fn digit_char(d: nat) -> char {
    seq!['0', '1', '2', '3', '4', '5', '6', '7', '8', '9'][d as int]
}

/// A number as it is written in decimal, without a sign and without
/// leading zeros.
pub open spec fn decimal_text(n: nat) -> Seq<char>
    decreases n,
{
    if n < 10 {
        seq![digit_char(n)]
    } else {
        decimal_text(n / 10).push(digit_char(n % 10))
    }
}

/// A digit as a text.
fn digit_str(d: u32) -> (text: &'static str)
    requires
        d < 10,
    ensures
        text@ == seq![digit_char(d as nat)],
{
    proof {
        reveal_strlit("0");
        reveal_strlit("1");
        reveal_strlit("2");
        reveal_strlit("3");
        reveal_strlit("4");
        reveal_strlit("5");
        reveal_strlit("6");
        reveal_strlit("7");
        reveal_strlit("8");
        reveal_strlit("9");
    }
    let text = if d == 0 {
        "0"
    } else if d == 1 {
        "1"
    } else if d == 2 {
        "2"
    } else if d == 3 {
        "3"
    } else if d == 4 {
        "4"
    } else if d == 5 {
        "5"
    } else if d == 6 {
        "6"
    } else if d == 7 {
        "7"
    } else if d == 8 {
        "8"
    } else {
        "9"
    };
    assert(text@ =~= seq![digit_char(d as nat)]);
    text
}

/// Writes a number in decimal at the end of `out`.
pub fn push_decimal(out: &mut String, n: u32)
    ensures
        final(out)@ == old(out)@ + decimal_text(n as nat),
    decreases n,
{
    if n >= 10 {
        push_decimal(out, n / 10);
    }
    out.append(digit_str(n % 10));
    assert(out@ =~= old(out)@ + decimal_text(n as nat));
}

} // verus!
