//! Decimal numbers as they appear in a status line and in `Content-Length`.

use vstd::prelude::*;
use vstd::string::StringExecFns;
use vstd::utf8::*;
use crate::text::lemma_encode_concat;

verus! {

pub const PLUS: u8 = 0x2b;

/// The character that writes the digit `d`.
pub open spec fn digit_char(d: int) -> char {
    if d == 0 {
        '0'
    } else if d == 1 {
        '1'
    } else if d == 2 {
        '2'
    } else if d == 3 {
        '3'
    } else if d == 4 {
        '4'
    } else if d == 5 {
        '5'
    } else if d == 6 {
        '6'
    } else if d == 7 {
        '7'
    } else if d == 8 {
        '8'
    } else {
        '9'
    }
}

/// `n` written in base ten, without sign or leading zeros.
pub open spec fn decimal(n: nat) -> Seq<char>
    decreases n,
{
    if n < 10 {
        seq![digit_char(n as int)]
    } else {
        decimal(n / 10).push(digit_char((n % 10) as int))
    }
}

/// The digits of `ds`, given least significant first, written most significant first.
pub open spec fn written(ds: Seq<u8>) -> Seq<char> {
    Seq::new(ds.len(), |i: int| digit_char(ds[ds.len() - 1 - i] as int))
}

fn digit_str(d: u8) -> (r: &'static str)
    requires
        d < 10,
    ensures
        r@ == seq![digit_char(d as int)],
{
    let r = match d {
        0 => "0",
        1 => "1",
        2 => "2",
        3 => "3",
        4 => "4",
        5 => "5",
        6 => "6",
        7 => "7",
        8 => "8",
        _ => "9",
    };
    proof {
        reveal_strlit("0");
        reveal_strlit("1");
        reveal_strlit("2");
        reveal_strlit("3");
        reveal_strlit("4");
        reveal_strlit("5");
        reveal_strlit("6");
        reveal_strlit("7");
        reveal_strlit("8");
        reveal_strlit("9");
    }
    r
}

/// Writes `n` in base ten.
pub fn to_decimal(n: usize) -> (r: String)
    ensures
        r@ == decimal(n as nat),
{
    let mut digits: Vec<u8> = Vec::new();
    let mut m: usize = n;
    while m >= 10
        invariant
            decimal(n as nat) == decimal(m as nat) + written(digits@),
            forall|i: int| 0 <= i < digits@.len() ==> digits@[i] < 10,
        decreases m,
    {
        digits.push((m % 10) as u8);
        m = m / 10;
    }
    let mut out = String::new();
    out.append(digit_str(m as u8));
    let mut i: usize = digits.len();
    while i > 0
        invariant
            i <= digits@.len(),
            m < 10,
            forall|k: int| 0 <= k < digits@.len() ==> digits@[k] < 10,
            out@ == decimal(m as nat) + written(digits@).subrange(0, digits@.len() - i),
        decreases i,
    {
        i -= 1;
        out.append(digit_str(digits[i]));
    }
    out
}

/// Whether `b` is one of `0` to `9`.
pub open spec fn is_digit(b: u8) -> bool {
    0x30 <= b && b <= 0x39
}

/// Whether every byte of `s` is a digit.
pub open spec fn all_digits(s: Seq<u8>) -> bool {
    forall|i: int| 0 <= i < s.len() ==> is_digit(#[trigger] s[i])
}

/// The number that the digits `s` write in base ten.
pub open spec fn digits_value(s: Seq<u8>) -> nat
    decreases s.len(),
{
    if s.len() == 0 {
        0
    } else {
        digits_value(s.drop_last()) * 10 + (s.last() - 0x30) as nat
    }
}

/// `s` without the one plus sign that may stand in front of a number.
pub open spec fn unsigned_part(s: Seq<u8>) -> Seq<u8> {
    if s.len() > 0 && s[0] == PLUS {
        s.subrange(1, s.len() as int)
    } else {
        s
    }
}

/// The number that `s` writes: an optional plus sign, then at least one digit
/// and nothing else. `None` for every other `s`.
pub open spec fn number(s: Seq<u8>) -> Option<nat> {
    let d = unsigned_part(s);
    if d.len() > 0 && all_digits(d) {
        Some(digits_value(d))
    } else {
        None
    }
}

/// The number that `s` writes, if it writes one that fits in a `usize`.
pub open spec fn number_in_range(s: Seq<u8>) -> Option<usize> {
    match number(s) {
        Some(v) => if v <= usize::MAX {
            Some(v as usize)
        } else {
            None
        },
        None => None,
    }
}

/// A number is at least as large as the number written by any of its prefixes.
pub proof fn lemma_digits_value_prefix(s: Seq<u8>, k: int)
    requires
        0 <= k <= s.len(),
        all_digits(s),
    ensures
        digits_value(s.subrange(0, k)) <= digits_value(s),
    decreases s.len() - k,
{
    if k < s.len() {
        let longer = s.subrange(0, k + 1);
        assert(longer.drop_last() =~= s.subrange(0, k));
        lemma_digits_value_prefix(s, k + 1);
    } else {
        assert(s.subrange(0, k) =~= s);
    }
}

/// Reads a decimal number; `None` if `s` does not write one or it does not fit.
pub fn parse_number(s: &[u8]) -> (r: Option<usize>)
    ensures
        r == number_in_range(s@),
{
    let start: usize = if s.len() > 0 && s[0] == PLUS {
        1
    } else {
        0
    };
    if start == s.len() {
        return None;
    }
    let ghost d = unsigned_part(s@);
    let mut acc: usize = 0;
    let mut i: usize = start;
    while i < s.len()
        invariant
            start <= i <= s.len(),
            d == unsigned_part(s@),
            d == s@.subrange(start as int, s@.len() as int),
            all_digits(d.subrange(0, i - start)),
            acc == digits_value(d.subrange(0, i - start)),
        decreases s.len() - i,
    {
        let b = s[i];
        let ghost k = i - start;
        assert(d[k] == b);
        if !(0x30 <= b && b <= 0x39) {
            return None;
        }
        proof {
            let longer = d.subrange(0, k + 1);
            assert(longer.drop_last() =~= d.subrange(0, k));
        }
        let next = match acc.checked_mul(10) {
            Some(t) => t.checked_add((b - 0x30) as usize),
            None => None,
        };
        match next {
            Some(v) => {
                acc = v;
            },
            None => {
                proof {
                    if all_digits(d) {
                        lemma_digits_value_prefix(d, k + 1);
                    }
                }
                return None;
            },
        }
        i += 1;
    }
    assert(d.subrange(0, i - start) =~= d);
    Some(acc)
}

/// A number that was written reads back as itself: the digits that `decimal`
/// writes are, on the wire, a number in the sense of `number`, and it is the
/// number that was written.
pub proof fn lemma_decimal_reads_back(n: nat)
    ensures
        encode_utf8(decimal(n)).len() > 0,
        all_digits(encode_utf8(decimal(n))),
        digits_value(encode_utf8(decimal(n))) == n,
        number(encode_utf8(decimal(n))) == Some(n),
    decreases n,
{
    let last = seq![digit_char((n % 10) as int)];
    is_ascii_chars_encode_utf8(last);
    if n < 10 {
        let bytes = encode_utf8(decimal(n));
        assert(digits_value(bytes.drop_last()) == 0);
    } else {
        let front = decimal(n / 10);
        lemma_decimal_reads_back(n / 10);
        assert(decimal(n) =~= front + last);
        lemma_encode_concat(front, last);
        let bytes = encode_utf8(decimal(n));
        assert(bytes.drop_last() =~= encode_utf8(front));
    }
}

} // verus!
