//! Strings and their UTF-8 bytes. A `String` is read through its view, a
//! `Seq<char>`; the wire carries `encode_utf8` of that view.

use vstd::prelude::*;
use vstd::slice::{slice_subrange, slice_to_vec};
use vstd::utf8::*;
use crate::bytes::{
    bytes_eq, crlf_at, drop_spaces, lowered, skip_spaces, space_at, space_before, starts_with, trim,
};

verus! {

/// `String::from_utf8` of the standard library: it accepts exactly the byte
/// strings that are well-formed UTF-8, and the string it returns holds the
/// characters that those bytes encode.
#[verifier::external_body]
fn string_from_utf8(bytes: Vec<u8>) -> (r: Option<String>)
    ensures
        r is Some <==> valid_utf8(bytes@),
        r matches Some(s) ==> s@ == decode_utf8(bytes@),
{
    String::from_utf8(bytes).ok()
}

/// The characters that `bytes` would decode to, if they are well-formed UTF-8.
pub open spec fn decoded(bytes: Seq<u8>) -> Option<Seq<char>> {
    if valid_utf8(bytes) {
        Some(decode_utf8(bytes))
    } else {
        None
    }
}

/// Reads `bytes` as UTF-8 text; `None` if they are not well-formed.
pub fn decode_text(bytes: &[u8]) -> (r: Option<String>)
    ensures
        r is Some <==> decoded(bytes@) is Some,
        r matches Some(s) ==> decoded(bytes@) == Some(s@),
{
    string_from_utf8(slice_to_vec(bytes))
}

/// Two character sequences with the same UTF-8 bytes are the same sequence.
pub proof fn lemma_encode_injective(a: Seq<char>, b: Seq<char>)
    requires
        encode_utf8(a) == encode_utf8(b),
    ensures
        a == b,
{
    encode_utf8_decode_utf8(a);
    encode_utf8_decode_utf8(b);
}

/// Encoding what was decoded gives the bytes back, and the other way round.
pub proof fn lemma_decoded_roundtrip(bytes: Seq<u8>, chars: Seq<char>)
    ensures
        decoded(bytes) == Some(chars) ==> encode_utf8(chars) == bytes,
        decoded(encode_utf8(chars)) == Some(chars),
{
    encode_utf8_valid_utf8(chars);
    encode_utf8_decode_utf8(chars);
    if valid_utf8(bytes) {
        decode_utf8_encode_utf8(bytes);
    }
}

/// Whether two strings hold the same characters.
pub fn str_eq(a: &str, b: &str) -> (r: bool)
    ensures
        r == (a@ == b@),
{
    let same = bytes_eq(a.as_bytes(), b.as_bytes());
    proof {
        if same {
            lemma_encode_injective(a@, b@);
        }
    }
    same
}

/// The bytes of a concatenation are the bytes of its parts, one after the other.
pub proof fn lemma_encode_concat(a: Seq<char>, b: Seq<char>)
    ensures
        encode_utf8(a + b) == encode_utf8(a) + encode_utf8(b),
    decreases a.len(),
{
    if a.len() > 0 {
        lemma_encode_concat(a.drop_first(), b);
        assert((a + b).drop_first() =~= a.drop_first() + b);
    }
}

/// One string begins with another exactly when its bytes begin with the
/// bytes of the other: UTF-8 never lets one character's bytes start another's.
pub proof fn lemma_prefix_bytes(p: Seq<char>, s: Seq<char>)
    ensures
        encode_utf8(p).is_prefix_of(encode_utf8(s)) == p.is_prefix_of(s),
    decreases p.len(),
{
    let bp = encode_utf8(p);
    let bs = encode_utf8(s);
    if p.is_prefix_of(s) {
        let rest = s.subrange(p.len() as int, s.len() as int);
        assert(s =~= p + rest);
        lemma_encode_concat(p, rest);
    }
    if bp.is_prefix_of(bs) && p.len() > 0 {
        encode_utf8_first_scalar(p);
        encode_utf8_first_scalar(s);
        char_u32_cast(p[0], p[0] as u32);
        char_u32_cast(s[0], s[0] as u32);
        let k = encode_scalar(p[0] as u32).len() as int;
        assert(encode_utf8(p.drop_first()) =~= bp.subrange(k, bp.len() as int));
        lemma_prefix_bytes(p.drop_first(), s.drop_first());
        let q = p.drop_first();
        let t = s.drop_first();
        assert forall|i: int| 0 <= i < p.len() implies p[i] == s[i] by {
            if i > 0 {
                assert(q[i - 1] == t.subrange(0, q.len() as int)[i - 1]);
            }
        }
        assert(p =~= s.subrange(0, p.len() as int));
    }
}

/// Of two beginnings of one string, the one with more characters has more bytes.
pub proof fn lemma_prefix_lengths(a: Seq<char>, b: Seq<char>, s: Seq<char>)
    requires
        a.is_prefix_of(s),
        b.is_prefix_of(s),
    ensures
        (a.len() < b.len()) == (encode_utf8(a).len() < encode_utf8(b).len()),
{
    if a.len() <= b.len() {
        let rest = b.subrange(a.len() as int, b.len() as int);
        assert(b =~= a + rest);
        lemma_encode_concat(a, rest);
    } else {
        let rest = a.subrange(b.len() as int, a.len() as int);
        assert(a =~= b + rest);
        lemma_encode_concat(b, rest);
    }
}

/// Whether `s` begins with `prefix`.
pub fn str_starts_with(s: &str, prefix: &str) -> (r: bool)
    ensures
        r == prefix@.is_prefix_of(s@),
{
    proof {
        lemma_prefix_bytes(prefix@, s@);
    }
    starts_with(s.as_bytes(), prefix.as_bytes())
}

/// What follows `prefix` in `s`; `None` if `s` does not begin with `prefix`.
pub fn strip_prefix(s: &str, prefix: &str) -> (r: Option<String>)
    ensures
        match r {
            Some(rest) => prefix@.is_prefix_of(s@) && rest@ == s@.subrange(
                prefix@.len() as int,
                s@.len() as int,
            ),
            None => !prefix@.is_prefix_of(s@),
        },
{
    if !str_starts_with(s, prefix) {
        return None;
    }
    proof {
        lemma_prefix_bytes(prefix@, s@);
    }
    let bytes = s.as_bytes();
    let tail = slice_subrange(bytes, prefix.as_bytes().len(), bytes.len());
    proof {
        let rest = s@.subrange(prefix@.len() as int, s@.len() as int);
        assert(s@ =~= prefix@ + rest);
        lemma_encode_concat(prefix@, rest);
        assert(tail@ =~= encode_utf8(rest));
        lemma_decoded_roundtrip(tail@, rest);
    }
    decode_text(tail)
}

/// How a string starts on the wire. A first byte below 0x80 is a whole
/// character, the one with that number; any other first character is written
/// with bytes from 0x80 up only.
pub proof fn lemma_first_character(chars: Seq<char>)
    requires
        chars.len() > 0,
    ensures
        ({
            let bytes = encode_utf8(chars);
            let width = encode_scalar(chars[0] as u32).len() as int;
            &&& 1 <= width <= bytes.len()
            &&& encode_utf8(chars.drop_first()) == bytes.subrange(width, bytes.len() as int)
            &&& bytes[0] < 0x80 ==> width == 1 && chars[0] as u32 == bytes[0] as u32
            &&& bytes[0] >= 0x80 ==> forall|i: int| 0 <= i < width ==> bytes[i] >= 0x80
        }),
{
    let bytes = encode_utf8(chars);
    encode_utf8_first_scalar(chars);
    let first = bytes[0];
    if first < 0x80 {
        assert(first & 0x7f == first) by (bit_vector)
            requires
                first < 0x80,
        ;
    }
}

/// Text without an ASCII character has no byte with the number of that character.
pub proof fn lemma_ascii_absent(chars: Seq<char>, c: char)
    requires
        (c as u32) < 0x80,
        !chars.contains(c),
    ensures
        !encode_utf8(chars).contains(c as u8),
    decreases chars.len(),
{
    let bytes = encode_utf8(chars);
    if bytes.contains(c as u8) {
        let j = choose|j: int| 0 <= j < bytes.len() && bytes[j] == c as u8;
        lemma_first_character(chars);
        let width = encode_scalar(chars[0] as u32).len() as int;
        let rest = chars.drop_first();
        if j < width {
            // The byte belongs to the first character, which then is `c`.
            if bytes[0] < 0x80 {
                char_u32_cast(chars[0], chars[0] as u32);
                assert(chars[0] == c);
            }
        } else {
            lemma_ascii_absent(rest, c);
            assert(encode_utf8(rest)[j - width] == bytes[j]);
        }
    }
}

/// Whether a carriage return stands right before a line feed somewhere in `chars`.
pub open spec fn has_line_break(chars: Seq<char>) -> bool {
    exists|i: int| 0 <= i && i + 1 < chars.len() && chars[i] == '\r' && #[trigger] chars[i + 1] == '\n'
}

/// Text without a line break has bytes without a line terminator.
pub proof fn lemma_line_break_absent(chars: Seq<char>)
    requires
        !has_line_break(chars),
    ensures
        forall|j: int| !crlf_at(encode_utf8(chars), j),
    decreases chars.len(),
{
    let bytes = encode_utf8(chars);
    assert forall|j: int| !crlf_at(bytes, j) by {
        if crlf_at(bytes, j) {
            lemma_first_character(chars);
            let width = encode_scalar(chars[0] as u32).len() as int;
            let rest = chars.drop_first();
            let tail = encode_utf8(rest);
            if j < width {
                // The terminator is the first two characters themselves.
                lemma_first_character(rest);
                char_u32_cast(chars[0], chars[0] as u32);
                char_u32_cast(rest[0], rest[0] as u32);
                assert(chars[0] == '\r' && chars[1] == '\n');
            } else {
                // The terminator lies in what follows the first character.
                assert(!has_line_break(rest)) by {
                    if has_line_break(rest) {
                        let i = choose|i: int|
                            0 <= i && i + 1 < rest.len() && rest[i] == '\r' && #[trigger] rest[i
                                + 1] == '\n';
                        assert(chars[i + 1] == '\r' && chars[i + 1 + 1] == '\n');
                    }
                }
                lemma_line_break_absent(rest);
                assert(crlf_at(tail, j - width));
            }
        }
    }
}

/// The lower-case form of an ASCII capital letter; every other character unchanged.
pub open spec fn lower_char(c: char) -> char {
    if 'A' <= c && c <= 'Z' {
        ((c as u8 + 0x20) as u8) as char
    } else {
        c
    }
}

/// `text` with every ASCII capital letter replaced by its lower-case form.
pub open spec fn lowered_text(text: Seq<char>) -> Seq<char> {
    Seq::new(text.len(), |i: int| lower_char(text[i]))
}

/// Lowering the ASCII capitals of a text and lowering them in its bytes come
/// to the same bytes.
pub proof fn lemma_lowered_bytes(text: Seq<char>)
    ensures
        lowered(encode_utf8(text)) == encode_utf8(lowered_text(text)),
    decreases text.len(),
{
    if text.len() > 0 {
        let c = text[0];
        let rest = text.drop_first();
        let head = seq![c];
        let low_head = seq![lower_char(c)];
        lemma_lowered_bytes(rest);
        assert(lowered_text(text) =~= low_head + lowered_text(rest));
        lemma_encode_concat(low_head, lowered_text(rest));
        if (c as u32) < 0x80 {
            is_ascii_chars_encode_utf8(head);
            is_ascii_chars_encode_utf8(low_head);
        } else {
            lemma_first_character(head);
        }
    }
}

/// Comparing lowered bytes with the bytes of `word` is comparing the lowered
/// text with `word`.
pub proof fn lemma_lowered_eq(text: Seq<char>, word: Seq<char>)
    ensures
        (lowered(encode_utf8(text)) == encode_utf8(word)) == (lowered_text(text) == word),
{
    lemma_lowered_bytes(text);
    if encode_utf8(lowered_text(text)) == encode_utf8(word) {
        lemma_encode_injective(lowered_text(text), word);
    }
}

/// Whether `c` is a whitespace character: one with the Unicode property
/// White_Space.
pub open spec fn is_white_space(c: char) -> bool {
    let n = c as u32;
    ||| 0x09 <= n && n <= 0x0d
    ||| n == 0x20
    ||| n == 0x85
    ||| n == 0xa0
    ||| n == 0x1680
    ||| 0x2000 <= n && n <= 0x200a
    ||| n == 0x2028
    ||| n == 0x2029
    ||| n == 0x202f
    ||| n == 0x205f
    ||| n == 0x3000
}

/// The bytes that `space_at` takes for a whitespace character are the UTF-8
/// forms of the White_Space characters, and of no other character.
pub proof fn lemma_white_space_bytes(c: char)
    ensures
        space_at(encode_utf8(seq![c]), 0) == if is_white_space(c) {
            encode_utf8(seq![c]).len() as int
        } else {
            0
        },
{
    let n = c as u32;
    let text = seq![c];
    let bytes = encode_utf8(text);
    char_is_scalar(c);
    assert(encode_utf8(text.drop_first()) =~= Seq::<u8>::empty());
    assert(bytes =~= encode_scalar(n));
    if has_width_1_encoding(n) {
        let b0 = bytes[0];
        assert(b0 == n) by (bit_vector)
            requires
                n <= 0x7f,
                b0 == (n & 0x7f) as u8,
        ;
    } else if has_width_2_encoding(n) {
        let b0 = bytes[0];
        let b1 = bytes[1];
        assert(0xc0 <= b0 && b0 <= 0xdf && ((b0 == 0xc2 && b1 == 0x85) <==> n == 0x85) && ((b0
            == 0xc2 && b1 == 0xa0) <==> n == 0xa0)) by (bit_vector)
            requires
                0x80 <= n && n <= 0x7ff,
                b0 == 0xc0u8 | (((n >> 6) & 0x1f) as u8),
                b1 == 0x80u8 | ((n & 0x3f) as u8),
        ;
    } else if has_width_3_encoding(n) {
        let b0 = bytes[0];
        let b1 = bytes[1];
        let b2 = bytes[2];
        assert(0xe0 <= b0 && b0 <= 0xef && ((b0 == 0xe1 && b1 == 0x9a && b2 == 0x80) <==> n
            == 0x1680) && ((b0 == 0xe2 && b1 == 0x80 && 0x80 <= b2 && b2 <= 0x8a) <==> (0x2000
            <= n && n <= 0x200a)) && ((b0 == 0xe2 && b1 == 0x80 && b2 == 0xa8) <==> n == 0x2028)
            && ((b0 == 0xe2 && b1 == 0x80 && b2 == 0xa9) <==> n == 0x2029) && ((b0 == 0xe2 && b1
            == 0x80 && b2 == 0xaf) <==> n == 0x202f) && ((b0 == 0xe2 && b1 == 0x81 && b2 == 0x9f)
            <==> n == 0x205f) && ((b0 == 0xe3 && b1 == 0x80 && b2 == 0x80) <==> n == 0x3000))
            by (bit_vector)
            requires
                0x800 <= n && n <= 0xffff,
                b0 == 0xe0u8 | (((n >> 12) & 0x0f) as u8),
                b1 == 0x80u8 | (((n >> 6) & 0x3f) as u8),
                b2 == 0x80u8 | ((n & 0x3f) as u8),
        ;
    } else {
        let b0 = bytes[0];
        assert(0xf0 <= b0) by (bit_vector)
            requires
                b0 == 0xf0u8 | (((n >> 18) & 0x7) as u8),
        ;
    }
}

/// Index of the first character at or after `i` that is not whitespace, or
/// `text.len()`.
pub open spec fn skip_white(text: Seq<char>, i: int) -> int
    decreases text.len() - i,
{
    if 0 <= i && i < text.len() && is_white_space(text[i]) {
        skip_white(text, i + 1)
    } else {
        i
    }
}

/// The least end `k >= lo` such that `text[k..j]` is all whitespace.
pub open spec fn drop_white(text: Seq<char>, lo: int, j: int) -> int
    decreases j,
{
    if 0 <= lo && lo < j && j <= text.len() && is_white_space(text[j - 1]) {
        drop_white(text, lo, j - 1)
    } else {
        j
    }
}

/// `text` without its leading and trailing whitespace characters.
pub open spec fn trimmed_text(text: Seq<char>) -> Seq<char> {
    let lo = skip_white(text, 0);
    let hi = drop_white(text, lo, text.len() as int);
    text.subrange(lo, hi)
}

/// The number of bytes that the first `i` characters of `text` take.
pub open spec fn offset(text: Seq<char>, i: int) -> int {
    encode_utf8(text.subrange(0, i)).len() as int
}

/// How one character is written: in one to four bytes, the first of which
/// tells how many there are, and the others are continuation bytes.
pub proof fn lemma_character_bytes(c: char)
    ensures
        ({
            let b = encode_utf8(seq![c]);
            &&& 1 <= b.len() <= 4
            &&& b.len() == 1 ==> b[0] <= 0x7f
            &&& b.len() == 2 ==> 0xc0 <= b[0] <= 0xdf
            &&& b.len() == 3 ==> 0xe0 <= b[0] <= 0xef
            &&& b.len() == 4 ==> 0xf0 <= b[0] <= 0xf7
            &&& forall|k: int| 1 <= k < b.len() ==> 0x80 <= #[trigger] b[k] <= 0xbf
        }),
{
    let text = seq![c];
    encode_utf8_first_scalar(text);
    assert(encode_utf8(text.drop_first()) =~= Seq::<u8>::empty());
    assert(encode_utf8(text) =~= encode_scalar(c as u32));
}

/// The text cut in three at `i` and `j`, on the wire.
proof fn lemma_encode_cut(text: Seq<char>, i: int, j: int)
    requires
        0 <= i <= j <= text.len(),
    ensures
        encode_utf8(text) == encode_utf8(text.subrange(0, i)) + encode_utf8(text.subrange(i, j))
            + encode_utf8(text.subrange(j, text.len() as int)),
        offset(text, j) == offset(text, i) + encode_utf8(text.subrange(i, j)).len(),
        offset(text, 0) == 0,
        offset(text, text.len() as int) == encode_utf8(text).len(),
        encode_utf8(text).subrange(offset(text, i), offset(text, j)) == encode_utf8(
            text.subrange(i, j),
        ),
{
    let a = text.subrange(0, i);
    let b = text.subrange(i, j);
    let c = text.subrange(j, text.len() as int);
    assert(text.subrange(0, j) =~= a + b);
    assert(text =~= text.subrange(0, j) + c);
    lemma_encode_concat(a, b);
    lemma_encode_concat(text.subrange(0, j), c);
    assert(text.subrange(0, 0) =~= Seq::<char>::empty());
    assert(text.subrange(0, text.len() as int) =~= text);
    assert(encode_utf8(text).subrange(offset(text, i), offset(text, j)) =~= encode_utf8(b));
}

/// Where a character starts on the wire, a whitespace character starts
/// exactly if that character is one, and it is as long as that character.
proof fn lemma_space_at_character(text: Seq<char>, i: int)
    requires
        0 <= i < text.len(),
    ensures
        space_at(encode_utf8(text), offset(text, i)) == if is_white_space(text[i]) {
            offset(text, i + 1) - offset(text, i)
        } else {
            0
        },
        offset(text, i) < offset(text, i + 1) <= encode_utf8(text).len(),
{
    let s = encode_utf8(text);
    let c = encode_utf8(seq![text[i]]);
    let at = offset(text, i);
    lemma_encode_cut(text, i, i + 1);
    assert(text.subrange(i, i + 1) =~= seq![text[i]]);
    lemma_character_bytes(text[i]);
    lemma_white_space_bytes(text[i]);
    assert(forall|k: int| 0 <= k < c.len() ==> s[at + k] == c[k]);
    assert(c.len() >= 2 ==> 0x80 <= c[1] <= 0xbf);
    assert(c.len() >= 3 ==> 0x80 <= c[2] <= 0xbf);
}

/// Where a character ends on the wire, a whitespace character ends exactly
/// if that character is one, and it is as long as that character.
proof fn lemma_space_before_character(text: Seq<char>, lo: int, j: int)
    requires
        0 <= lo <= j <= text.len(),
    ensures
        space_before(encode_utf8(text), offset(text, lo), offset(text, j)) == if lo < j
            && is_white_space(text[j - 1]) {
            offset(text, j) - offset(text, j - 1)
        } else {
            0
        },
        lo < j ==> offset(text, lo) <= offset(text, j - 1) < offset(text, j),
        offset(text, j) <= encode_utf8(text).len(),
{
    let s = encode_utf8(text);
    let end = offset(text, j);
    lemma_encode_cut(text, lo, j);
    if lo < j {
        let c = encode_utf8(seq![text[j - 1]]);
        lemma_encode_cut(text, j - 1, j);
        lemma_encode_cut(text, lo, j - 1);
        assert(text.subrange(j - 1, j) =~= seq![text[j - 1]]);
        lemma_character_bytes(text[j - 1]);
        lemma_white_space_bytes(text[j - 1]);
        let at = offset(text, j - 1);
        assert(forall|k: int| 0 <= k < c.len() ==> s[at + k] == c[k]);
        assert(c.len() >= 2 ==> 0x80 <= c[1] <= 0xbf);
        assert(c.len() >= 3 ==> 0x80 <= c[2] <= 0xbf);
        assert(c.len() >= 4 ==> 0x80 <= c[3] <= 0xbf);
        assert(s[end - 1] == c[c.len() - 1]);
        if c.len() >= 2 {
            assert(s[end - 2] == c[c.len() - 2]);
        }
        if c.len() >= 3 {
            assert(s[end - 3] == c[c.len() - 3]);
        }
    }
}

/// Passing over whitespace in the bytes of a text is passing over its
/// whitespace characters.
proof fn lemma_skip_white(text: Seq<char>, i: int)
    requires
        0 <= i <= text.len(),
    ensures
        skip_spaces(encode_utf8(text), offset(text, i)) == offset(text, skip_white(text, i)),
        i <= skip_white(text, i) <= text.len(),
    decreases text.len() - i,
{
    if i < text.len() {
        lemma_space_at_character(text, i);
        if is_white_space(text[i]) {
            lemma_skip_white(text, i + 1);
        }
    } else {
        lemma_encode_cut(text, i, i);
    }
}

/// Dropping whitespace from the end of the bytes of a text is dropping its
/// trailing whitespace characters.
proof fn lemma_drop_white(text: Seq<char>, lo: int, j: int)
    requires
        0 <= lo <= j <= text.len(),
    ensures
        drop_spaces(encode_utf8(text), offset(text, lo), offset(text, j)) == offset(
            text,
            drop_white(text, lo, j),
        ),
        lo <= drop_white(text, lo, j) <= j,
    decreases j,
{
    lemma_space_before_character(text, lo, j);
    if lo < j && is_white_space(text[j - 1]) {
        lemma_drop_white(text, lo, j - 1);
    }
}

/// Trimming the bytes of a text is trimming the text: what `trim` cuts off
/// the UTF-8 form of a text are its leading and trailing White_Space
/// characters, whole, and nothing else.
pub proof fn lemma_trim_text(text: Seq<char>)
    ensures
        trim(encode_utf8(text)) == encode_utf8(trimmed_text(text)),
{
    let lo = skip_white(text, 0);
    lemma_skip_white(text, 0);
    let hi = drop_white(text, lo, text.len() as int);
    lemma_drop_white(text, lo, text.len() as int);
    lemma_encode_cut(text, lo, hi);
}

} // verus!
