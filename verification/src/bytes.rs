//! Byte-sequence vocabulary shared by the parser, the router and the encoder:
//! searching, splitting, trimming and comparing, each with its mathematical
//! meaning as a spec function on `Seq<u8>`.

use vstd::prelude::*;
use vstd::slice::slice_subrange;

verus! {

pub const SPACE: u8 = 0x20;

pub const CR: u8 = 0x0d;

pub const LF: u8 = 0x0a;

pub const COLON: u8 = 0x3a;

pub const COMMA: u8 = 0x2c;

/// The two bytes that end a line on the wire.
pub open spec fn crlf() -> Seq<u8> {
    seq![CR, LF]
}

/// Index of the first `b` in `s` at or after `start`, or `s.len()` if there is none.
pub open spec fn first_from(s: Seq<u8>, b: u8, start: int) -> int
    decreases s.len() - start,
{
    if start < 0 || start >= s.len() {
        s.len() as int
    } else if s[start] == b {
        start
    } else {
        first_from(s, b, start + 1)
    }
}

/// `first_from` returns the least index at or after `start` that holds `b`.
pub proof fn lemma_first_from(s: Seq<u8>, b: u8, start: int)
    requires
        0 <= start <= s.len(),
    ensures
        start <= first_from(s, b, start) <= s.len(),
        forall|j: int| start <= j < first_from(s, b, start) ==> s[j] != b,
        first_from(s, b, start) < s.len() ==> s[first_from(s, b, start)] == b,
    decreases s.len() - start,
{
    if start < s.len() && s[start] != b {
        lemma_first_from(s, b, start + 1);
    }
}

/// Any index with the properties of `lemma_first_from` is the one `first_from` returns.
pub proof fn lemma_first_from_unique(s: Seq<u8>, b: u8, start: int, e: int)
    requires
        0 <= start <= e <= s.len(),
        forall|j: int| start <= j < e ==> s[j] != b,
        e < s.len() ==> s[e] == b,
    ensures
        first_from(s, b, start) == e,
    decreases e - start,
{
    if start < e {
        lemma_first_from_unique(s, b, start + 1, e);
    }
}

/// Whether a line terminator starts at index `i` of `s`.
pub open spec fn crlf_at(s: Seq<u8>, i: int) -> bool {
    0 <= i && i + 1 < s.len() && s[i] == CR && s[i + 1] == LF
}

/// Index of the first line terminator in `s` at or after `start`, or `s.len()`
/// if there is none.
pub open spec fn line_end(s: Seq<u8>, start: int) -> int
    decreases s.len() - start,
{
    if start < 0 || start >= s.len() {
        s.len() as int
    } else if crlf_at(s, start) {
        start
    } else {
        line_end(s, start + 1)
    }
}

/// Where the line after the one starting at `start` begins: just past the
/// terminator, or at the end of `s` if the line is not terminated.
pub open spec fn next_line(s: Seq<u8>, start: int) -> int {
    if line_end(s, start) < s.len() {
        line_end(s, start) + 2
    } else {
        s.len() as int
    }
}

/// `line_end` returns the least index at or after `start` where a terminator starts.
pub proof fn lemma_line_end(s: Seq<u8>, start: int)
    requires
        0 <= start <= s.len(),
    ensures
        start <= line_end(s, start) <= s.len(),
        forall|j: int| start <= j < line_end(s, start) ==> !crlf_at(s, j),
        line_end(s, start) < s.len() ==> crlf_at(s, line_end(s, start)),
        start <= next_line(s, start) <= s.len(),
    decreases s.len() - start,
{
    if start < s.len() && !crlf_at(s, start) {
        lemma_line_end(s, start + 1);
    }
}

/// Any index with the properties of `lemma_line_end` is the one `line_end` returns.
pub proof fn lemma_line_end_unique(s: Seq<u8>, start: int, e: int)
    requires
        0 <= start <= e <= s.len(),
        forall|j: int| start <= j < e ==> !crlf_at(s, j),
        e < s.len() ==> crlf_at(s, e),
    ensures
        line_end(s, start) == e,
    decreases e - start,
{
    if start < e {
        lemma_line_end_unique(s, start + 1, e);
    }
}

/// The pieces of `s` from `start` on that lie between occurrences of `sep`.
/// There is always at least one piece; adjacent separators give empty pieces.
pub open spec fn split_from(s: Seq<u8>, sep: u8, start: int) -> Seq<Seq<u8>>
    decreases s.len() - start,
{
    let e = first_from(s, sep, start);
    if 0 <= start <= e < s.len() {
        seq![s.subrange(start, e)] + split_from(s, sep, e + 1)
    } else {
        seq![s.subrange(start, s.len() as int)]
    }
}

/// The pieces of `s` that lie between occurrences of `sep`.
pub open spec fn split(s: Seq<u8>, sep: u8) -> Seq<Seq<u8>> {
    split_from(s, sep, 0)
}

/// `pieces` put together again, with `sep` between each two neighbours.
pub open spec fn joined(pieces: Seq<Seq<u8>>, sep: u8) -> Seq<u8>
    decreases pieces.len(),
{
    if pieces.len() == 0 {
        Seq::empty()
    } else if pieces.len() == 1 {
        pieces[0]
    } else {
        pieces[0] + seq![sep] + joined(pieces.drop_first(), sep)
    }
}

/// Cutting loses nothing and leaves no separator behind: there is at least
/// one piece, the pieces, joined again, are what was cut, and no piece holds
/// `sep`.
pub proof fn lemma_split_from(s: Seq<u8>, sep: u8, start: int)
    requires
        0 <= start <= s.len(),
    ensures
        split_from(s, sep, start).len() >= 1,
        joined(split_from(s, sep, start), sep) == s.subrange(start, s.len() as int),
        forall|i: int|
            0 <= i < split_from(s, sep, start).len() ==> !(#[trigger] split_from(
                s,
                sep,
                start,
            )[i]).contains(sep),
    decreases s.len() - start,
{
    let e = first_from(s, sep, start);
    let pieces = split_from(s, sep, start);
    lemma_first_from(s, sep, start);
    if e < s.len() {
        let rest = split_from(s, sep, e + 1);
        lemma_split_from(s, sep, e + 1);
        assert(pieces.drop_first() =~= rest);
    }
}

/// Whether the byte `b` is a whitespace character by itself: tab, line feed,
/// vertical tab, form feed, carriage return or space.
pub open spec fn is_space(b: u8) -> bool {
    b == 0x20 || (0x09 <= b && b <= 0x0d)
}

/// Whether the two bytes are the UTF-8 form of a whitespace character:
/// U+0085 or U+00A0.
pub open spec fn is_space_pair(a: u8, b: u8) -> bool {
    a == 0xc2 && (b == 0x85 || b == 0xa0)
}

/// Whether the three bytes are the UTF-8 form of a whitespace character:
/// U+1680, U+2000 to U+200A, U+2028, U+2029, U+202F, U+205F or U+3000.
pub open spec fn is_space_triple(a: u8, b: u8, c: u8) -> bool {
    ||| a == 0xe1 && b == 0x9a && c == 0x80
    ||| a == 0xe2 && b == 0x80 && ((0x80 <= c && c <= 0x8a) || c == 0xa8 || c == 0xa9 || c == 0xaf)
    ||| a == 0xe2 && b == 0x81 && c == 0x9f
    ||| a == 0xe3 && b == 0x80 && c == 0x80
}

/// The number of bytes of the whitespace character that starts at index `i`
/// of `s`, and 0 where none starts there. Whitespace is what Unicode calls
/// White_Space, in its UTF-8 form.
pub open spec fn space_at(s: Seq<u8>, i: int) -> int {
    if 0 <= i && i < s.len() && is_space(s[i]) {
        1
    } else if 0 <= i && i + 1 < s.len() && is_space_pair(s[i], s[i + 1]) {
        2
    } else if 0 <= i && i + 2 < s.len() && is_space_triple(s[i], s[i + 1], s[i + 2]) {
        3
    } else {
        0
    }
}

/// The number of bytes of the whitespace character that ends right before
/// index `j` of `s` and starts at `lo` or later, and 0 where there is none.
pub open spec fn space_before(s: Seq<u8>, lo: int, j: int) -> int {
    if 0 <= lo && lo <= j - 1 && j <= s.len() && is_space(s[j - 1]) {
        1
    } else if 0 <= lo && lo <= j - 2 && j <= s.len() && is_space_pair(s[j - 2], s[j - 1]) {
        2
    } else if 0 <= lo && lo <= j - 3 && j <= s.len() && is_space_triple(
        s[j - 3],
        s[j - 2],
        s[j - 1],
    ) {
        3
    } else {
        0
    }
}

/// Index of the first byte at or after `i` at which no whitespace character
/// starts, whitespace characters being passed over whole.
pub open spec fn skip_spaces(s: Seq<u8>, i: int) -> int
    decreases s.len() - i,
{
    if space_at(s, i) > 0 {
        skip_spaces(s, i + space_at(s, i))
    } else {
        i
    }
}

/// The least end `k >= lo` such that `s[k..j]` is whitespace characters only.
pub open spec fn drop_spaces(s: Seq<u8>, lo: int, j: int) -> int
    decreases j,
{
    if space_before(s, lo, j) > 0 {
        drop_spaces(s, lo, j - space_before(s, lo, j))
    } else {
        j
    }
}

/// `s` without its leading and trailing whitespace characters.
pub open spec fn trim(s: Seq<u8>) -> Seq<u8> {
    let lo = skip_spaces(s, 0);
    let hi = drop_spaces(s, lo, s.len() as int);
    s.subrange(lo, hi)
}

/// `skip_spaces` stops inside `s` or at its end, where no whitespace
/// character starts.
pub proof fn lemma_skip_spaces(s: Seq<u8>, i: int)
    requires
        0 <= i <= s.len(),
    ensures
        i <= skip_spaces(s, i) <= s.len(),
        space_at(s, skip_spaces(s, i)) == 0,
    decreases s.len() - i,
{
    if space_at(s, i) > 0 {
        lemma_skip_spaces(s, i + space_at(s, i));
    }
}

/// `drop_spaces` stops at `lo` or later, where no whitespace character ends.
pub proof fn lemma_drop_spaces(s: Seq<u8>, lo: int, j: int)
    requires
        0 <= lo <= j <= s.len(),
    ensures
        lo <= drop_spaces(s, lo, j) <= j,
        space_before(s, lo, drop_spaces(s, lo, j)) == 0,
    decreases j,
{
    if space_before(s, lo, j) > 0 {
        lemma_drop_spaces(s, lo, j - space_before(s, lo, j));
    }
}

/// A trimmed sequence neither starts nor ends with a whitespace character,
/// and a sequence that does neither is left as it is.
pub proof fn lemma_trim(s: Seq<u8>)
    ensures
        trim(s).len() <= s.len(),
        space_at(trim(s), 0) == 0,
        space_before(trim(s), 0, trim(s).len() as int) == 0,
        space_at(s, 0) == 0 && space_before(s, 0, s.len() as int) == 0 ==> trim(s) == s,
{
    let lo = skip_spaces(s, 0);
    let hi = drop_spaces(s, lo, s.len() as int);
    lemma_skip_spaces(s, 0);
    lemma_drop_spaces(s, lo, s.len() as int);
    if space_at(s, 0) == 0 && space_before(s, 0, s.len() as int) == 0 {
        assert(trim(s) =~= s);
    }
}

/// Finds the first `b` in `s` at or after `start`.
pub fn find_byte(s: &[u8], b: u8, start: usize) -> (r: usize)
    requires
        start <= s.len(),
    ensures
        r == first_from(s@, b, start as int),
        start <= r <= s.len(),
{
    let mut i: usize = start;
    while i < s.len()
        invariant
            start <= i <= s.len(),
            first_from(s@, b, start as int) == first_from(s@, b, i as int),
        decreases s.len() - i,
    {
        if s[i] == b {
            return i;
        }
        i += 1;
    }
    i
}

/// Finds the first line terminator in `s` at or after `start`.
pub fn find_line_end(s: &[u8], start: usize) -> (r: usize)
    requires
        start <= s.len(),
    ensures
        r == line_end(s@, start as int),
        start <= r <= s.len(),
{
    let mut i: usize = start;
    while i < s.len()
        invariant
            start <= i <= s.len(),
            line_end(s@, start as int) == line_end(s@, i as int),
        decreases s.len() - i,
    {
        if s[i] == CR && i + 1 < s.len() && s[i + 1] == LF {
            return i;
        }
        i += 1;
    }
    i
}

/// Whether `b` is a whitespace character by itself.
pub fn byte_is_space(b: u8) -> (r: bool)
    ensures
        r == is_space(b),
{
    b == 0x20 || (0x09 <= b && b <= 0x0d)
}

fn pair_is_space(a: u8, b: u8) -> (r: bool)
    ensures
        r == is_space_pair(a, b),
{
    a == 0xc2 && (b == 0x85 || b == 0xa0)
}

fn triple_is_space(a: u8, b: u8, c: u8) -> (r: bool)
    ensures
        r == is_space_triple(a, b, c),
{
    (a == 0xe1 && b == 0x9a && c == 0x80) || (a == 0xe2 && b == 0x80 && ((0x80 <= c && c <= 0x8a)
        || c == 0xa8 || c == 0xa9 || c == 0xaf)) || (a == 0xe2 && b == 0x81 && c == 0x9f) || (a
        == 0xe3 && b == 0x80 && c == 0x80)
}

/// The number of bytes of the whitespace character that starts at `i`.
pub fn space_width_at(s: &[u8], i: usize) -> (r: usize)
    requires
        i <= s.len(),
    ensures
        r == space_at(s@, i as int),
        i + r <= s.len(),
{
    let rest = s.len() - i;
    if rest >= 1 && byte_is_space(s[i]) {
        1
    } else if rest >= 2 && pair_is_space(s[i], s[i + 1]) {
        2
    } else if rest >= 3 && triple_is_space(s[i], s[i + 1], s[i + 2]) {
        3
    } else {
        0
    }
}

/// The number of bytes of the whitespace character that ends right before
/// `j` and starts at `lo` or later.
pub fn space_width_before(s: &[u8], lo: usize, j: usize) -> (r: usize)
    requires
        lo <= j <= s.len(),
    ensures
        r == space_before(s@, lo as int, j as int),
        lo + r <= j,
{
    let room = j - lo;
    if room >= 1 && byte_is_space(s[j - 1]) {
        1
    } else if room >= 2 && pair_is_space(s[j - 2], s[j - 1]) {
        2
    } else if room >= 3 && triple_is_space(s[j - 3], s[j - 2], s[j - 1]) {
        3
    } else {
        0
    }
}

/// Cuts the leading and trailing whitespace characters off `s`.
pub fn trim_bytes(s: &[u8]) -> (r: &[u8])
    ensures
        r@ == trim(s@),
{
    let mut lo: usize = 0;
    loop
        invariant
            lo <= s.len(),
            skip_spaces(s@, 0) == skip_spaces(s@, lo as int),
        ensures
            lo <= s.len(),
            lo == skip_spaces(s@, 0),
        decreases s.len() - lo,
    {
        let width = space_width_at(s, lo);
        if width == 0 {
            break;
        }
        lo += width;
    }
    let mut hi: usize = s.len();
    loop
        invariant
            lo <= hi <= s.len(),
            drop_spaces(s@, lo as int, s.len() as int) == drop_spaces(s@, lo as int, hi as int),
        ensures
            lo <= hi <= s.len(),
            hi == drop_spaces(s@, lo as int, s.len() as int),
        decreases hi,
    {
        let width = space_width_before(s, lo, hi);
        if width == 0 {
            break;
        }
        hi -= width;
    }
    slice_subrange(s, lo, hi)
}

/// Whether two byte strings hold the same bytes.
pub fn bytes_eq(a: &[u8], b: &[u8]) -> (r: bool)
    ensures
        r == (a@ == b@),
{
    if a.len() != b.len() {
        return false;
    }
    let mut i: usize = 0;
    while i < a.len()
        invariant
            i <= a.len(),
            a.len() == b.len(),
            forall|j: int| 0 <= j < i ==> a@[j] == b@[j],
        decreases a.len() - i,
    {
        if a[i] != b[i] {
            return false;
        }
        i += 1;
    }
    assert(a@ =~= b@);
    true
}

/// Whether `s` begins with the bytes of `prefix`.
pub fn starts_with(s: &[u8], prefix: &[u8]) -> (r: bool)
    ensures
        r == prefix@.is_prefix_of(s@),
{
    if prefix.len() > s.len() {
        return false;
    }
    let mut i: usize = 0;
    while i < prefix.len()
        invariant
            i <= prefix.len() <= s.len(),
            forall|j: int| 0 <= j < i ==> s@[j] == prefix@[j],
        decreases prefix.len() - i,
    {
        if s[i] != prefix[i] {
            return false;
        }
        i += 1;
    }
    true
}

/// Appends the bytes of `src` to `buf`.
pub fn append_bytes(buf: &mut Vec<u8>, src: &[u8])
    ensures
        final(buf)@ == old(buf)@ + src@,
{
    let mut i: usize = 0;
    while i < src.len()
        invariant
            i <= src.len(),
            buf@ == old(buf)@ + src@.subrange(0, i as int),
        decreases src.len() - i,
    {
        buf.push(src[i]);
        i += 1;
    }
}

/// The lower-case form of an ASCII capital letter; every other byte unchanged.
pub open spec fn lower(b: u8) -> u8 {
    if 0x41 <= b && b <= 0x5a {
        (b + 0x20) as u8
    } else {
        b
    }
}

/// `s` with every ASCII capital letter replaced by its lower-case form.
pub open spec fn lowered(s: Seq<u8>) -> Seq<u8> {
    Seq::new(s.len(), |i: int| lower(s[i]))
}

/// Whether `s`, once its ASCII capitals are lowered, is exactly `t`.
pub fn lowered_eq(s: &[u8], t: &[u8]) -> (r: bool)
    ensures
        r == (lowered(s@) == t@),
{
    if s.len() != t.len() {
        return false;
    }
    let mut i: usize = 0;
    while i < s.len()
        invariant
            i <= s.len(),
            s.len() == t.len(),
            forall|j: int| 0 <= j < i ==> lower(s@[j]) == t@[j],
        decreases s.len() - i,
    {
        let b = s[i];
        let l = if 0x41 <= b && b <= 0x5a {
            b + 0x20
        } else {
            b
        };
        if l != t[i] {
            return false;
        }
        i += 1;
    }
    assert(lowered(s@) =~= t@);
    true
}

} // verus!
