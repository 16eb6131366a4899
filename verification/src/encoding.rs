//! Content encodings: the codec between a named encoding and byte buffers, and
//! the set of encodings that a client accepts.

use std::io::Read;
use std::io::Write;
use vstd::prelude::*;
use vstd::slice::{slice_subrange, slice_to_vec};
use vstd::utf8::*;
use crate::bytes::{bytes_eq, find_byte, split, split_from, trim, trim_bytes, COMMA};
use crate::text::lemma_encode_injective;

verus! {

/// The content encodings that the server knows: none at all, and gzip.
#[derive(Clone, Copy, Debug, PartialEq, Eq, Hash, Structural)]
pub enum ContentEncoding {
    NONE,
    GZIP,
}

/// The gzip stream that `flate2` writes for `input` at its default
/// compression level.
pub uninterp spec fn gzip_encoding(input: Seq<u8>) -> Seq<u8>;

/// What `flate2` reads out of the gzip stream `input`; `None` where it reports
/// that `input` is not a sound gzip stream.
pub uninterp spec fn gzip_decoding(input: Seq<u8>) -> Option<Seq<u8>>;

/// `flate2::write::GzEncoder` over a `Vec<u8>`: `new` with the default
/// compression level, `write_all`, `finish`. Writing into a vector cannot
/// fail. The stream depends on the input alone (the header carries no time
/// stamp and no file name), and it is one that `flate2::read::GzDecoder`
/// reads back to the input.
#[verifier::external_body]
fn gzip_compress(input: &[u8]) -> (out: Vec<u8>)
    ensures
        out@ == gzip_encoding(input@),
        gzip_decoding(out@) == Some(input@),
{
    let mut encoder = flate2::write::GzEncoder::new(Vec::new(), flate2::Compression::default());
    encoder.write_all(input).unwrap();
    encoder.finish().unwrap()
}

/// `flate2::read::GzDecoder` over a byte slice, read to its end: the bytes of
/// the first gzip member of `input`, or `None` where the decoder reports an
/// error (a bad header, a corrupt or truncated stream, a wrong checksum).
#[verifier::external_body]
fn gzip_decompress(input: &[u8]) -> (out: Option<Vec<u8>>)
    ensures
        match out {
            Some(bytes) => gzip_decoding(input@) == Some(bytes@),
            None => gzip_decoding(input@) is None,
        },
{
    let mut decoded = Vec::new();
    match flate2::read::GzDecoder::new(input).read_to_end(&mut decoded) {
        Ok(_) => Some(decoded),
        Err(_) => None,
    }
}

impl ContentEncoding {
    /// The encoding that `name` names: `gzip`, written so, is gzip; every
    /// other name stands for no encoding.
    pub open spec fn named(name: Seq<char>) -> ContentEncoding {
        if name == "gzip"@ {
            ContentEncoding::GZIP
        } else {
            ContentEncoding::NONE
        }
    }

    /// The encoding whose name has the UTF-8 bytes `b`.
    pub open spec fn of_bytes(b: Seq<u8>) -> ContentEncoding {
        if b == encode_utf8("gzip"@) {
            ContentEncoding::GZIP
        } else {
            ContentEncoding::NONE
        }
    }

    /// The name that announces this encoding in `Content-Encoding`, if it has one.
    pub open spec fn label(self) -> Option<Seq<char>> {
        match self {
            ContentEncoding::GZIP => Some("gzip"@),
            ContentEncoding::NONE => None,
        }
    }

    /// `input` in this encoding.
    pub open spec fn encoded(self, input: Seq<u8>) -> Seq<u8> {
        match self {
            ContentEncoding::NONE => input,
            ContentEncoding::GZIP => gzip_encoding(input),
        }
    }

    /// What `input` holds once this encoding is undone, if `input` is sound.
    pub open spec fn decoded(self, input: Seq<u8>) -> Option<Seq<u8>> {
        match self {
            ContentEncoding::NONE => Some(input),
            ContentEncoding::GZIP => gzip_decoding(input),
        }
    }

    /// Reads an encoding name given as raw bytes.
    pub fn from_bytes(name: &[u8]) -> (r: ContentEncoding)
        ensures
            r == Self::of_bytes(name@),
    {
        if bytes_eq(name, "gzip".as_bytes()) {
            ContentEncoding::GZIP
        } else {
            ContentEncoding::NONE
        }
    }
}

/// The codec of a content encoding.
pub trait Encoding {
    /// Reads the name of an encoding.
    fn from_string(encoding: &str) -> ContentEncoding;

    /// The name under which an encoding is announced, if it has one.
    fn to_string(encoding: &ContentEncoding) -> Option<String>;

    /// Puts `input` into this encoding.
    fn encode(&self, input: &[u8]) -> Vec<u8>;

    /// Takes `input` out of this encoding, if it is sound.
    fn decode(&self, input: &[u8]) -> Option<Vec<u8>>;
}

impl Encoding for ContentEncoding {
    /// Reads an encoding name. Unknown names are no error: they stand for no
    /// encoding.
    fn from_string(encoding: &str) -> (r: ContentEncoding)
        ensures
            r == ContentEncoding::named(encoding@),
    {
        proof {
            if encode_utf8(encoding@) == encode_utf8("gzip"@) {
                lemma_encode_injective(encoding@, "gzip"@);
            }
        }
        ContentEncoding::from_bytes(encoding.as_bytes())
    }

    /// The name that announces `encoding` in `Content-Encoding`.
    fn to_string(encoding: &ContentEncoding) -> (r: Option<String>)
        ensures
            match r {
                Some(name) => encoding.label() == Some(name@),
                None => encoding.label() is None,
            },
    {
        match encoding {
            ContentEncoding::GZIP => Some("gzip".to_string()),
            ContentEncoding::NONE => None,
        }
    }

    /// Encodes `input`. What comes out decodes back to `input`.
    fn encode(&self, input: &[u8]) -> (out: Vec<u8>)
        ensures
            out@ == self.encoded(input@),
            self.decoded(out@) == Some(input@),
    {
        match self {
            ContentEncoding::NONE => slice_to_vec(input),
            ContentEncoding::GZIP => gzip_compress(input),
        }
    }

    /// Undoes this encoding; `None` if `input` is not sound in it.
    fn decode(&self, input: &[u8]) -> (out: Option<Vec<u8>>)
        ensures
            match out {
                Some(bytes) => self.decoded(input@) == Some(bytes@),
                None => self.decoded(input@) is None,
            },
    {
        match self {
            ContentEncoding::NONE => Some(slice_to_vec(input)),
            ContentEncoding::GZIP => gzip_decompress(input),
        }
    }
}

/// The encodings that the names `tokens` stand for, each name trimmed first.
pub open spec fn encodings_of(tokens: Seq<Seq<u8>>) -> Set<ContentEncoding> {
    Set::new(
        |e: ContentEncoding|
            exists|i: int|
                0 <= i < tokens.len() && ContentEncoding::of_bytes(trim(#[trigger] tokens[i])) == e,
    )
}

/// The encodings that an `Accept-Encoding` value lists: the value is cut at
/// its commas, and each piece, trimmed, is read as an encoding name.
pub open spec fn accepted(value: Seq<u8>) -> Set<ContentEncoding> {
    encodings_of(split(value, COMMA))
}

proof fn lemma_encodings_push(tokens: Seq<Seq<u8>>, token: Seq<u8>)
    ensures
        encodings_of(tokens.push(token)) == encodings_of(tokens).insert(
            ContentEncoding::of_bytes(trim(token)),
        ),
{
    let longer = tokens.push(token);
    let added = ContentEncoding::of_bytes(trim(token));
    assert forall|e: ContentEncoding|
        encodings_of(longer).contains(e) == encodings_of(tokens).insert(added).contains(e) by {
        if encodings_of(longer).contains(e) {
            let i = choose|i: int|
                0 <= i < longer.len() && ContentEncoding::of_bytes(trim(#[trigger] longer[i])) == e;
            assert(i < tokens.len() ==> tokens[i] == longer[i]);
        }
        if encodings_of(tokens).contains(e) {
            let i = choose|i: int|
                0 <= i < tokens.len() && ContentEncoding::of_bytes(trim(#[trigger] tokens[i])) == e;
            assert(longer[i] == tokens[i]);
        }
        if e == added {
            assert(longer[tokens.len() as int] == token);
        }
    }
}

/// A set of content encodings.
#[derive(Clone, Copy, Debug, PartialEq, Eq, Structural)]
pub struct EncodingSet {
    none: bool,
    gzip: bool,
}

impl View for EncodingSet {
    type V = Set<ContentEncoding>;

    closed spec fn view(&self) -> Set<ContentEncoding> {
        Set::new(
            |e: ContentEncoding|
                match e {
                    ContentEncoding::NONE => self.none,
                    ContentEncoding::GZIP => self.gzip,
                },
        )
    }
}

impl EncodingSet {
    /// The empty set.
    pub fn new() -> (r: Self)
        ensures
            r@ == Set::<ContentEncoding>::empty(),
    {
        let r = EncodingSet { none: false, gzip: false };
        r
    }

    /// Adds `encoding` to the set.
    pub fn insert(&mut self, encoding: ContentEncoding)
        ensures
            final(self)@ == old(self)@.insert(encoding),
    {
        match encoding {
            ContentEncoding::NONE => {
                self.none = true;
            },
            ContentEncoding::GZIP => {
                self.gzip = true;
            },
        }
    }

    /// Whether `encoding` is in the set.
    pub fn contains(&self, encoding: &ContentEncoding) -> (r: bool)
        ensures
            r == self@.contains(*encoding),
    {
        match encoding {
            ContentEncoding::NONE => self.none,
            ContentEncoding::GZIP => self.gzip,
        }
    }

    /// The number of encodings in the set.
    pub fn len(&self) -> (r: usize)
        ensures
            r == (if self@.contains(ContentEncoding::NONE) {
                1int
            } else {
                0int
            }) + (if self@.contains(ContentEncoding::GZIP) {
                1int
            } else {
                0int
            }),
    {
        let a: usize = if self.none {
            1
        } else {
            0
        };
        let b: usize = if self.gzip {
            1
        } else {
            0
        };
        a + b
    }

    /// Reads the value of an `Accept-Encoding` header.
    pub fn parse(value: &[u8]) -> (r: Self)
        ensures
            r@ == accepted(value@),
    {
        let mut set = EncodingSet::new();
        let mut pos: usize = 0;
        let ghost mut done: Seq<Seq<u8>> = Seq::empty();
        loop
            invariant
                pos <= value.len(),
                split(value@, COMMA) == done + split_from(value@, COMMA, pos as int),
                set@ == encodings_of(done),
            decreases value.len() - pos,
        {
            let end = find_byte(value, COMMA, pos);
            let token = slice_subrange(value, pos, end);
            set.insert(ContentEncoding::from_bytes(trim_bytes(token)));
            proof {
                lemma_encodings_push(done, token@);
                assert(done + seq![token@] =~= done.push(token@));
                done = done.push(token@);
            }
            if end == value.len() {
                return set;
            }
            pos = end + 1;
        }
    }
}

} // verus!
