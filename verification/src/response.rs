//! The response encoder: a response is built from a status, headers and a
//! body, negotiates its encoding from `Accept-Encoding`, and is serialized in
//! a fixed order with a freshly computed `Content-Length`.

use vstd::prelude::*;
use vstd::slice::slice_to_vec;
use vstd::utf8::*;
use crate::bytes::{append_bytes, crlf, COLON, CR, LF, SPACE};
use crate::decimal::{decimal, to_decimal};
use crate::encoding::{accepted, ContentEncoding, Encoding, EncodingSet};
use crate::headers::{lemma_upsert, lookup, upsert, Field, Headers};
use crate::http::{Header, HeaderName};

pub use crate::http::{Status, StatusCode};

verus! {

/// The server's reply, before it is put on the wire.
#[derive(Debug, PartialEq, Eq)]
pub struct Response {
    pub version: String,
    pub status: Status,
    pub headers: Headers,
    pub body: Vec<u8>,
    pub content_encodings: EncodingSet,
}

/// What a `Response` stands for in specifications.
pub struct ResponseView {
    pub version: Seq<char>,
    pub code: StatusCode,
    pub message: Seq<char>,
    pub headers: Seq<Field>,
    pub body: Seq<u8>,
    pub content_encodings: Set<ContentEncoding>,
}

impl View for Response {
    type V = ResponseView;

    open spec fn view(&self) -> ResponseView {
        ResponseView {
            version: self.version@,
            code: self.status.code,
            message: self.status.message@,
            headers: self.headers@,
            body: self.body@,
            content_encodings: self.content_encodings@,
        }
    }
}

/// The encodings that a client accepts, as its headers say: what
/// `Accept-Encoding` lists, and nothing where that header is missing.
pub open spec fn accepted_by(headers: Seq<Field>) -> Set<ContentEncoding> {
    match lookup(headers, HeaderName::AcceptEncoding) {
        Some(value) => accepted(encode_utf8(value)),
        None => Set::empty(),
    }
}

/// The response that is built from a status, a body and headers.
pub open spec fn built(
    code: StatusCode,
    message: Seq<char>,
    body: Seq<char>,
    headers: Seq<Field>,
) -> ResponseView {
    ResponseView {
        version: "HTTP/1.1"@,
        code,
        message,
        headers,
        body: encode_utf8(body),
        content_encodings: accepted_by(headers),
    }
}

/// The encoding in which the body of a response goes out: gzip if the client
/// accepts gzip, none otherwise.
pub open spec fn negotiated(v: ResponseView) -> ContentEncoding {
    if v.content_encodings.contains(ContentEncoding::GZIP) {
        ContentEncoding::GZIP
    } else {
        ContentEncoding::NONE
    }
}

/// The body of a response as it goes out.
pub open spec fn wire_body(v: ResponseView) -> Seq<u8> {
    negotiated(v).encoded(v.body)
}

/// The headers of a response as they go out with a body of `length` bytes:
/// `Content-Encoding` is set where gzip was negotiated, and `Content-Length`
/// is set to `length`, whatever the response held for either.
pub open spec fn wire_headers(v: ResponseView, length: nat) -> Seq<Field> {
    let announced = if v.content_encodings.contains(ContentEncoding::GZIP) {
        upsert(v.headers, HeaderName::ContentEncoding, "gzip"@)
    } else {
        v.headers
    };
    upsert(announced, HeaderName::ContentLength, decimal(length))
}

/// The status line: version, code and reason, with single spaces between.
pub open spec fn status_line(v: ResponseView) -> Seq<u8> {
    encode_utf8(v.version) + seq![SPACE] + encode_utf8(decimal(v.code.code() as nat)) + seq![SPACE]
        + encode_utf8(v.message) + crlf()
}

/// One header line: name, colon, space, value.
pub open spec fn header_line(field: Field) -> Seq<u8> {
    encode_utf8(field.0.text()) + seq![COLON, SPACE] + encode_utf8(field.1) + crlf()
}

/// The header lines of `fields`, in their order.
pub open spec fn header_block(fields: Seq<Field>) -> Seq<u8>
    decreases fields.len(),
{
    if fields.len() == 0 {
        Seq::empty()
    } else {
        header_block(fields.drop_last()) + header_line(fields.last())
    }
}

/// The bytes of a response that goes out with the body `body`: status line,
/// header lines, an empty line, and the body with nothing after it.
pub open spec fn framed(v: ResponseView, body: Seq<u8>) -> Seq<u8> {
    status_line(v) + header_block(wire_headers(v, body.len())) + crlf() + body
}

/// The bytes of a response on the wire.
pub open spec fn wire(v: ResponseView) -> Seq<u8> {
    framed(v, wire_body(v))
}

/// On the wire `Content-Length` is the length of the bytes that follow the
/// header block, `Content-Encoding` says gzip where gzip was negotiated, and
/// those bytes decode back to the body of the response.
pub proof fn lemma_wire_headers(v: ResponseView)
    ensures
        lookup(wire_headers(v, wire_body(v).len()), HeaderName::ContentLength) == Some(
            decimal(wire_body(v).len()),
        ),
        v.content_encodings.contains(ContentEncoding::GZIP) ==> lookup(
            wire_headers(v, wire_body(v).len()),
            HeaderName::ContentEncoding,
        ) == Some("gzip"@),
        wire(v).len() >= wire_body(v).len(),
        wire(v).subrange(wire(v).len() - wire_body(v).len(), wire(v).len() as int) == wire_body(v),
{
    let n = wire_body(v).len();
    let announced = if v.content_encodings.contains(ContentEncoding::GZIP) {
        upsert(v.headers, HeaderName::ContentEncoding, "gzip"@)
    } else {
        v.headers
    };
    lemma_upsert(announced, HeaderName::ContentLength, decimal(n), HeaderName::ContentEncoding);
    lemma_upsert(v.headers, HeaderName::ContentEncoding, "gzip"@, HeaderName::ContentEncoding);
}

impl Response {
    /// Builds a response. The encodings that the client accepts are read from
    /// the `Accept-Encoding` header among `headers`.
    pub fn builder(status: Status, body: String, headers: Headers) -> (r: Response)
        ensures
            r@ == built(status.code, status.message@, body@, headers@),
            headers.wf() ==> r.headers.wf(),
    {
        let content_encodings = match headers.get(&Header::AcceptEncoding) {
            Some(value) => EncodingSet::parse(value.as_str().as_bytes()),
            None => EncodingSet::new(),
        };
        Response {
            status,
            headers,
            content_encodings,
            version: "HTTP/1.1".to_string(),
            body: slice_to_vec(body.as_str().as_bytes()),
        }
    }

    /// Serializes the response around a body that is already encoded.
    pub fn frame(&self, body: &[u8]) -> (r: Vec<u8>)
        ensures
            r@ == framed(self@, body@),
    {
        let mut headers = self.headers.clone();
        if self.content_encodings.contains(&ContentEncoding::GZIP) {
            headers.insert(Header::ContentEncoding, "gzip".to_string());
        }
        headers.insert(Header::ContentLength, to_decimal(body.len()));

        let mut buffer: Vec<u8> = Vec::new();
        append_bytes(&mut buffer, self.version.as_str().as_bytes());
        buffer.push(SPACE);
        let code = to_decimal(self.status.code.to_u16() as usize);
        append_bytes(&mut buffer, code.as_str().as_bytes());
        buffer.push(SPACE);
        append_bytes(&mut buffer, self.status.message.as_str().as_bytes());
        buffer.push(CR);
        buffer.push(LF);

        let mut i: usize = 0;
        while i < headers.len()
            invariant
                i <= headers@.len(),
                buffer@ == status_line(self@) + header_block(headers@.subrange(0, i as int)),
            decreases headers@.len() - i,
        {
            let name = headers.name_at(i).to_string();
            append_bytes(&mut buffer, name.as_str().as_bytes());
            buffer.push(COLON);
            buffer.push(SPACE);
            append_bytes(&mut buffer, headers.value_at(i).as_str().as_bytes());
            buffer.push(CR);
            buffer.push(LF);
            proof {
                let longer = headers@.subrange(0, i + 1);
                assert(longer.drop_last() =~= headers@.subrange(0, i as int));
            }
            i += 1;
        }
        assert(headers@.subrange(0, i as int) =~= headers@);
        buffer.push(CR);
        buffer.push(LF);
        append_bytes(&mut buffer, body);
        buffer
    }

    /// Serializes the response: the body is compressed where gzip was
    /// negotiated, and the headers announce the encoding and the length of
    /// what is sent. What is sent as the body decodes back to the body of
    /// the response.
    pub fn to_bytes(&self) -> (r: Vec<u8>)
        ensures
            r@ == wire(self@),
            negotiated(self@).decoded(wire_body(self@)) == Some(self.body@),
    {
        if self.content_encodings.contains(&ContentEncoding::GZIP) {
            let encoded = ContentEncoding::GZIP.encode(self.body.as_slice());
            self.frame(encoded.as_slice())
        } else {
            self.frame(self.body.as_slice())
        }
    }
}

} // verus!
