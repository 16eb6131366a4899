//! The message vocabulary: request methods, status codes, header names and
//! content types, each a closed enumeration, with a fallback that carries the
//! raw text where the protocol is open-ended.

use vstd::prelude::*;
use vstd::string::StringExecFns;
use vstd::utf8::*;
use crate::bytes::{bytes_eq, lowered_eq, CR, LF, SPACE};
use crate::decimal::{decimal, to_decimal};
use crate::text::{lemma_encode_injective, lemma_lowered_eq, lowered_text, str_eq};

verus! {

/// Why a request could not be parsed.
#[derive(Clone, Copy, Debug, PartialEq, Eq, Hash, Structural)]
pub enum ParseError {
    /// The request line does not consist of exactly three tokens of text.
    MalformedRequestLine,
    /// The first token of the request line names no supported method.
    UnsupportedMethod,
    /// The input ends before the body that `Content-Length` announces.
    TruncatedBody,
}

impl ParseError {
    /// A short description for logs and error pages.
    pub fn to_string(&self) -> (r: String)
        ensures
            r@ == match *self {
                ParseError::MalformedRequestLine => "Invalid request."@,
                ParseError::UnsupportedMethod => "Invalid method."@,
                ParseError::TruncatedBody => "Incomplete body."@,
            },
    {
        match self {
            ParseError::MalformedRequestLine => "Invalid request.".to_string(),
            ParseError::UnsupportedMethod => "Invalid method.".to_string(),
            ParseError::TruncatedBody => "Incomplete body.".to_string(),
        }
    }
}

/// The methods that the server takes.
#[derive(Clone, Copy, Debug, PartialEq, Eq, Hash, Structural)]
pub enum RequestMethod {
    GET,
    POST,
    PUT,
}

impl RequestMethod {
    /// The token that names this method on the wire.
    pub open spec fn token(self) -> Seq<char> {
        match self {
            RequestMethod::GET => "GET"@,
            RequestMethod::POST => "POST"@,
            RequestMethod::PUT => "PUT"@,
        }
    }

    /// The method that `name` names, case-sensitively.
    pub open spec fn named(name: Seq<char>) -> Option<RequestMethod> {
        if name == "GET"@ {
            Some(RequestMethod::GET)
        } else if name == "POST"@ {
            Some(RequestMethod::POST)
        } else if name == "PUT"@ {
            Some(RequestMethod::PUT)
        } else {
            None
        }
    }

    /// The method whose token has the UTF-8 bytes `b`.
    pub open spec fn of_bytes(b: Seq<u8>) -> Option<RequestMethod> {
        if b == encode_utf8("GET"@) {
            Some(RequestMethod::GET)
        } else if b == encode_utf8("POST"@) {
            Some(RequestMethod::POST)
        } else if b == encode_utf8("PUT"@) {
            Some(RequestMethod::PUT)
        } else {
            None
        }
    }

    /// Reading the bytes of a name finds the method that the name names.
    pub proof fn lemma_of_bytes_named(name: Seq<char>)
        ensures
            Self::of_bytes(encode_utf8(name)) == Self::named(name),
    {
        if encode_utf8(name) == encode_utf8("GET"@) {
            lemma_encode_injective(name, "GET"@);
        }
        if encode_utf8(name) == encode_utf8("POST"@) {
            lemma_encode_injective(name, "POST"@);
        }
        if encode_utf8(name) == encode_utf8("PUT"@) {
            lemma_encode_injective(name, "PUT"@);
        }
    }

    /// Each method is the one that its own token names, and no token holds
    /// a space or a line break.
    pub proof fn lemma_token(self)
        ensures
            Self::named(self.token()) == Some(self),
            Self::of_bytes(encode_utf8(self.token())) == Some(self),
            forall|i: int|
                0 <= i < encode_utf8(self.token()).len() ==> {
                    let b = #[trigger] encode_utf8(self.token())[i];
                    b != SPACE && b != CR && b != LF
                },
    {
        reveal_strlit("GET");
        reveal_strlit("POST");
        reveal_strlit("PUT");
        Self::lemma_of_bytes_named(self.token());
        is_ascii_chars_encode_utf8(self.token());
    }

    /// Reads a method token given as raw bytes.
    pub fn from_bytes(token: &[u8]) -> (r: Result<Self, ParseError>)
        ensures
            r == match Self::of_bytes(token@) {
                Some(m) => Ok::<RequestMethod, ParseError>(m),
                None => Err(ParseError::UnsupportedMethod),
            },
    {
        if bytes_eq(token, "GET".as_bytes()) {
            Ok(RequestMethod::GET)
        } else if bytes_eq(token, "POST".as_bytes()) {
            Ok(RequestMethod::POST)
        } else if bytes_eq(token, "PUT".as_bytes()) {
            Ok(RequestMethod::PUT)
        } else {
            Err(ParseError::UnsupportedMethod)
        }
    }

    /// Reads a method token: `GET`, `POST` or `PUT`, in capitals. Every other
    /// string is an unsupported method.
    pub fn from_string(method: &str) -> (r: Result<Self, ParseError>)
        ensures
            r == match Self::named(method@) {
                Some(m) => Ok::<RequestMethod, ParseError>(m),
                None => Err(ParseError::UnsupportedMethod),
            },
    {
        proof {
            Self::lemma_of_bytes_named(method@);
        }
        Self::from_bytes(method.as_bytes())
    }

    /// The token that names this method.
    pub fn to_string(&self) -> (r: String)
        ensures
            r@ == self.token(),
    {
        match self {
            RequestMethod::GET => "GET".to_string(),
            RequestMethod::POST => "POST".to_string(),
            RequestMethod::PUT => "PUT".to_string(),
        }
    }
}

/// The status codes that the server emits.
#[derive(Clone, Copy, Debug, PartialEq, Eq, Hash, Structural)]
pub enum StatusCode {
    OK,
    NotFound,
    Created,
    InternalServerError,
    BadRequest,
}

impl StatusCode {
    /// The three-digit number of this status.
    pub open spec fn code(self) -> u16 {
        match self {
            StatusCode::OK => 200,
            StatusCode::NotFound => 404,
            StatusCode::Created => 201,
            StatusCode::InternalServerError => 500,
            StatusCode::BadRequest => 400,
        }
    }

    /// The reason phrase bound to this status.
    pub open spec fn reason(self) -> Seq<char> {
        match self {
            StatusCode::OK => "OK"@,
            StatusCode::NotFound => "Not Found"@,
            StatusCode::Created => "Created"@,
            StatusCode::InternalServerError => "Internal Server Error"@,
            StatusCode::BadRequest => "Bad Request"@,
        }
    }

    /// The number of this status.
    pub fn to_u16(&self) -> (r: u16)
        ensures
            r == self.code(),
    {
        match self {
            StatusCode::OK => 200,
            StatusCode::NotFound => 404,
            StatusCode::Created => 201,
            StatusCode::InternalServerError => 500,
            StatusCode::BadRequest => 400,
        }
    }

    /// The reason phrase of this status.
    pub fn to_reason_phrase(&self) -> (r: &'static str)
        ensures
            r@ == self.reason(),
    {
        match self {
            StatusCode::OK => "OK",
            StatusCode::NotFound => "Not Found",
            StatusCode::Created => "Created",
            StatusCode::InternalServerError => "Internal Server Error",
            StatusCode::BadRequest => "Bad Request",
        }
    }

    /// The number, a space and the reason phrase, as in `404 Not Found`.
    pub fn to_string(&self) -> (r: String)
        ensures
            r@ == decimal(self.code() as nat) + " "@ + self.reason(),
    {
        let mut out = to_decimal(self.to_u16() as usize);
        out.append(" ");
        out.append(self.to_reason_phrase());
        out
    }
}

/// A status code together with the phrase that goes out with it.
#[derive(Debug, PartialEq, Eq)]
pub struct Status {
    pub code: StatusCode,
    pub message: String,
}

impl Status {
    /// The status `code` with its own reason phrase.
    pub fn new(code: StatusCode) -> (r: Self)
        ensures
            r.code == code,
            r.message@ == code.reason(),
    {
        Status { message: code.to_reason_phrase().to_string(), code }
    }
}

impl Clone for Status {
    fn clone(&self) -> (r: Self)
        ensures
            r.code == self.code,
            r.message@ == self.message@,
    {
        Status { code: self.code, message: self.message.clone() }
    }
}

/// A header name: one of the names that this library knows, or any other
/// name, kept as it was written.
#[derive(Debug, PartialEq, Eq, Hash)]
pub enum Header {
    ContentLength,
    ContentType,
    AcceptEncoding,
    ContentEncoding,
    UserAgent,
    Host,
    Accept,
    Custom(String),
}

/// What a `Header` stands for in specifications.
pub enum HeaderName {
    ContentLength,
    ContentType,
    AcceptEncoding,
    ContentEncoding,
    UserAgent,
    Host,
    Accept,
    Custom(Seq<char>),
}

impl HeaderName {
    /// The name as it is written in a header line.
    pub open spec fn text(self) -> Seq<char> {
        match self {
            HeaderName::ContentLength => "Content-Length"@,
            HeaderName::ContentType => "Content-Type"@,
            HeaderName::AcceptEncoding => "Accept-Encoding"@,
            HeaderName::ContentEncoding => "Content-Encoding"@,
            HeaderName::UserAgent => "User-Agent"@,
            HeaderName::Host => "Host"@,
            HeaderName::Accept => "Accept"@,
            HeaderName::Custom(name) => name,
        }
    }

    /// The header that `name` names. Known names are recognised whatever the
    /// case of their ASCII letters; any other name is kept as written.
    pub open spec fn named(name: Seq<char>) -> HeaderName {
        let l = lowered_text(name);
        if l == "content-length"@ {
            HeaderName::ContentLength
        } else if l == "content-type"@ {
            HeaderName::ContentType
        } else if l == "accept-encoding"@ {
            HeaderName::AcceptEncoding
        } else if l == "content-encoding"@ {
            HeaderName::ContentEncoding
        } else if l == "user-agent"@ {
            HeaderName::UserAgent
        } else if l == "host"@ {
            HeaderName::Host
        } else if l == "accept"@ {
            HeaderName::Accept
        } else {
            HeaderName::Custom(name)
        }
    }
}

impl View for Header {
    type V = HeaderName;

    open spec fn view(&self) -> HeaderName {
        match self {
            Header::ContentLength => HeaderName::ContentLength,
            Header::ContentType => HeaderName::ContentType,
            Header::AcceptEncoding => HeaderName::AcceptEncoding,
            Header::ContentEncoding => HeaderName::ContentEncoding,
            Header::UserAgent => HeaderName::UserAgent,
            Header::Host => HeaderName::Host,
            Header::Accept => HeaderName::Accept,
            Header::Custom(name) => HeaderName::Custom(name@),
        }
    }
}

impl Clone for Header {
    fn clone(&self) -> (r: Self)
        ensures
            r@ == self@,
    {
        match self {
            Header::ContentLength => Header::ContentLength,
            Header::ContentType => Header::ContentType,
            Header::AcceptEncoding => Header::AcceptEncoding,
            Header::ContentEncoding => Header::ContentEncoding,
            Header::UserAgent => Header::UserAgent,
            Header::Host => Header::Host,
            Header::Accept => Header::Accept,
            Header::Custom(name) => Header::Custom(name.clone()),
        }
    }
}

impl Header {
    /// Reads a header name. A known name is recognised in any case; any
    /// other name becomes `Custom` and keeps its spelling.
    pub fn from_string(header: &str) -> (r: Self)
        ensures
            r@ == HeaderName::named(header@),
    {
        proof {
            lemma_lowered_eq(header@, "content-length"@);
            lemma_lowered_eq(header@, "content-type"@);
            lemma_lowered_eq(header@, "accept-encoding"@);
            lemma_lowered_eq(header@, "content-encoding"@);
            lemma_lowered_eq(header@, "user-agent"@);
            lemma_lowered_eq(header@, "host"@);
            lemma_lowered_eq(header@, "accept"@);
        }
        let b = header.as_bytes();
        if lowered_eq(b, "content-length".as_bytes()) {
            Header::ContentLength
        } else if lowered_eq(b, "content-type".as_bytes()) {
            Header::ContentType
        } else if lowered_eq(b, "accept-encoding".as_bytes()) {
            Header::AcceptEncoding
        } else if lowered_eq(b, "content-encoding".as_bytes()) {
            Header::ContentEncoding
        } else if lowered_eq(b, "user-agent".as_bytes()) {
            Header::UserAgent
        } else if lowered_eq(b, "host".as_bytes()) {
            Header::Host
        } else if lowered_eq(b, "accept".as_bytes()) {
            Header::Accept
        } else {
            Header::Custom(header.to_owned())
        }
    }

    /// The name as it is written in a header line.
    pub fn to_string(&self) -> (r: String)
        ensures
            r@ == self@.text(),
    {
        match self {
            Header::ContentLength => "Content-Length".to_string(),
            Header::ContentType => "Content-Type".to_string(),
            Header::AcceptEncoding => "Accept-Encoding".to_string(),
            Header::ContentEncoding => "Content-Encoding".to_string(),
            Header::UserAgent => "User-Agent".to_string(),
            Header::Host => "Host".to_string(),
            Header::Accept => "Accept".to_string(),
            Header::Custom(value) => value.clone(),
        }
    }

    /// Whether `self` and `other` are the same header: the same known name, or
    /// two other names written alike.
    pub fn same(&self, other: &Header) -> (r: bool)
        ensures
            r == (self@ == other@),
    {
        match (self, other) {
            (Header::ContentLength, Header::ContentLength) => true,
            (Header::ContentType, Header::ContentType) => true,
            (Header::AcceptEncoding, Header::AcceptEncoding) => true,
            (Header::ContentEncoding, Header::ContentEncoding) => true,
            (Header::UserAgent, Header::UserAgent) => true,
            (Header::Host, Header::Host) => true,
            (Header::Accept, Header::Accept) => true,
            (Header::Custom(a), Header::Custom(b)) => str_eq(a.as_str(), b.as_str()),
            _ => false,
        }
    }
}

/// A media type: one of the two that this library produces, or any other,
/// kept as it was written.
#[derive(Debug, PartialEq, Eq, Hash)]
pub enum ContentType {
    TextPlain,
    ApplicationOctetStream,
    Custom(String),
}

/// What a `ContentType` stands for in specifications.
pub enum MediaType {
    TextPlain,
    ApplicationOctetStream,
    Custom(Seq<char>),
}

impl MediaType {
    /// The media type as it is written in a `Content-Type` header.
    pub open spec fn text(self) -> Seq<char> {
        match self {
            MediaType::TextPlain => "text/plain"@,
            MediaType::ApplicationOctetStream => "application/octet-stream"@,
            MediaType::Custom(value) => value,
        }
    }

    /// The media type that `value` names. The two known types are recognised
    /// whatever the case of their ASCII letters.
    pub open spec fn named(value: Seq<char>) -> MediaType {
        let l = lowered_text(value);
        if l == "text/plain"@ {
            MediaType::TextPlain
        } else if l == "application/octet-stream"@ {
            MediaType::ApplicationOctetStream
        } else {
            MediaType::Custom(value)
        }
    }
}

impl View for ContentType {
    type V = MediaType;

    open spec fn view(&self) -> MediaType {
        match self {
            ContentType::TextPlain => MediaType::TextPlain,
            ContentType::ApplicationOctetStream => MediaType::ApplicationOctetStream,
            ContentType::Custom(value) => MediaType::Custom(value@),
        }
    }
}

impl Clone for ContentType {
    fn clone(&self) -> (r: Self)
        ensures
            r@ == self@,
    {
        match self {
            ContentType::TextPlain => ContentType::TextPlain,
            ContentType::ApplicationOctetStream => ContentType::ApplicationOctetStream,
            ContentType::Custom(value) => ContentType::Custom(value.clone()),
        }
    }
}

impl ContentType {
    /// Reads a media type. A known type is recognised in any case; any other
    /// becomes `Custom` and keeps its spelling.
    pub fn from_string(content_type: &str) -> (r: Self)
        ensures
            r@ == MediaType::named(content_type@),
    {
        proof {
            lemma_lowered_eq(content_type@, "text/plain"@);
            lemma_lowered_eq(content_type@, "application/octet-stream"@);
        }
        let b = content_type.as_bytes();
        if lowered_eq(b, "text/plain".as_bytes()) {
            ContentType::TextPlain
        } else if lowered_eq(b, "application/octet-stream".as_bytes()) {
            ContentType::ApplicationOctetStream
        } else {
            ContentType::Custom(content_type.to_owned())
        }
    }

    /// The media type as it is written in a `Content-Type` header.
    pub fn to_string(&self) -> (r: String)
        ensures
            r@ == self@.text(),
    {
        match self {
            ContentType::TextPlain => "text/plain".to_string(),
            ContentType::ApplicationOctetStream => "application/octet-stream".to_string(),
            ContentType::Custom(value) => value.clone(),
        }
    }
}

} // verus!
