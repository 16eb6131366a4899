//! The request parser: from the leading bytes of a connection to a structured
//! request, or to the reason why there is none.

use vstd::prelude::*;
use vstd::slice::slice_subrange;
use vstd::utf8::*;
use crate::bytes::{
    crlf, crlf_at, find_byte, find_line_end, first_from, lemma_first_from_unique, lemma_line_end,
    lemma_line_end_unique, line_end, next_line, split, split_from, trim, trim_bytes, COLON, SPACE,
};
use crate::decimal::{number_in_range, parse_number};
use crate::headers::{lookup, upsert, Field, Headers};
use crate::http::{Header, HeaderName, ParseError, RequestMethod};
use crate::text::{
    decode_text, decoded, has_line_break, lemma_ascii_absent, lemma_decoded_roundtrip,
    lemma_line_break_absent, lemma_trim_text, trimmed_text,
};

verus! {

/// One parsed client message.
#[derive(Debug, PartialEq, Eq)]
pub struct Request {
    pub method: RequestMethod,
    pub target: String,
    pub version: String,
    pub body: Option<String>,
    pub headers: Headers,
}

/// What a `Request` stands for in specifications.
pub struct RequestView {
    pub method: RequestMethod,
    pub target: Seq<char>,
    pub version: Seq<char>,
    pub body: Option<Seq<char>>,
    pub headers: Seq<Field>,
}

impl View for Request {
    type V = RequestView;

    open spec fn view(&self) -> RequestView {
        RequestView {
            method: self.method,
            target: self.target@,
            version: self.version@,
            body: match self.body {
                Some(text) => Some(text@),
                None => None,
            },
            headers: self.headers@,
        }
    }
}

/// What a request line says: the line is cut at its single spaces and must
/// give exactly three tokens, a supported method, and a target and a version
/// that are text.
pub open spec fn request_line(line: Seq<u8>) -> Result<
    (RequestMethod, Seq<char>, Seq<char>),
    ParseError,
> {
    let tokens = split(line, SPACE);
    if tokens.len() != 3 {
        Err(ParseError::MalformedRequestLine)
    } else {
        match RequestMethod::of_bytes(tokens[0]) {
            None => Err(ParseError::UnsupportedMethod),
            Some(method) => match (decoded(tokens[1]), decoded(tokens[2])) {
                (Some(target), Some(version)) => Ok((method, target, version)),
                _ => Err(ParseError::MalformedRequestLine),
            },
        }
    }
}

/// The header that a line of the header section holds: the line is cut at its
/// first colon, and both sides are trimmed. A line without a colon, or with a
/// side that is not text, holds none.
pub open spec fn header_field(line: Seq<u8>) -> Option<Field> {
    let colon = first_from(line, COLON, 0);
    if 0 <= colon < line.len() {
        match (
            decoded(trim(line.subrange(0, colon))),
            decoded(trim(line.subrange(colon + 1, line.len() as int))),
        ) {
            (Some(name), Some(value)) => Some((HeaderName::named(name), value)),
            _ => None,
        }
    } else {
        None
    }
}

/// `fields` with the header of `line` set in it, if the line holds one.
pub open spec fn with_line(fields: Seq<Field>, line: Seq<u8>) -> Seq<Field> {
    match header_field(line) {
        Some(field) => upsert(fields, field.0, field.1),
        None => fields,
    }
}

/// The header section of `input` from `start` on, read on top of `fields`:
/// line after line up to the first empty line or the end of the input. Gives
/// the headers, and the index at which the body starts.
pub open spec fn header_section(input: Seq<u8>, start: int, fields: Seq<Field>) -> (
    Seq<Field>,
    int,
)
    decreases input.len() - start,
{
    if start < 0 || start >= input.len() {
        (fields, input.len() as int)
    } else if start < line_end(input, start) {
        proof {
            lemma_line_end(input, start);
        }
        header_section(
            input,
            next_line(input, start),
            with_line(fields, input.subrange(start, line_end(input, start))),
        )
    } else {
        (fields, start + 2)
    }
}

/// The body length that the headers announce: the number in `Content-Length`,
/// and zero where the header is missing or holds no number that fits.
pub open spec fn declared_length(fields: Seq<Field>) -> usize {
    match lookup(fields, HeaderName::ContentLength) {
        Some(value) => match number_in_range(encode_utf8(value)) {
            Some(n) => n,
            None => 0,
        },
        None => 0,
    }
}

/// The text that `bytes` hold, and the empty text where they hold none.
pub open spec fn text_or_empty(bytes: Seq<u8>) -> Seq<char> {
    match decoded(bytes) {
        Some(text) => text,
        None => Seq::empty(),
    }
}

/// The body of a request whose headers are `fields` and whose body starts at
/// `start`: absent where no length is announced; else the announced number
/// of bytes, read as text, and the empty text where they are not text.
pub open spec fn body_of(input: Seq<u8>, start: int, fields: Seq<Field>) -> Result<
    Option<Seq<char>>,
    ParseError,
> {
    let n = declared_length(fields);
    if n == 0 {
        Ok(None)
    } else if start + n > input.len() {
        Err(ParseError::TruncatedBody)
    } else {
        Ok(Some(text_or_empty(input.subrange(start, start + n))))
    }
}

/// Where the header section that starts at `start` ends: the index just past
/// its empty line, or `None` where the input ends before an empty line.
pub open spec fn section_end(input: Seq<u8>, start: int) -> Option<int>
    decreases input.len() - start,
{
    if start < 0 || start >= input.len() {
        None
    } else if start < line_end(input, start) {
        proof {
            lemma_line_end(input, start);
        }
        section_end(input, next_line(input, start))
    } else {
        Some(start + 2)
    }
}

/// What a reader of a connection still has to fetch before `input` holds a
/// whole request.
#[derive(Clone, Copy, Debug, PartialEq, Eq, Structural)]
pub enum Pending {
    /// The empty line that ends the header section has not come in yet.
    Head,
    /// The head is complete and this many bytes of the body are missing.
    Body(usize),
    /// Nothing: the head and the announced body are there.
    Nothing,
}

/// What is missing from `input`.
pub open spec fn pending(input: Seq<u8>) -> Pending {
    match section_end(input, next_line(input, 0)) {
        None => Pending::Head,
        Some(start) => {
            let n = declared_length(header_section(input, next_line(input, 0), Seq::empty()).0);
            if start + n > input.len() {
                Pending::Body((start + n - input.len()) as usize)
            } else {
                Pending::Nothing
            }
        },
    }
}

/// The request that `input` holds, or the reason why it holds none.
pub open spec fn parse(input: Seq<u8>) -> Result<RequestView, ParseError> {
    match request_line(input.subrange(0, line_end(input, 0))) {
        Err(e) => Err(e),
        Ok(first) => {
            let section = header_section(input, next_line(input, 0), Seq::empty());
            match body_of(input, section.1, section.0) {
                Err(e) => Err(e),
                Ok(body) => Ok(
                    RequestView {
                        method: first.0,
                        target: first.1,
                        version: first.2,
                        body,
                        headers: section.0,
                    },
                ),
            }
        },
    }
}

/// Where the body starts is inside the input or at its end.
pub proof fn lemma_header_section_bounds(input: Seq<u8>, start: int, fields: Seq<Field>)
    requires
        0 <= start <= input.len(),
    ensures
        start <= header_section(input, start, fields).1 <= input.len(),
    decreases input.len() - start,
{
    lemma_line_end(input, start);
    if start < input.len() && start < line_end(input, start) {
        lemma_header_section_bounds(
            input,
            next_line(input, start),
            with_line(fields, input.subrange(start, line_end(input, start))),
        );
    }
}

/// The body starts right after the empty line that ends the header section,
/// and at the end of the input where there is no such line.
pub proof fn lemma_section_end(input: Seq<u8>, start: int, fields: Seq<Field>)
    requires
        0 <= start <= input.len(),
    ensures
        header_section(input, start, fields).1 == match section_end(input, start) {
            Some(end) => end,
            None => input.len() as int,
        },
    decreases input.len() - start,
{
    lemma_line_end(input, start);
    if start < input.len() && start < line_end(input, start) {
        lemma_section_end(
            input,
            next_line(input, start),
            with_line(fields, input.subrange(start, line_end(input, start))),
        );
    }
}

/// A request whose headers announce no length, or the length zero, has no
/// body, whatever follows its head.
pub proof fn lemma_body_absent(input: Seq<u8>, start: int, fields: Seq<Field>)
    requires
        match lookup(fields, HeaderName::ContentLength) {
            Some(value) => number_in_range(encode_utf8(value)) == Some(0usize),
            None => true,
        },
    ensures
        body_of(input, start, fields) == Ok::<Option<Seq<char>>, ParseError>(None),
{
}

/// A request has a body exactly where its headers announce a length above
/// zero; the only error is a body that the input does not hold in full.
pub proof fn lemma_body_presence(input: Seq<u8>, start: int, fields: Seq<Field>)
    ensures
        match body_of(input, start, fields) {
            Ok(body) => body is Some <==> declared_length(fields) > 0,
            Err(e) => e == ParseError::TruncatedBody && start + declared_length(fields)
                > input.len(),
        },
{
}

/// Reads a request line.
pub fn read_request_line(line: &[u8]) -> (r: Result<(RequestMethod, String, String), ParseError>)
    ensures
        match r {
            Ok(first) => request_line(line@) == Ok::<_, ParseError>(
                (first.0, first.1@, first.2@),
            ),
            Err(e) => request_line(line@) == Err::<(RequestMethod, Seq<char>, Seq<char>), _>(e),
        },
{
    let ghost tokens = split(line@, SPACE);
    let first = find_byte(line, SPACE, 0);
    if first == line.len() {
        return Err(ParseError::MalformedRequestLine);
    }
    let second = find_byte(line, SPACE, first + 1);
    assert(tokens =~= seq![line@.subrange(0, first as int)] + split_from(
        line@,
        SPACE,
        first + 1,
    ));
    if second == line.len() {
        return Err(ParseError::MalformedRequestLine);
    }
    let third = find_byte(line, SPACE, second + 1);
    if third != line.len() {
        assert(split_from(line@, SPACE, second + 1) =~= seq![
            line@.subrange(second + 1, third as int),
        ] + split_from(line@, SPACE, third + 1));
        return Err(ParseError::MalformedRequestLine);
    }
    assert(split_from(line@, SPACE, second + 1) =~= seq![
        line@.subrange(second + 1, line@.len() as int),
    ]);
    let method = match RequestMethod::from_bytes(slice_subrange(line, 0, first)) {
        Ok(method) => method,
        Err(e) => {
            return Err(e);
        },
    };
    let target = match decode_text(slice_subrange(line, first + 1, second)) {
        Some(target) => target,
        None => {
            return Err(ParseError::MalformedRequestLine);
        },
    };
    let version = match decode_text(slice_subrange(line, second + 1, line.len())) {
        Some(version) => version,
        None => {
            return Err(ParseError::MalformedRequestLine);
        },
    };
    Ok((method, target, version))
}

/// Reads one line of the header section.
pub fn read_header_field(line: &[u8]) -> (r: Option<(Header, String)>)
    ensures
        match r {
            Some(field) => header_field(line@) == Some((field.0@, field.1@)),
            None => header_field(line@) is None,
        },
{
    let colon = find_byte(line, COLON, 0);
    if colon == line.len() {
        return None;
    }
    let name = match decode_text(trim_bytes(slice_subrange(line, 0, colon))) {
        Some(name) => name,
        None => {
            return None;
        },
    };
    let value = match decode_text(trim_bytes(slice_subrange(line, colon + 1, line.len()))) {
        Some(value) => value,
        None => {
            return None;
        },
    };
    Some((Header::from_string(name.as_str()), value))
}

/// Reads the header section of `input` from `start` on. Gives the headers and
/// the index at which the body starts.
pub fn read_headers(input: &[u8], start: usize) -> (r: (Headers, usize))
    requires
        start <= input.len(),
    ensures
        (r.0@, r.1 as int) == header_section(input@, start as int, Seq::empty()),
        start <= r.1 <= input.len(),
        r.0.wf(),
{
    let mut headers = Headers::new();
    let mut pos: usize = start;
    while pos < input.len()
        invariant
            start <= pos <= input.len(),
            headers.wf(),
            header_section(input@, start as int, Seq::empty()) == header_section(
                input@,
                pos as int,
                headers@,
            ),
        decreases input.len() - pos,
    {
        let end = find_line_end(input, pos);
        proof {
            lemma_line_end(input@, pos as int);
        }
        if end == pos {
            return (headers, pos + 2);
        }
        match read_header_field(slice_subrange(input, pos, end)) {
            Some(field) => {
                headers.insert(field.0, field.1);
            },
            None => {},
        }
        pos = if end < input.len() {
            end + 2
        } else {
            input.len()
        };
    }
    (headers, pos)
}

/// Finds the end of the header section that starts at `start`.
pub fn find_section_end(input: &[u8], start: usize) -> (r: Option<usize>)
    requires
        start <= input.len(),
    ensures
        match r {
            Some(end) => section_end(input@, start as int) == Some(end as int) && end
                <= input.len(),
            None => section_end(input@, start as int) is None,
        },
{
    let mut pos: usize = start;
    while pos < input.len()
        invariant
            start <= pos <= input.len(),
            section_end(input@, start as int) == section_end(input@, pos as int),
        decreases input.len() - pos,
    {
        let end = find_line_end(input, pos);
        proof {
            lemma_line_end(input@, pos as int);
        }
        if end == pos {
            return Some(pos + 2);
        }
        pos = if end < input.len() {
            end + 2
        } else {
            input.len()
        };
    }
    None
}

/// The body length that `headers` announce.
pub fn content_length(headers: &Headers) -> (r: usize)
    ensures
        r == declared_length(headers@),
{
    match headers.get(&Header::ContentLength) {
        Some(value) => match parse_number(value.as_str().as_bytes()) {
            Some(n) => n,
            None => 0,
        },
        None => 0,
    }
}

impl Request {
    /// Parses the leading bytes of a connection: a request line, the header
    /// section, and the body that the headers announce. What follows the
    /// body is not looked at.
    pub fn builder(input: &[u8]) -> (r: Result<Request, ParseError>)
        ensures
            match r {
                Ok(request) => parse(input@) == Ok::<_, ParseError>(request@)
                    && request.headers.wf(),
                Err(e) => parse(input@) == Err::<RequestView, _>(e),
            },
    {
        let end = find_line_end(input, 0);
        proof {
            lemma_line_end(input@, 0);
        }
        let first = match read_request_line(slice_subrange(input, 0, end)) {
            Ok(first) => first,
            Err(e) => {
                return Err(e);
            },
        };
        let after = if end < input.len() {
            end + 2
        } else {
            input.len()
        };
        let (headers, body_start) = read_headers(input, after);
        let n = content_length(&headers);
        let body = if n == 0 {
            None
        } else if n > input.len() - body_start {
            return Err(ParseError::TruncatedBody);
        } else {
            match decode_text(slice_subrange(input, body_start, body_start + n)) {
                Some(text) => Some(text),
                None => Some(String::new()),
            }
        };
        Ok(Request { method: first.0, target: first.1, version: first.2, body, headers })
    }

    /// What a reader still has to fetch before `input` holds a whole request:
    /// more of the head, so many bytes of the body, or nothing.
    pub fn pending(input: &[u8]) -> (r: Pending)
        ensures
            r == pending(input@),
    {
        let end = find_line_end(input, 0);
        proof {
            lemma_line_end(input@, 0);
        }
        let after = if end < input.len() {
            end + 2
        } else {
            input.len()
        };
        match find_section_end(input, after) {
            None => Pending::Head,
            Some(_) => {
                let (headers, body_start) = read_headers(input, after);
                proof {
                    lemma_section_end(input@, after as int, Seq::empty());
                }
                let n = content_length(&headers);
                if n > input.len() - body_start {
                    Pending::Body(n - (input.len() - body_start))
                } else {
                    Pending::Nothing
                }
            },
        }
    }
}

/// A request line with a supported method, a target and a version, single
/// spaces between them, followed by an empty line and nothing else, parses to
/// a request with exactly that method, target and version, no header and no
/// body. The target and the version may be any text without a space and
/// without a line break.
pub proof fn lemma_parse_bare_request(
    method: RequestMethod,
    target: Seq<char>,
    version: Seq<char>,
)
    requires
        !target.contains(' '),
        !version.contains(' '),
        !has_line_break(target),
        !has_line_break(version),
    ensures
        parse(
            encode_utf8(method.token()) + seq![SPACE] + encode_utf8(target) + seq![SPACE]
                + encode_utf8(version) + crlf() + crlf(),
        ) == Ok::<RequestView, ParseError>(
            RequestView { method, target, version, body: None, headers: Seq::empty() },
        ),
{
    let m = encode_utf8(method.token());
    let t = encode_utf8(target);
    let v = encode_utf8(version);
    let line = m + seq![SPACE] + t + seq![SPACE] + v;
    let input = line + crlf() + crlf();
    let a = m.len() as int;
    let b = a + 1 + t.len();
    let n = line.len() as int;
    method.lemma_token();
    lemma_ascii_absent(target, ' ');
    lemma_ascii_absent(version, ' ');
    lemma_line_break_absent(target);
    lemma_line_break_absent(version);

    assert forall|j: int| 0 <= j < n implies !crlf_at(input, j) by {
        if a < j && j + 1 < b {
            assert(!crlf_at(t, j - a - 1));
        } else if b < j && j + 1 < n {
            assert(!crlf_at(v, j - b - 1));
        }
    }
    lemma_line_end_unique(input, 0, n);
    assert(input.subrange(0, n) =~= line);

    lemma_first_from_unique(line, SPACE, 0, a);
    lemma_first_from_unique(line, SPACE, a + 1, b);
    lemma_first_from_unique(line, SPACE, b + 1, n);
    assert(split_from(line, SPACE, a + 1) =~= seq![line.subrange(a + 1, b)] + split_from(
        line,
        SPACE,
        b + 1,
    ));
    assert(line.subrange(0, a) =~= m);
    assert(line.subrange(a + 1, b) =~= t);
    assert(line.subrange(b + 1, n) =~= v);
    lemma_decoded_roundtrip(t, target);
    lemma_decoded_roundtrip(v, version);
}

/// A header line made of a name without a colon, a colon and a value holds
/// the header that the name names, with the value, both trimmed of their
/// whitespace characters.
pub proof fn lemma_header_line(name: Seq<char>, value: Seq<char>)
    requires
        !name.contains(':'),
    ensures
        header_field(encode_utf8(name) + seq![COLON] + encode_utf8(value)) == Some(
            (HeaderName::named(trimmed_text(name)), trimmed_text(value)),
        ),
{
    let n = encode_utf8(name);
    let v = encode_utf8(value);
    let line = n + seq![COLON] + v;
    lemma_ascii_absent(name, ':');
    assert forall|j: int| 0 <= j < n.len() implies line[j] != COLON by {
        assert(n.contains(n[j]));
    }
    lemma_first_from_unique(line, COLON, 0, n.len() as int);
    assert(line.subrange(0, n.len() as int) =~= n);
    assert(line.subrange(n.len() as int + 1, line.len() as int) =~= v);
    lemma_trim_text(name);
    lemma_trim_text(value);
    lemma_decoded_roundtrip(trim(n), trimmed_text(name));
    lemma_decoded_roundtrip(trim(v), trimmed_text(value));
}

/// A line that ends inside `input` ends at the same place in every input
/// that begins with `input`.
proof fn lemma_line_end_extended(input: Seq<u8>, rest: Seq<u8>, start: int)
    requires
        0 <= start <= input.len(),
        line_end(input, start) < input.len(),
    ensures
        line_end(input + rest, start) == line_end(input, start),
        next_line(input + rest, start) == next_line(input, start),
{
    let longer = input + rest;
    let end = line_end(input, start);
    lemma_line_end(input, start);
    assert forall|j: int| start <= j < end implies !crlf_at(longer, j) by {
        assert(!crlf_at(input, j));
    }
    lemma_line_end_unique(longer, start, end);
}

/// A header section that ends inside `input` is read alike in every input
/// that begins with `input`.
proof fn lemma_header_section_extended(
    input: Seq<u8>,
    rest: Seq<u8>,
    start: int,
    fields: Seq<Field>,
)
    requires
        0 <= start <= input.len(),
        section_end(input, start) is Some,
    ensures
        header_section(input + rest, start, fields) == header_section(input, start, fields),
        header_section(input, start, fields).1 == section_end(input, start).unwrap(),
    decreases input.len() - start,
{
    let longer = input + rest;
    lemma_line_end(input, start);
    let end = line_end(input, start);
    if start < end {
        assert(end < input.len()) by {
            if end >= input.len() {
                assert(section_end(input, start) == section_end(input, next_line(input, start)));
            }
        }
        lemma_line_end_extended(input, rest, start);
        assert(longer.subrange(start, end) =~= input.subrange(start, end));
        lemma_header_section_extended(
            input,
            rest,
            next_line(input, start),
            with_line(fields, input.subrange(start, end)),
        );
    }
}

/// What follows a whole request is not looked at: once nothing is pending,
/// more input changes neither the request nor the error.
pub proof fn lemma_parse_ignores_rest(input: Seq<u8>, rest: Seq<u8>)
    requires
        pending(input) == Pending::Nothing,
    ensures
        parse(input + rest) == parse(input),
{
    let longer = input + rest;
    lemma_line_end(input, 0);
    let after = next_line(input, 0);
    lemma_line_end_extended(input, rest, 0);
    assert(longer.subrange(0, line_end(input, 0)) =~= input.subrange(0, line_end(input, 0)));
    lemma_header_section_extended(input, rest, after, Seq::empty());
    let section = header_section(input, after, Seq::empty());
    lemma_header_section_bounds(input, after, Seq::empty());
    let n = declared_length(section.0);
    if n > 0 {
        assert(longer.subrange(section.1, section.1 + n) =~= input.subrange(
            section.1,
            section.1 + n,
        ));
    }
}

} // verus!
