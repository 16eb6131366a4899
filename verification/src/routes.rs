//! The handlers that the server registers. Each takes a request and gives the
//! response to it; the two that serve files take what the file system said.

use vstd::prelude::*;
use vstd::string::StringExecFns;
use vstd::utf8::*;
use crate::decimal::{decimal, to_decimal};
use crate::headers::{merged, Field, Headers};
use crate::http::{ContentType, Header, HeaderName, Status, StatusCode};
use crate::request::Request;
use crate::response::{built, Response, ResponseView};
use crate::text::strip_prefix;

verus! {

/// The headers of a plain-text reply of `length` bytes to a request that
/// came with the headers `sent`: the content type and the length, and on top
/// of them every header of the request.
pub open spec fn plain_headers(length: nat, sent: Seq<Field>) -> Seq<Field> {
    merged(
        seq![
            (HeaderName::ContentType, "text/plain"@),
            (HeaderName::ContentLength, decimal(length)),
        ],
        sent,
    )
}

/// The plain-text reply with the body `body` to a request that came with the
/// headers `sent`.
pub open spec fn plain_reply(body: Seq<char>, sent: Seq<Field>) -> ResponseView {
    built(StatusCode::OK, "OK"@, body, plain_headers(encode_utf8(body).len(), sent))
}

/// What follows `prefix` and a slash in `target`; nothing where `target` does
/// not begin with `prefix` and a slash.
pub open spec fn segment_after(prefix: Seq<char>, target: Seq<char>) -> Seq<char> {
    let lead = prefix + "/"@;
    if lead.is_prefix_of(target) {
        target.subrange(lead.len() as int, target.len() as int)
    } else {
        Seq::empty()
    }
}

/// The part of `target` that follows `prefix` and a slash.
pub fn trailing_segment(prefix: &str, target: &str) -> (r: String)
    ensures
        r@ == segment_after(prefix@, target@),
{
    let mut lead = prefix.to_owned();
    lead.append("/");
    match strip_prefix(target, lead.as_str()) {
        Some(rest) => rest,
        None => String::new(),
    }
}

fn plain_response(body: String, sent: &Headers) -> (r: Response)
    ensures
        r@ == plain_reply(body@, sent@),
        r.headers.wf(),
{
    let mut headers = Headers::new();
    headers.insert(Header::ContentType, ContentType::TextPlain.to_string());
    headers.insert(Header::ContentLength, to_decimal(body.as_str().as_bytes().len()));
    assert(headers@ =~= seq![
        (HeaderName::ContentType, "text/plain"@),
        (HeaderName::ContentLength, decimal(encode_utf8(body@).len())),
    ]) by {
        reveal_with_fuel(crate::headers::position_from, 3);
    }
    headers.extend(sent);
    Response::builder(Status { code: StatusCode::OK, message: "OK".to_string() }, body, headers)
}

/// Answers a request for the root with an empty plain-text body.
pub fn root_handler(req: Request) -> (r: Result<Response, Response>)
    ensures
        r matches Ok(response) && response@ == plain_reply(Seq::empty(), req.headers@),
{
    Ok(plain_response(String::new(), &req.headers))
}

/// Answers with the part of the target that follows `/echo/`.
pub fn echo_handler(req: Request) -> (r: Result<Response, Response>)
    ensures
        r matches Ok(response) && response@ == plain_reply(
            segment_after("/echo"@, req.target@),
            req.headers@,
        ),
{
    let body = trailing_segment("/echo", req.target.as_str());
    Ok(plain_response(body, &req.headers))
}

/// What `user_agent_handler` answers with: the value of `User-Agent`, or a
/// fixed sentence where the request has no such header.
pub open spec fn user_agent_of(sent: Seq<Field>) -> Seq<char> {
    match crate::headers::lookup(sent, HeaderName::UserAgent) {
        Some(agent) => agent,
        None => "No User-Agent found"@,
    }
}

/// Answers with the `User-Agent` that the request names.
pub fn user_agent_handler(req: Request) -> (r: Result<Response, Response>)
    ensures
        r matches Ok(response) && response@ == plain_reply(
            user_agent_of(req.headers@),
            req.headers@,
        ),
{
    let body = match req.headers.get(&Header::UserAgent) {
        Some(agent) => agent.clone(),
        None => "No User-Agent found".to_string(),
    };
    Ok(plain_response(body, &req.headers))
}

/// The path of the file that a request for `target` reads: the directory,
/// and right behind it what follows `/files/` in the target.
pub fn files_handler_path(directory: &str, target: &str) -> (r: String)
    ensures
        r@ == directory@ + segment_after("/files"@, target@),
{
    let name = trailing_segment("/files", target);
    let mut path = directory.to_owned();
    path.append(name.as_str());
    path
}

/// The path of the file that a request for `target` writes: the directory, a
/// slash, and what follows `/files/` in the target.
pub fn files_handler_create_path(directory: &str, target: &str) -> (r: String)
    ensures
        r@ == directory@ + "/"@ + segment_after("/files"@, target@),
{
    let name = trailing_segment("/files", target);
    let mut path = directory.to_owned();
    path.append("/");
    path.append(name.as_str());
    path
}

/// The 404 response, whose body says so.
pub open spec fn missing() -> ResponseView {
    built(StatusCode::NotFound, "Not Found"@, "404 Not Found"@, Seq::empty())
}

/// The response that carries the file content `content`.
pub open spec fn file_reply(content: Seq<char>) -> ResponseView {
    built(
        StatusCode::OK,
        "OK"@,
        content,
        seq![
            (HeaderName::ContentLength, decimal(encode_utf8(content).len())),
            (HeaderName::ContentType, "application/octet-stream"@),
        ],
    )
}

/// Answers a request for a file, given what reading the file gave: its
/// content, or `None` where it could not be read.
pub fn files_handler(content: Option<String>) -> (r: Result<Response, Response>)
    ensures
        r matches Ok(response) && response@ == match content {
            Some(text) => file_reply(text@),
            None => missing(),
        },
{
    match content {
        Some(body) => {
            let mut headers = Headers::new();
            headers.insert(Header::ContentLength, to_decimal(body.as_str().as_bytes().len()));
            headers.insert(Header::ContentType, ContentType::ApplicationOctetStream.to_string());
            assert(headers@ =~= seq![
                (HeaderName::ContentLength, decimal(encode_utf8(body@).len())),
                (HeaderName::ContentType, "application/octet-stream"@),
            ]) by {
                reveal_with_fuel(crate::headers::position_from, 3);
            }
            Ok(
                Response::builder(
                    Status { code: StatusCode::OK, message: "OK".to_string() },
                    body,
                    headers,
                ),
            )
        },
        None => Ok(
            Response::builder(
                Status { code: StatusCode::NotFound, message: "Not Found".to_string() },
                "404 Not Found".to_string(),
                Headers::new(),
            ),
        ),
    }
}

/// The response to a request whose file was stored.
pub open spec fn created() -> ResponseView {
    built(
        StatusCode::Created,
        "Created"@,
        Seq::empty(),
        seq![(HeaderName::ContentType, "text/plain"@)],
    )
}

/// The response of a handler that could not do its work.
pub open spec fn internal_error() -> ResponseView {
    built(
        StatusCode::InternalServerError,
        "Internal Server Error"@,
        "500 Internal Server Error"@,
        Seq::empty(),
    )
}

fn internal_error_response() -> (r: Response)
    ensures
        r@ == internal_error(),
{
    Response::builder(
        Status { code: StatusCode::InternalServerError, message: "Internal Server Error".to_string() },
        "500 Internal Server Error".to_string(),
        Headers::new(),
    )
}

/// What a handler returns when it cannot do its work at all, for want of
/// what it needs from its surroundings: the 500 response, as an error.
pub fn handler_fault() -> (r: Result<Response, Response>)
    ensures
        r matches Err(response) && response@ == internal_error(),
{
    Err(internal_error_response())
}

/// The response to a request to store a file, given what became of the
/// write: 500 where a write was made and failed, 201 where it went well and
/// where the request had no body, so that nothing was written.
pub open spec fn store_reply(written: Option<bool>) -> ResponseView {
    if written == Some(false) {
        internal_error()
    } else {
        created()
    }
}

/// Answers a request to store a file. `written` is `None` where the request
/// had no body and nothing was written, and else says whether the write of
/// the body went well.
pub fn files_handler_create(written: Option<bool>) -> (r: Result<Response, Response>)
    ensures
        r matches Ok(response) && response@ == store_reply(written),
{
    match written {
        Some(false) => Ok(internal_error_response()),
        _ => {
            let mut headers = Headers::new();
            headers.insert(Header::ContentType, ContentType::TextPlain.to_string());
            Ok(
                Response::builder(
                    Status { code: StatusCode::Created, message: "Created".to_string() },
                    String::new(),
                    headers,
                ),
            )
        },
    }
}

} // verus!
