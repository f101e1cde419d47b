//! Reading a request's lines and building the response to it.
use vstd::prelude::*;
use vstd::utf8::encode_utf8;
use crate::decimal::{decimal_text, push_decimal};

verus! {

pub open spec fn ok_status() -> Seq<char> {
    "HTTP/1.1 200 OK"@
}

pub open spec fn bad_request_status() -> Seq<char> {
    "HTTP/1.1 400 Bad Request"@
}

/// `status`, a `Content-Length` header with the body's length in UTF-8
/// bytes, a blank line, and the body.
pub open spec fn response_text(status: Seq<char>, body: Seq<char>) -> Seq<char> {
    status + "\r\nContent-Length: "@ + decimal_text(encode_utf8(body).len()) + "\r\n\r\n"@ + body
}

/// The response to a request: `400` with an empty body when no line was
/// read, otherwise `200` with the page contents as body.
pub open spec fn response_for(lines: Seq<Seq<char>>, contents: Seq<char>) -> Seq<char> {
    if lines.len() == 0 {
        response_text(bad_request_status(), Seq::<char>::empty())
    } else {
        response_text(ok_status(), contents)
    }
}

/// Serialises a response with the given status line and body.
pub fn format_response(status_line: &str, body: &str) -> (r: String)
    ensures
        r@ == response_text(status_line@, body@),
{
    let mut out = String::from_str(status_line);
    out.append("\r\nContent-Length: ");
    let n = body.as_bytes().len();
    assert(n == encode_utf8(body@).len());
    push_decimal(&mut out, n as u64);
    out.append("\r\n\r\n");
    out.append(body);
    assert(out@ =~= response_text(status_line@, body@));
    out
}

/// Takes in one line read from the connection. A non-empty line is kept and
/// reading goes on; an empty line (the end of the head) or `None` (the
/// stream ended, or the line could not be read) ends the request.
pub fn push_request_line(http_request: &mut Vec<String>, line: Option<String>) -> (more: bool)
    ensures
        match line {
            Some(l) if l@.len() > 0 => more && final(http_request)@ == old(http_request)@.push(l),
            _ => !more && final(http_request)@ == old(http_request)@,
        },
{
    match line {
        Some(l) => {
            if l.as_str().is_empty() {
                false
            } else {
                http_request.push(l);
                true
            }
        },
        None => false,
    }
}

/// Whether the response to this request needs the page contents: only a
/// request with at least one line is answered with them.
pub fn needs_content(http_request: &Vec<String>) -> (r: bool)
    ensures
        r == (http_request@.len() > 0),
{
    http_request.len() > 0
}

/// The body served for a request line. No routes are defined, so every
/// request line maps to the empty body.
pub fn serve_request(request_line: &String) -> (r: String)
    ensures
        r@ == Seq::<char>::empty(),
{
    String::new()
}

/// Builds the response to the request lines, with `contents` as the page.
pub fn handle_http_request(http_request: &Vec<String>, contents: &String) -> (r: String)
    ensures
        r@ == response_for(http_request@.map_values(|l: String| l@), contents@),
{
    if http_request.len() > 0 {
        format_response("HTTP/1.1 200 OK", contents.as_str())
    } else {
        proof {
            reveal_strlit("");
        }
        format_response("HTTP/1.1 400 Bad Request", "")
    }
}

} // verus!
