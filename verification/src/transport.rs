//! The wire side of an upload: the target that a base URL names, the text of
//! the two HTTP requests, and what is read off a response. Opening the
//! connection and moving the bytes is left to the caller.

use vstd::prelude::*;
use crate::text::{
    bounded_number, chars_of, contains, contains_text, decimal, find, find_char, parse_number,
    push_decimal, starts_with, string_of,
};

verus! {

/// Where the service listens: host, port, and the path under which it is
/// mounted (empty, or starting with a slash).
#[derive(PartialEq, Eq, Debug)]
pub struct HttpTarget {
    pub host: String,
    pub port: u16,
    pub base_path: String,
}

/// A target as plain values.
pub struct Target {
    pub host: Seq<char>,
    pub port: int,
    pub base_path: Seq<char>,
}

impl View for HttpTarget {
    type V = Target;

    open spec fn view(&self) -> Target {
        Target { host: self.host@, port: self.port as int, base_path: self.base_path@ }
    }
}

/// The port that `s` writes: an optional `+`, then one or more decimal
/// digits, with a value of at most 65535.
pub open spec fn port_number(s: Seq<char>) -> Option<int> {
    bounded_number(
        if s.len() > 0 && s[0] == '+' {
            s.drop_first()
        } else {
            s
        },
        65535,
    )
}

/// The target that a base URL names, or the reason why it names none.
///
/// The URL must begin with `http://`. What follows, up to the first slash,
/// is the host, with the port after the first colon where there is one and
/// 9200 otherwise; the base path is the rest, from that slash on.
pub open spec fn target_of(url: Seq<char>) -> Result<Target, Seq<char>> {
    let scheme = "http://"@;
    if !scheme.is_prefix_of(url) {
        Err("Only http:// supported"@)
    } else {
        let rest = url.skip(scheme.len() as int);
        let slash = find(rest, '/', 0);
        let authority = rest.take(slash);
        let base_path = rest.skip(slash);
        let colon = find(authority, ':', 0);
        if colon < authority.len() {
            match port_number(authority.skip(colon + 1)) {
                Some(port) => Ok(Target { host: authority.take(colon), port, base_path }),
                None => Err("Invalid port"@),
            }
        } else {
            Ok(Target { host: authority, port: 9200, base_path })
        }
    }
}

/// Reads a base URL.
pub fn parse_http_target(url: &str) -> (r: Result<HttpTarget, String>)
    ensures
        match target_of(url@) {
            Ok(target) => r is Ok && r->Ok_0@ == target,
            Err(reason) => r is Err && r->Err_0@ == reason,
        },
{
    let chars = chars_of(url);
    let scheme = chars_of("http://");
    if !starts_with(&chars, &scheme) {
        return Err(String::from_str("Only http:// supported"));
    }
    let n: usize = chars.len();
    let start: usize = scheme.len();
    let ghost rest = url@.skip(start as int);
    assert(chars@.subrange(start as int, n as int) =~= rest);
    let slash: usize = find_char(&chars, '/', start, n);
    let stop: usize = start + slash;
    let ghost authority = rest.take(slash as int);
    assert(chars@.subrange(start as int, stop as int) =~= authority);
    let base_path = string_of(&chars, stop, n);
    assert(base_path@ =~= rest.skip(slash as int));
    let colon: usize = find_char(&chars, ':', start, stop);
    if colon < slash {
        let after: usize = start + colon + 1;
        let ghost digits = authority.skip(colon + 1);
        assert(chars@.subrange(after as int, stop as int) =~= digits);
        let from: usize = if after < stop && chars[after] == '+' {
            after + 1
        } else {
            after
        };
        proof {
            if from > after {
                assert(chars@.subrange(from as int, stop as int) =~= digits.drop_first());
            }
        }
        match parse_number(&chars, from, stop, 65535) {
            Some(port) => {
                let host = string_of(&chars, start, start + colon);
                assert(host@ =~= authority.take(colon as int));
                Ok(HttpTarget { host, port: port as u16, base_path })
            },
            None => Err(String::from_str("Invalid port")),
        }
    } else {
        let host = string_of(&chars, start, stop);
        Ok(HttpTarget { host, port: 9200, base_path })
    }
}

/// The address to connect to: the host, a colon, and the port in decimal.
pub open spec fn address_text(target: Target) -> Seq<char> {
    target.host + ":"@ + decimal(target.port as nat)
}

/// The address to connect to.
pub fn address(target: &HttpTarget) -> (r: String)
    ensures
        r@ == address_text(target@),
{
    let mut out = String::new();
    out.append(target.host.as_str());
    out.append(":");
    push_decimal(&mut out, target.port as u64);
    assert(out@ =~= address_text(target@));
    out
}

/// The path of the bulk endpoint under a base path.
pub open spec fn bulk_path_text(base_path: Seq<char>) -> Seq<char> {
    base_path + "/_bulk"@
}

/// The path of the bulk endpoint of a target.
pub fn bulk_path(target: &HttpTarget) -> (r: String)
    ensures
        r@ == bulk_path_text(target@.base_path),
{
    let mut out = String::new();
    out.append(target.base_path.as_str());
    out.append("/_bulk");
    assert(out@ =~= bulk_path_text(target@.base_path));
    out
}

/// The path that the liveness probe asks for: the base path, or `/` where
/// the base path is empty.
pub open spec fn probe_path_text(base_path: Seq<char>) -> Seq<char> {
    if base_path.len() == 0 {
        "/"@
    } else {
        base_path
    }
}

/// The header line that carries a Basic token, or nothing where there is no
/// token.
pub open spec fn auth_line(token: Option<Seq<char>>) -> Seq<char> {
    match token {
        Some(t) => "Authorization: Basic "@ + t + "\r\n"@,
        None => Seq::empty(),
    }
}

/// The text of the liveness probe: a GET for the probe path over a
/// connection that is closed after the answer.
pub open spec fn probe_request_text(target: Target, token: Option<Seq<char>>) -> Seq<char> {
    "GET "@ + probe_path_text(target.base_path) + " HTTP/1.1\r\nHost: "@ + target.host
        + "\r\nConnection: close\r\n"@ + auth_line(token) + "\r\n"@
}

/// The text of a bulk upload: a POST to `path` that announces the body as
/// newline-delimited JSON with its length in bytes, then a blank line and
/// the body itself.
pub open spec fn bulk_request_text(
    target: Target,
    path: Seq<char>,
    body: Seq<char>,
    body_bytes: nat,
    token: Option<Seq<char>>,
) -> Seq<char> {
    "POST "@ + path + " HTTP/1.1\r\nHost: "@ + target.host
        + "\r\nContent-Type: application/x-ndjson\r\nConnection: close\r\nContent-Length: "@
        + decimal(body_bytes) + "\r\n"@ + auth_line(token) + "\r\n"@ + body
}

fn push_auth_line(out: &mut String, token: Option<&str>)
    ensures
        final(out)@ == old(out)@ + auth_line(token.deep_view()),
{
    match token {
        Some(t) => {
            out.append("Authorization: Basic ");
            out.append(t);
            out.append("\r\n");
            assert(out@ =~= old(out)@ + auth_line(token.deep_view()));
        },
        None => {
            assert(out@ =~= old(out)@ + auth_line(token.deep_view()));
        },
    }
}

/// Frames the liveness probe. `token` is the Basic token to send, if any.
pub fn probe_request(target: &HttpTarget, token: Option<&str>) -> (r: String)
    ensures
        r@ == probe_request_text(target@, token.deep_view()),
{
    let mut out = String::new();
    out.append("GET ");
    if target.base_path.as_str().is_empty() {
        out.append("/");
    } else {
        out.append(target.base_path.as_str());
    }
    out.append(" HTTP/1.1\r\nHost: ");
    out.append(target.host.as_str());
    out.append("\r\nConnection: close\r\n");
    push_auth_line(&mut out, token);
    out.append("\r\n");
    assert(out@ =~= probe_request_text(target@, token.deep_view()));
    out
}

/// Frames a bulk upload of `body` to `path`. `token` is the Basic token to
/// send, if any.
pub fn bulk_request(target: &HttpTarget, path: &str, body: &str, token: Option<&str>) -> (r:
    String)
    ensures
        r@ == bulk_request_text(
            target@,
            path@,
            body@,
            body.len() as nat,
            token.deep_view(),
        ),
{
    let mut out = String::new();
    out.append("POST ");
    out.append(path);
    out.append(" HTTP/1.1\r\nHost: ");
    out.append(target.host.as_str());
    out.append(
        "\r\nContent-Type: application/x-ndjson\r\nConnection: close\r\nContent-Length: ",
    );
    push_decimal(&mut out, body.len() as u64);
    out.append("\r\n");
    push_auth_line(&mut out, token);
    out.append("\r\n");
    out.append(body);
    assert(out@ =~= bulk_request_text(
        target@,
        path@,
        body@,
        body.len() as nat,
        token.deep_view(),
    ));
    out
}

/// The standard, padded base64 text of the UTF-8 bytes of `input`, as the
/// `base64` crate's `STANDARD` engine writes it.
pub uninterp spec fn base64_text(input: Seq<char>) -> Seq<char>;

/// The number of bytes that a text takes, as the machine counts it.
pub open spec fn byte_length(text: Seq<char>) -> usize {
    vstd::utf8::encode_utf8(text).len() as usize
}

/// Whether a text is short enough for the length of its base64 form to be a
/// number that the machine can hold.
pub open spec fn fits_base64(input: Seq<char>) -> bool {
    byte_length(input) / 3 * 4 + 4 <= usize::MAX
}

/// `Engine::encode` of the `base64` crate on its `STANDARD` engine: the
/// result is the base64 text of the bytes of `input`, a function of those
/// bytes alone. The engine gives up on an input whose encoded length
/// overflows, which the precondition leaves out.
#[verifier::external_body]
fn base64_encode(input: &str) -> (r: String)
    requires
        fits_base64(input@),
    ensures
        r@ == base64_text(input@),
{
    base64::Engine::encode(&base64::engine::general_purpose::STANDARD, input)
}

/// What is encoded for a user and a password: the two with a colon between.
pub open spec fn credentials_text(user: Seq<char>, password: Seq<char>) -> Seq<char> {
    user + ":"@ + password
}

/// The Basic token of a user and a password: the base64 text of the two
/// with a colon between, and nothing where that text is too long to encode.
pub fn basic_token(user: &str, password: &str) -> (r: Option<String>)
    ensures
        r.deep_view() == if fits_base64(credentials_text(user@, password@)) {
            Some(base64_text(credentials_text(user@, password@)))
        } else {
            None
        },
{
    let mut plain = String::new();
    plain.append(user);
    plain.append(":");
    plain.append(password);
    assert(plain@ =~= credentials_text(user@, password@));
    if plain.as_str().len() / 3 <= (usize::MAX - 4) / 4 {
        Some(base64_encode(plain.as_str()))
    } else {
        None
    }
}

/// Whether a response tells that the probe was answered well: it begins
/// with the status line of a 200.
pub open spec fn is_alive(response: Seq<char>) -> bool {
    "HTTP/1.1 200"@.is_prefix_of(response)
}

/// Reads the outcome of the liveness probe off the response.
pub fn ping_succeeded(response: &str) -> (r: bool)
    ensures
        r == is_alive(response@),
{
    let chars = chars_of(response);
    let status = chars_of("HTTP/1.1 200");
    starts_with(&chars, &status)
}

/// Whether a response to a bulk upload reports rejected documents: the
/// marker `"errors":true` stands somewhere in it.
pub open spec fn reports_errors(response: Seq<char>) -> bool {
    contains_text(response, "\"errors\":true"@)
}

/// Looks for the error marker in the response to a bulk upload.
pub fn has_bulk_errors(response: &str) -> (r: bool)
    ensures
        r == reports_errors(response@),
{
    let chars = chars_of(response);
    let marker = chars_of("\"errors\":true");
    contains(&chars, &marker)
}

} // verus!
