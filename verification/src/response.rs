//! A file offered for download: the status, the headers and the body of
//! the answer.

use vstd::prelude::*;
use vstd::utf8::encode_utf8;
use crate::entity::Info;
use crate::file::FileInfo;
use crate::path::file_name_of;
use crate::request::{Reply, ReplyView, Request, RequestView};

verus! {

/// An answer to a request for a file: a status code, headers as pairs of
/// name and value, and a body.
#[derive(Debug)]
pub struct Response {
    pub status: u16,
    pub headers: Vec<(String, String)>,
    pub body: Vec<u8>,
}

/// The mathematical value of a [`Response`].
pub struct ResponseView {
    pub status: u16,
    pub headers: Seq<(Seq<char>, Seq<char>)>,
    pub body: Seq<u8>,
}

/// The values of a list of headers.
pub open spec fn headers_of(v: Seq<(String, String)>) -> Seq<(Seq<char>, Seq<char>)> {
    Seq::new(v.len(), |i: int| (v[i].0@, v[i].1@))
}

impl View for Response {
    type V = ResponseView;

    open spec fn view(&self) -> ResponseView {
        ResponseView { status: self.status, headers: headers_of(self.headers@), body: self.body@ }
    }
}

/// The bytes that go into a form as they are: `*`, `-`, `.`, `_`, digits
/// and letters.
pub open spec fn unchanged(b: u8) -> bool {
    b == 0x2A || b == 0x2D || b == 0x2E || b == 0x5F || (0x30 <= b <= 0x39) || (0x41 <= b
        <= 0x5A) || (0x61 <= b <= 0x7A)
}

/// The digit that stands for `n` in base 16, with capital letters.
pub open spec fn hex_digit(n: u8) -> char {
    if n < 10 {
        (0x30 + n) as char
    } else {
        (0x41 + n - 10) as char
    }
}

/// One byte as it stands in a form: itself, `+` for a space, or `%` and the
/// two digits of its number in base 16.
pub open spec fn encoded_byte(b: u8) -> Seq<char> {
    if unchanged(b) {
        seq![b as char]
    } else if b == 0x20 {
        seq!['+']
    } else {
        seq!['%', hex_digit(b / 16), hex_digit(b % 16)]
    }
}

/// Bytes as they stand in a form, one after the other.
pub open spec fn form_encoded(bytes: Seq<u8>) -> Seq<char>
    decreases bytes.len(),
{
    if bytes.len() == 0 {
        Seq::empty()
    } else {
        encoded_byte(bytes[0]) + form_encoded(bytes.skip(1))
    }
}

/// Calls `url::form_urlencoded::byte_serialize` and collects the pieces
/// that it hands out. The contract says what the crate documents as the
/// byte serializer of the form encoding: `*`, `-`, `.`, `_`, digits and
/// letters stand for themselves, a space becomes `+`, and every other byte
/// becomes `%` and its two digits in base 16, in capitals.
#[verifier::external_body]
fn byte_serialize(input: &[u8]) -> (r: String)
    ensures
        r@ == form_encoded(input@),
{
    url::form_urlencoded::byte_serialize(input).collect()
}

/// The value of the header that offers a download under `file_name`.
pub open spec fn disposition_of(file_name: Seq<char>) -> Seq<char> {
    "attachment; filename="@ + form_encoded(encode_utf8(file_name))
}

/// The answer that offers `content` for download under `file_name`: with
/// the bytes of the file, status 200, the content type (plain text where
/// none is given), the header that names the download, and the header that
/// lets scripts read that one; with a failure, status 500 and its message.
pub open spec fn response_of(
    content: ReplyView,
    file_name: Seq<char>,
    content_type: Option<Seq<char>>,
) -> ResponseView {
    match content.bytes() {
        Ok(body) => ResponseView {
            status: 200,
            headers: seq![
                (
                    "content-type"@,
                    match content_type {
                        Some(t) => t,
                        None => "text/plain"@,
                    },
                ),
                ("content-disposition"@, disposition_of(file_name)),
                ("access-control-expose-headers"@, "content-disposition"@),
            ],
            body,
        },
        Err(e) => ResponseView { status: 500, headers: Seq::empty(), body: encode_utf8(e.message) },
    }
}

/// The value of the header that offers a download under `file_name`: the
/// name goes through the form encoding.
pub fn content_disposition(file_name: &str) -> (r: String)
    ensures
        r@ == disposition_of(file_name@),
{
    let encoded = byte_serialize(file_name.as_bytes());
    let mut r = String::from_str("attachment; filename=");
    r.append(encoded.as_str());
    r
}

/// The answer that offers a file for download under `file_name`. `content`
/// is the reply to the request for the bytes of the file, and
/// `content_type` what is known of their type.
pub fn response(content: Reply, file_name: &str, content_type: Option<&str>) -> (r: Response)
    ensures
        r@ == response_of(
            content@,
            file_name@,
            match content_type {
                Some(t) => Some(t@),
                None => None,
            },
        ),
{
    match content.bytes() {
        Ok(body) => {
            let kind = match content_type {
                Some(t) => String::from_str(t),
                None => String::from_str("text/plain"),
            };
            let mut headers: Vec<(String, String)> = Vec::new();
            headers.push((String::from_str("content-type"), kind));
            headers.push((String::from_str("content-disposition"), content_disposition(file_name)));
            headers.push(
                (
                    String::from_str("access-control-expose-headers"),
                    String::from_str("content-disposition"),
                ),
            );
            let r = Response { status: 200, headers, body };
            assert(r@.headers =~= response_of(
                content@,
                file_name@,
                match content_type {
                    Some(t) => Some(t@),
                    None => None,
                },
            ).headers);
            r
        },
        Err(e) => {
            let r = Response {
                status: 500,
                headers: Vec::new(),
                body: e.to_string().as_str().as_bytes_vec(),
            };
            assert(r@.headers =~= Seq::empty());
            r
        },
    }
}

/// The name under which a file is offered when none is given: its own, or
/// `unknown_name` where its path names no entry.
pub open spec fn display_name(p: Seq<Seq<char>>) -> Seq<char> {
    match file_name_of(p) {
        Some(name) => name,
        None => "unknown_name"@,
    }
}

impl FileInfo {
    /// The request for the bytes of the file.
    pub fn read(&self) -> (ask: Request)
        ensures
            ask@ == RequestView::ReadFile(self@),
    {
        Request::ReadFile(self.as_path().clone())
    }

    /// The answer that offers the file for download under `name`; `content`
    /// is the reply to [`read`](FileInfo::read).
    pub fn response_with_name(&self, name: &str, content_type: Option<&str>, content: Reply) -> (r:
        Response)
        ensures
            r@ == response_of(
                content@,
                name@,
                match content_type {
                    Some(t) => Some(t@),
                    None => None,
                },
            ),
    {
        response(content, name, content_type)
    }

    /// The answer that offers the file for download under its own name;
    /// `content` is the reply to [`read`](FileInfo::read).
    pub fn response(&self, content_type: Option<&str>, content: Reply) -> (r: Response)
        ensures
            r@ == response_of(
                content@,
                display_name(self@),
                match content_type {
                    Some(t) => Some(t@),
                    None => None,
                },
            ),
    {
        match self.as_path().file_name_text() {
            Some(name) => response(content, name.as_str(), content_type),
            None => response(content, "unknown_name", content_type),
        }
    }
}

} // verus!
