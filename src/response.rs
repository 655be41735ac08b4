//! Responses and their serialization to wire text.
use vstd::prelude::*;
use vstd::utf8::encode_utf8;
use crate::text::{decimal, push_decimal};

verus! {

pub struct Response {
    pub status: u16,
    pub body: String,
}

/// The reason phrase sent after `status`; empty for codes without one here.
pub open spec fn reason_phrase(status: u16) -> Seq<char> {
    if status == 100 {
        "Continue"@
    } else if status == 101 {
        "Switching Protocols"@
    } else if status == 200 {
        "OK"@
    } else if status == 201 {
        "Created"@
    } else if status == 202 {
        "Accepted"@
    } else if status == 204 {
        "No Content"@
    } else if status == 301 {
        "Moved Permanently"@
    } else if status == 302 {
        "Found"@
    } else if status == 304 {
        "Not Modified"@
    } else if status == 400 {
        "Bad Request"@
    } else if status == 401 {
        "Unauthorized"@
    } else if status == 403 {
        "Forbidden"@
    } else if status == 404 {
        "Not Found"@
    } else if status == 405 {
        "Method Not Allowed"@
    } else if status == 408 {
        "Request Timeout"@
    } else if status == 409 {
        "Conflict"@
    } else if status == 413 {
        "Payload Too Large"@
    } else if status == 500 {
        "Internal Server Error"@
    } else if status == 501 {
        "Not Implemented"@
    } else if status == 502 {
        "Bad Gateway"@
    } else if status == 503 {
        "Service Unavailable"@
    } else {
        ""@
    }
}

/// The number of bytes of the UTF-8 encoding of `body`.
pub open spec fn content_length(body: Seq<char>) -> nat {
    encode_utf8(body).len()
}

/// The full response text for `status` and `body`.
pub open spec fn http_message(status: u16, body: Seq<char>) -> Seq<char> {
    "HTTP/1.1 "@ + decimal(status as nat) + " "@ + reason_phrase(status) + "\r\nContent-Length: "@
        + decimal(content_length(body)) + "\r\nContent-Type: text/plain\r\n\r\n"@ + body
}

/// The reason phrase for `status`.
pub fn reason(status: u16) -> (r: &'static str)
    ensures
        r@ == reason_phrase(status),
{
    if status == 100 {
        "Continue"
    } else if status == 101 {
        "Switching Protocols"
    } else if status == 200 {
        "OK"
    } else if status == 201 {
        "Created"
    } else if status == 202 {
        "Accepted"
    } else if status == 204 {
        "No Content"
    } else if status == 301 {
        "Moved Permanently"
    } else if status == 302 {
        "Found"
    } else if status == 304 {
        "Not Modified"
    } else if status == 400 {
        "Bad Request"
    } else if status == 401 {
        "Unauthorized"
    } else if status == 403 {
        "Forbidden"
    } else if status == 404 {
        "Not Found"
    } else if status == 405 {
        "Method Not Allowed"
    } else if status == 408 {
        "Request Timeout"
    } else if status == 409 {
        "Conflict"
    } else if status == 413 {
        "Payload Too Large"
    } else if status == 500 {
        "Internal Server Error"
    } else if status == 501 {
        "Not Implemented"
    } else if status == 502 {
        "Bad Gateway"
    } else if status == 503 {
        "Service Unavailable"
    } else {
        ""
    }
}

impl Response {
    /// A 200 response with `body`.
    pub fn text(body: &String) -> (r: Self)
        ensures
            r.status == 200,
            r.body@ == body@,
    {
        Response { status: 200, body: body.clone() }
    }

    /// This response with its status replaced by `status`.
    pub fn with_status(self, status: u16) -> (r: Self)
        ensures
            r.status == status,
            r.body@ == self.body@,
    {
        let mut r = self;
        r.status = status;
        r
    }

    /// The response as HTTP/1.1 wire text; `Content-Length` is the byte
    /// length of the body.
    pub fn to_http(&self) -> (r: String)
        ensures
            r@ == http_message(self.status, self.body@),
    {
        let mut out = String::from_str("HTTP/1.1 ");
        push_decimal(&mut out, self.status as u64);
        out.append(" ");
        out.append(reason(self.status));
        out.append("\r\nContent-Length: ");
        let n = self.body.as_str().as_bytes().len();
        push_decimal(&mut out, n as u64);
        out.append("\r\nContent-Type: text/plain\r\n\r\n");
        out.append(self.body.as_str());
        out
    }
}

} // verus!
