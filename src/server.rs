//! Server-level rules: pool sizing and the work done for one connection,
//! from the bytes read to the response text to write back.
use vstd::prelude::*;
use vstd::utf8::{valid_utf8, decode_utf8, encode_utf8, encode_utf8_decode_utf8};
use crate::request::{Request, parses_to};
use crate::response::{Response, http_message};
use crate::router::Router;

verus! {

/// The most bytes read from a connection for one request; a longer request
/// is cut at this length.
pub const TCP_BUFFER_SIZE: usize = 1024;

pub enum ServerError {
    PoolCreationError(String),
    ThreadCreationError(String),
    ReadTCPStreamError(String),
}

pub open spec fn empty_pool_message() -> Seq<char> {
    "The size of thread pool must be greater than 0."@
}

pub open spec fn invalid_utf8_message() -> Seq<char> {
    "Invalid UTF-8 sequence"@
}

/// The number of workers to start for a requested pool size: a pool of no
/// workers is refused.
pub fn check_pool_size(size: usize) -> (r: Result<usize, ServerError>)
    ensures
        size == 0 ==> (r matches Err(ServerError::PoolCreationError(msg)) && msg@ == empty_pool_message()),
        size > 0 ==> (r matches Ok(n) && n == size),
{
    if size == 0 {
        Err(ServerError::PoolCreationError(String::from_str("The size of thread pool must be greater than 0.")))
    } else {
        Ok(size)
    }
}

/// Relies on `std::str::from_utf8`: it succeeds exactly on valid UTF-8,
/// and the text it returns is made of the given bytes.
#[verifier::external_body]
fn utf8_text(bytes: &[u8]) -> (r: Option<&str>)
    ensures
        r is Some <==> valid_utf8(bytes@),
        r matches Some(s) ==> encode_utf8(s@) == bytes@,
{
    std::str::from_utf8(bytes).ok()
}

/// The response text for one request read from a connection: the bytes are
/// decoded as UTF-8, framed as a request, routed, and the response
/// serialized. Bytes that are not UTF-8 are a read error.
pub fn handle_request<H: Fn(Request) -> Response>(router: &Router<H>, raw: &[u8]) -> (r: Result<String, ServerError>)
    requires
        forall|h: H, q: Request| call_requires(h, (q,)),
    ensures
        r is Ok <==> valid_utf8(raw@),
        r matches Err(e) ==> (e matches ServerError::ReadTCPStreamError(msg) && msg@ == invalid_utf8_message()),
        r matches Ok(text) ==> (exists|req: Request, resp: Response|
            parses_to(decode_utf8(raw@), req) && router.routed(req, resp) && text@ == http_message(
                resp.status,
                resp.body@,
            )),
{
    match utf8_text(raw) {
        Some(s) => {
            proof {
                encode_utf8_decode_utf8(s@);
            }
            let req = Request::from_string(s.to_owned());
            let ghost parsed = req;
            let resp = router.route(req);
            let text = resp.to_http();
            assert(parses_to(decode_utf8(raw@), parsed) && router.routed(parsed, resp));
            Ok(text)
        },
        None => Err(ServerError::ReadTCPStreamError(String::from_str("Invalid UTF-8 sequence"))),
    }
}

} // verus!
