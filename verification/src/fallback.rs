//! The HTTP masquerade response.
//!
//! When framing fails during the handshake window the server may answer
//! like a plain web server and close, so that probes see nothing
//! unusual. The response is assembled here from the body bytes; reading
//! a body from a file is the embedding program's concern.

use vstd::prelude::*;
use vstd::string::StringSliceAdditionalSpecFns;
use crate::util::dec_digits;
use crate::util::push_all;
use crate::util::push_decimal;

verus! {

/// A complete HTTP response carrying `body`: status 200, HTML content
/// type, the body's exact length, `Connection: close`, and a generic
/// server banner.
pub open spec fn http_ok_response(body: Seq<u8>) -> Seq<u8> {
    "HTTP/1.1 200 OK\r\nContent-Type: text/html; charset=utf-8\r\nContent-Length: ".spec_bytes()
        + dec_digits(body.len()) + "\r\nConnection: close\r\nServer: nginx\r\n\r\n".spec_bytes()
        + body
}

/// Assemble the masquerade response around `body`.
pub fn build_fallback_response(body: &[u8]) -> (r: Vec<u8>)
    ensures
        r@ == http_ok_response(body@),
{
    let mut r: Vec<u8> = Vec::new();
    push_all(
        &mut r,
        "HTTP/1.1 200 OK\r\nContent-Type: text/html; charset=utf-8\r\nContent-Length: ".as_bytes(),
    );
    push_decimal(&mut r, body.len() as u64);
    push_all(&mut r, "\r\nConnection: close\r\nServer: nginx\r\n\r\n".as_bytes());
    push_all(&mut r, body);
    proof {
        assert(r@ =~= http_ok_response(body@));
    }
    r
}

/// The body used when no response file is configured.
pub fn default_fallback_body() -> (r: Vec<u8>)
    ensures
        r@ == ("<!DOCTYPE html>\n<html><head><title>Welcome</title></head>\n<body><h1>It works!</h1><p>The server is running.</p></body></html>").spec_bytes(),
{
    let mut r: Vec<u8> = Vec::new();
    push_all(
        &mut r,
        "<!DOCTYPE html>\n<html><head><title>Welcome</title></head>\n<body><h1>It works!</h1><p>The server is running.</p></body></html>".as_bytes(),
    );
    proof {
        assert(r@ =~= (
        "<!DOCTYPE html>\n<html><head><title>Welcome</title></head>\n<body><h1>It works!</h1><p>The server is running.</p></body></html>").spec_bytes());
    }
    r
}

} // verus!
