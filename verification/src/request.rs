//! Request serialization.
//!
//! A request is a request line and two fixed headers, no body, ever:
//! `Connection: close` because a connection serves exactly one exchange,
//! and `Host` because HTTP/1.1 demands it. The method and path come from
//! the caller and are written as given: this client talks to a local,
//! trusted daemon and does not escape or validate them.

use vstd::prelude::*;

verus! {

/// The fixed bytes between the path and the host name:
/// `" HTTP/1.1\r\nConnection: close\r\nHost: "`.
pub open spec fn spec_head_mid() -> Seq<u8> {
    seq![32u8, 72, 84, 84, 80, 47, 49, 46, 49, 13, 10, 67, 111, 110, 110, 101, 99, 116, 105,
        111, 110, 58, 32, 99, 108, 111, 115, 101, 13, 10, 72, 111, 115, 116, 58, 32]
}

/// The serialized head of a request: method and path on the request line,
/// the two fixed headers, and the blank line that ends the head. Exactly
/// these bytes go over the wire; no request body ever follows.
pub open spec fn spec_request_head(method: Seq<u8>, path: Seq<u8>, host: Seq<u8>) -> Seq<u8> {
    method + seq![32u8] + path + spec_head_mid() + host + seq![13u8, 10, 13, 10]
}

/// Append the fixed middle part of the request head.
fn push_head_mid(out: &mut Vec<u8>)
    ensures
        final(out)@ == old(out)@ + spec_head_mid(),
{
    out.push(32);
    out.push(72);
    out.push(84);
    out.push(84);
    out.push(80);
    out.push(47);
    out.push(49);
    out.push(46);
    out.push(49);
    out.push(13);
    out.push(10);
    out.push(67);
    out.push(111);
    out.push(110);
    out.push(110);
    out.push(101);
    out.push(99);
    out.push(116);
    out.push(105);
    out.push(111);
    out.push(110);
    out.push(58);
    out.push(32);
    out.push(99);
    out.push(108);
    out.push(111);
    out.push(115);
    out.push(101);
    out.push(13);
    out.push(10);
    out.push(72);
    out.push(111);
    out.push(115);
    out.push(116);
    out.push(58);
    out.push(32);
    assert(out@ =~= old(out)@ + spec_head_mid());
}

/// Serialize the head of a request onto a fresh buffer.
pub fn write_request(method: &[u8], path: &[u8], host: &[u8]) -> (r: Vec<u8>)
    ensures
        r@ == spec_request_head(method@, path@, host@),
{
    let mut out: Vec<u8> = Vec::new();
    out.extend_from_slice(method);
    out.push(32);
    out.extend_from_slice(path);
    push_head_mid(&mut out);
    out.extend_from_slice(host);
    out.push(13);
    out.push(10);
    out.push(13);
    out.push(10);
    assert(out@ =~= spec_request_head(method@, path@, host@));
    out
}

} // verus!
