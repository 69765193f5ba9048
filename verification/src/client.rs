//! The client proper: the daemon handle and the two operations it offers.
//!
//! A `Docker` value holds where the daemon listens and under which host
//! name it is addressed. Each operation is one request/response exchange on
//! a fresh connection; this module builds the exact bytes to send and
//! interprets the exact bytes received, while the surrounding program owns
//! the socket and the JSON decoding.

use vstd::prelude::*;
use vstd::string::StringSliceAdditionalSpecFns;
use vstd::utf8::{encode_utf8, is_char_boundary};

use crate::chunk::{decode_chunked, spec_decode_from};
use crate::err::ClientError;
use crate::request::{spec_request_head, write_request};
use crate::response::{parse_response, spec_parse_response};

verus! {

/// A handle on the daemon: the path of its local socket, and the host
/// name written into every request.
pub struct Docker {
    /// The filesystem path of the daemon's stream socket.
    pub socket: String,
    /// The value of the `Host` header.
    pub host_name: String,
}

/// One image record as the daemon lists it. The client never inspects
/// these fields; they are filled from the decoded JSON payload by the
/// caller of the byte-level operations.
#[derive(Debug)]
pub struct Image {
    /// The image identifier.
    pub id: String,
    /// Creation time, seconds since the epoch.
    pub created: i32,
    /// How many containers use the image.
    pub containers: i32,
    /// The `repo:tag` names of the image, when it has any.
    pub repo_tags: Option<Vec<String>>,
    /// Size in bytes.
    pub size: i32,
}

/// The fixed bytes before the image name in a pull request's path:
/// `"/images/create?fromImage="`.
pub open spec fn spec_pull_path_prefix() -> Seq<u8> {
    seq![
        47u8, 105, 109, 97, 103, 101, 115, 47, 99, 114, 101, 97, 116, 101, 63, 102, 114, 111,
        109, 73, 109, 97, 103, 101, 61,
    ]
}

/// The request path that pulls the image named `repo`.
pub open spec fn spec_pull_path(repo: Seq<u8>) -> Seq<u8> {
    spec_pull_path_prefix() + repo
}

impl Docker {
    /// Make a handle from a `unix://`-prefixed address: the socket path is
    /// everything after the seven-byte scheme prefix, and requests address
    /// the daemon as `localhost`. Never fails; an address too short to
    /// carry the prefix, or cut inside a character, is left out by the
    /// precondition, as slicing it would not name a socket.
    pub fn connect_with_unix(addr: &str) -> (r: Result<Docker, ClientError>)
        requires
            is_char_boundary(addr.spec_bytes(), 7),
        ensures
            (r matches Ok(d) && encode_utf8(d.socket@) == addr.spec_bytes().skip(7) && d.host_name@
                == "localhost"@),
    {
        let (_, rest) = addr.split_at(7);
        let socket = rest.to_owned();
        let host_name = "localhost".to_owned();
        assert(addr.spec_bytes().subrange(7, addr.spec_bytes().len() as int) =~= addr.spec_bytes()
            .skip(7));
        Ok(Docker { socket, host_name })
    }

    /// The exact bytes of the head of a request for `method` and `path`
    /// against this handle: request line, `Connection: close`, the `Host`
    /// header, and the blank line. These bytes, and nothing else, are what
    /// one exchange sends.
    pub fn request_head(&self, method: &[u8], path: &[u8]) -> (r: Vec<u8>)
        ensures
            r@ == spec_request_head(method@, path@, encode_utf8(self.host_name@)),
    {
        write_request(method, path, self.host_name.as_str().as_bytes())
    }
}

/// The request path that pulls the image named `repo_name`.
pub fn pull_path(repo_name: &[u8]) -> (r: Vec<u8>)
    ensures
        r@ == spec_pull_path(repo_name@),
{
    let mut out: Vec<u8> = Vec::new();
    out.push(47);
    out.push(105);
    out.push(109);
    out.push(97);
    out.push(103);
    out.push(101);
    out.push(115);
    out.push(47);
    out.push(99);
    out.push(114);
    out.push(101);
    out.push(97);
    out.push(116);
    out.push(101);
    out.push(63);
    out.push(102);
    out.push(114);
    out.push(111);
    out.push(109);
    out.push(73);
    out.push(109);
    out.push(97);
    out.push(103);
    out.push(101);
    out.push(61);
    out.extend_from_slice(repo_name);
    assert(out@ =~= spec_pull_path(repo_name@));
    out
}

/// Interpret the response to a list request: demand status 200 and hand
/// back the whole body, the buffered JSON document, for the caller to
/// decode. Any other status is an error carrying the observed code, and
/// the body is not touched.
pub fn images_body(response: &[u8]) -> (r: Result<Vec<u8>, ClientError>)
    ensures
        (match spec_parse_response(response@) {
            Err(e) => r matches Err(e2) && e2 == e,
            Ok((status, b)) => if status == 200 {
                r matches Ok(body) && body@ == response@.skip(b)
            } else {
                r matches Err(e2) && e2 == ClientError::HttpStatus(status as i32)
            },
        }),
{
    match parse_response(response) {
        Err(e) => Err(e),
        Ok(resp) => {
            if resp.status != 200 {
                return Err(ClientError::HttpStatus(resp.status));
            }
            Ok(resp.body)
        },
    }
}

/// Interpret the response to a pull request: demand status 200, then
/// decode the body as a chunked stream and hand back its segments, each
/// one decoded progress-event payload, in order. The caller decides what
/// the payload bytes mean.
pub fn pull_segments(response: &[u8]) -> (r: Result<Vec<Vec<u8>>, ClientError>)
    ensures
        (match spec_parse_response(response@) {
            Err(e) => r matches Err(e2) && e2 == e,
            Ok((status, b)) => if status == 200 {
                match spec_decode_from(response@.skip(b), 0) {
                    Ok((segs, end)) => r matches Ok(v) && v.deep_view() == segs,
                    Err(e) => r matches Err(e2) && e2 == e,
                }
            } else {
                r matches Err(e2) && e2 == ClientError::HttpStatus(status as i32)
            },
        }),
{
    match parse_response(response) {
        Err(e) => Err(e),
        Ok(resp) => {
            if resp.status != 200 {
                return Err(ClientError::HttpStatus(resp.status));
            }
            match decode_chunked(resp.body.as_slice()) {
                Err(e) => Err(e),
                Ok((segs, _)) => Ok(segs),
            }
        },
    }
}

} // verus!
