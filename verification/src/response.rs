//! The response preamble: status line and header block.
//!
//! The first line of a response carries the status code at a fixed byte
//! offset, as a deliberate simplification that assumes a version token of
//! the shape `HTTP/1.1`. Header lines are consumed but never inspected;
//! only the blank line that ends the header block matters, because the
//! body begins right after it.

use vstd::prelude::*;
use vstd::slice::{slice_subrange, slice_to_vec};

use crate::err::ClientError;
use crate::wire::{find_line, lemma_line_len, spec_line_len};

verus! {

/// Whether `b` is an ASCII decimal digit.
pub open spec fn is_digit(b: u8) -> bool {
    48 <= b <= 57
}

/// What the status line at the front of `input` says: the three-digit code
/// read at byte offset 9, and the position right after the line. The line
/// must be terminated, at least twelve bytes long before its terminator,
/// and carry digits at offsets 9 to 11; anything else is a protocol error.
pub open spec fn spec_read_status(input: Seq<u8>) -> Result<(int, int), ClientError> {
    match spec_line_len(input, 0) {
        None => Err(ClientError::Protocol),
        Some(k) => if k >= 12 && is_digit(input[9]) && is_digit(input[10]) && is_digit(input[11]) {
            Ok((100 * (input[9] - 48) + 10 * (input[10] - 48) + (input[11] - 48), k + 2))
        } else {
            Err(ClientError::Protocol)
        },
    }
}

/// Read and validate the status line, returning the status code and the
/// position of the first header byte.
pub fn read_status(input: &[u8]) -> (r: Result<(i32, usize), ClientError>)
    ensures
        (match r {
            Ok((status, next)) => spec_read_status(input@) == Ok::<_, ClientError>((
                status as int,
                next as int,
            )) && 0 <= status <= 999 && next <= input@.len(),
            Err(e) => spec_read_status(input@) == Err::<(int, int), _>(e),
        }),
{
    let k = match find_line(input, 0) {
        Some(k) => k,
        None => {
            return Err(ClientError::Protocol);
        },
    };
    proof {
        lemma_line_len(input@, 0);
    }
    if k < 12 {
        return Err(ClientError::Protocol);
    }
    let d0 = input[9];
    let d1 = input[10];
    let d2 = input[11];
    if d0 < 48 || d0 > 57 || d1 < 48 || d1 > 57 || d2 < 48 || d2 > 57 {
        return Err(ClientError::Protocol);
    }
    let status = 100 * (d0 - 48) as i32 + 10 * (d1 - 48) as i32 + (d2 - 48) as i32;
    Ok((status, k + 2))
}

/// Where the header block ends: the position right after the first empty
/// line at or behind `pos`. Headers are skipped, never read; a header
/// block that never ends is a protocol error.
pub open spec fn spec_skip_headers(input: Seq<u8>, pos: int) -> Result<int, ClientError>
    decreases input.len() - pos,
    when 0 <= pos
    via spec_skip_headers_dec
{
    match spec_line_len(input, pos) {
        None => Err(ClientError::Protocol),
        Some(k) => if k == 0 {
            Ok(pos + 2)
        } else {
            spec_skip_headers(input, pos + k + 2)
        },
    }
}

#[via_fn]
proof fn spec_skip_headers_dec(input: Seq<u8>, pos: int) {
    if 0 <= pos && pos <= input.len() {
        lemma_line_len(input, pos);
    }
}

/// Consume header lines until the blank line that ends the block, and
/// return the position of the first body byte.
pub fn skip_headers(input: &[u8], pos: usize) -> (r: Result<usize, ClientError>)
    requires
        pos <= input@.len(),
    ensures
        (match r {
            Ok(b) => spec_skip_headers(input@, pos as int) == Ok::<_, ClientError>(b as int) && b
                <= input@.len(),
            Err(e) => spec_skip_headers(input@, pos as int) == Err::<int, _>(e),
        }),
{
    let n = input.len();
    let mut p = pos;
    loop
        invariant
            pos <= p <= n,
            n == input@.len(),
            spec_skip_headers(input@, pos as int) == spec_skip_headers(input@, p as int),
        decreases n - p,
    {
        let k = match find_line(input, p) {
            Some(k) => k,
            None => {
                return Err(ClientError::Protocol);
            },
        };
        proof {
            lemma_line_len(input@, p as int);
        }
        if k == 0 {
            return Ok(p + 2);
        }
        p = p + k + 2;
    }
}

/// A parsed response: the status code from the status line, and the raw
/// message body, every byte after the header block. The body is handed
/// over as it came off the wire; whether it is a buffered JSON document or
/// a chunked stream is the caller's affair.
pub struct Response {
    /// The three-digit status code.
    pub status: i32,
    /// The bytes after the blank line that ended the headers.
    pub body: Vec<u8>,
}

/// What parsing a whole preamble yields: the status code and the position
/// where the body starts.
pub open spec fn spec_parse_response(input: Seq<u8>) -> Result<(int, int), ClientError> {
    match spec_read_status(input) {
        Err(e) => Err(e),
        Ok((status, p)) => match spec_skip_headers(input, p) {
            Err(e) => Err(e),
            Ok(b) => Ok((status, b)),
        },
    }
}

/// Parse the preamble of a complete response: validate the status line,
/// skip the headers, and hand back the status together with the body
/// bytes.
pub fn parse_response(input: &[u8]) -> (r: Result<Response, ClientError>)
    ensures
        (match r {
            Ok(resp) => spec_parse_response(input@) == Ok::<_, ClientError>((
                resp.status as int,
                input@.len() - resp.body@.len(),
            )) && resp.body@ == input@.skip(input@.len() - resp.body@.len()),
            Err(e) => spec_parse_response(input@) == Err::<(int, int), _>(e),
        }),
{
    let (status, p) = match read_status(input) {
        Ok(v) => v,
        Err(e) => {
            return Err(e);
        },
    };
    let b = match skip_headers(input, p) {
        Ok(v) => v,
        Err(e) => {
            return Err(e);
        },
    };
    let body = slice_to_vec(slice_subrange(input, b, input.len()));
    Ok(Response { status, body })
}

} // verus!
