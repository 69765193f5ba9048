//! Line framing over raw bytes.
//!
//! Every element of the HTTP/1.1 preamble and of chunked transfer encoding
//! is a line terminated by the two bytes `\r\n`. This module defines what
//! "the line starting at a position" means and gives a verified scanner
//! for it.

use vstd::prelude::*;

verus! {

/// The byte `\r`.
pub const CR: u8 = 13;

/// The byte `\n`.
pub const LF: u8 = 10;

/// Length of the line starting at `pos`: the distance to the first `\r\n`
/// pair at or after `pos`, or `None` when no such pair exists in `input`.
/// The line's content is `input.subrange(pos, pos + k)` and the terminator
/// occupies the two bytes after it.
pub open spec fn spec_line_len(input: Seq<u8>, pos: int) -> Option<int>
    decreases input.len() - pos,
{
    if pos < 0 || pos + 2 > input.len() {
        None
    } else if input[pos] == CR && input[pos + 1] == LF {
        Some(0)
    } else {
        match spec_line_len(input, pos + 1) {
            Some(k) => Some(k + 1),
            None => None,
        }
    }
}

/// What a found or missing line terminator means for the bytes themselves:
/// `Some(k)` places a `\r\n` pair exactly at `pos + k` and nowhere earlier,
/// and `None` means no pair starts anywhere at or after `pos`.
pub proof fn lemma_line_len(input: Seq<u8>, pos: int)
    requires
        0 <= pos <= input.len(),
    ensures
        (match spec_line_len(input, pos) {
            Some(k) => 0 <= k && pos + k + 2 <= input.len() && input[pos + k] == CR && input[pos
                + k + 1] == LF && (forall|j: int|
                pos <= j < pos + k ==> !((#[trigger] input[j]) == CR && input[j + 1] == LF)),
            None => forall|j: int|
                pos <= j && j + 2 <= input.len() ==> !((#[trigger] input[j]) == CR && input[j + 1]
                    == LF),
        }),
    decreases input.len() - pos,
{
    if pos + 2 > input.len() {
    } else if input[pos] == CR && input[pos + 1] == LF {
    } else {
        lemma_line_len(input, pos + 1);
    }
}

/// The converse direction: a `\r\n` pair at `pos + k` with no earlier pair
/// pins the line length down to exactly `k`.
pub proof fn lemma_line_len_exact(input: Seq<u8>, pos: int, k: int)
    requires
        0 <= pos,
        0 <= k,
        pos + k + 2 <= input.len(),
        input[pos + k] == CR,
        input[pos + k + 1] == LF,
        forall|j: int| pos <= j < pos + k ==> input[j] != CR,
    ensures
        spec_line_len(input, pos) == Some(k),
    decreases k,
{
    if k > 0 {
        lemma_line_len_exact(input, pos + 1, k - 1);
    }
}

/// Scan for the `\r\n` that ends the line starting at `pos`, returning the
/// line's length.
pub fn find_line(input: &[u8], pos: usize) -> (r: Option<usize>)
    requires
        pos <= input@.len(),
    ensures
        (match r {
            Some(k) => spec_line_len(input@, pos as int) == Some(k as int),
            None => spec_line_len(input@, pos as int) is None,
        }),
{
    let n = input.len();
    let mut i = pos;
    loop
        invariant
            pos <= i <= n,
            n == input@.len(),
            spec_line_len(input@, pos as int) == (match spec_line_len(input@, i as int) {
                Some(k) => Some(k + i - pos),
                None => None::<int>,
            }),
        decreases n - i,
    {
        if n - i < 2 {
            return None;
        }
        if input[i] == CR && input[i + 1] == LF {
            return Some(i - pos);
        }
        i = i + 1;
    }
}

} // verus!
