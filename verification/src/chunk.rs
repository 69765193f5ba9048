//! Chunked transfer encoding.
//!
//! A chunked body is a run of chunks, each a hexadecimal size line followed
//! by that many payload bytes and a `\r\n` terminator; a chunk of size zero
//! ends the body. Decoding is a single pass that peels chunks off the front
//! of the byte stream; stray blank lines between chunks are tolerated, as
//! some encoders emit them. Trailers are not supported: decoding stops right
//! after the zero-size line.

use vstd::prelude::*;
use vstd::slice::{slice_subrange, slice_to_vec};

use crate::err::ClientError;
use crate::hex::{
    hex_value, is_hex_line, lemma_hex_rep_props, parse_hex_line, push_hex, spec_hex_rep,
};
use crate::wire::{find_line, lemma_line_len, lemma_line_len_exact, spec_line_len, CR, LF};

verus! {

/// One step of decoding from `pos`: skip any blank lines, then read one
/// size line. `Ok((Some(data), next))` is a chunk with payload `data`,
/// `next` standing right after its `\r\n` terminator. `Ok((None, next))` is
/// the zero-size chunk that ends the body, `next` standing right after its
/// line. A missing line terminator, a size line that is not hexadecimal or
/// does not fit `usize`, and a corrupt chunk terminator are protocol
/// errors; a stream that ends inside the chunk is a truncation.
pub open spec fn spec_next_segment(input: Seq<u8>, pos: int) -> Result<
    (Option<Seq<u8>>, int),
    ClientError,
>
    decreases input.len() - pos,
    when 0 <= pos
    via spec_next_segment_dec
{
    match spec_line_len(input, pos) {
        None => Err(ClientError::Protocol),
        Some(k) => {
            let line = input.subrange(pos, pos + k);
            let after = pos + k + 2;
            if k == 0 {
                spec_next_segment(input, after)
            } else if !is_hex_line(line) || hex_value(line) > usize::MAX {
                Err(ClientError::Protocol)
            } else if hex_value(line) == 0 {
                Ok((None, after))
            } else {
                let size = hex_value(line) as int;
                if after + size + 2 > input.len() {
                    Err(ClientError::Truncated)
                } else if !(input[after + size] == CR && input[after + size + 1] == LF) {
                    Err(ClientError::Protocol)
                } else {
                    Ok((Some(input.subrange(after, after + size)), after + size + 2))
                }
            }
        },
    }
}

#[via_fn]
proof fn spec_next_segment_dec(input: Seq<u8>, pos: int) {
    if 0 <= pos && pos <= input.len() {
        lemma_line_len(input, pos);
    }
}

/// A successful step always moves forward and stays inside the input.
pub proof fn lemma_next_segment_bounds(input: Seq<u8>, pos: int)
    requires
        0 <= pos <= input.len(),
    ensures
        (match spec_next_segment(input, pos) {
            Ok((seg, next)) => pos < next <= input.len(),
            Err(_) => true,
        }),
    decreases input.len() - pos,
{
    lemma_line_len(input, pos);
    match spec_line_len(input, pos) {
        None => {},
        Some(k) => {
            if k == 0 {
                lemma_next_segment_bounds(input, pos + 2);
            }
        },
    }
}

/// The whole decoding of a chunked body from `pos`: the payloads of its
/// chunks in order, and the position right after the zero-size line that
/// ended it. An error anywhere loses the whole decoding: no segments are
/// delivered with it.
pub open spec fn spec_decode_from(input: Seq<u8>, pos: int) -> Result<
    (Seq<Seq<u8>>, int),
    ClientError,
>
    decreases input.len() - pos,
    when 0 <= pos
    via spec_decode_from_dec
{
    match spec_next_segment(input, pos) {
        Err(e) => Err(e),
        Ok((None, end)) => Ok((Seq::empty(), end)),
        Ok((Some(data), next)) => match spec_decode_from(input, next) {
            Err(e) => Err(e),
            Ok((segs, end)) => Ok((seq![data] + segs, end)),
        },
    }
}

#[via_fn]
proof fn spec_decode_from_dec(input: Seq<u8>, pos: int) {
    if 0 <= pos && pos <= input.len() {
        lemma_next_segment_bounds(input, pos);
    }
}

/// The decoded view of one exec decoding step.
pub open spec fn next_segment_view(r: Result<(Option<Vec<u8>>, usize), ClientError>) -> Result<
    (Option<Seq<u8>>, int),
    ClientError,
> {
    match r {
        Ok((Some(v), n)) => Ok((Some(v@), n as int)),
        Ok((None, n)) => Ok((None, n as int)),
        Err(e) => Err(e),
    }
}

/// The decoded view of a whole exec decoding.
pub open spec fn decode_view(r: Result<(Vec<Vec<u8>>, usize), ClientError>) -> Result<
    (Seq<Seq<u8>>, int),
    ClientError,
> {
    match r {
        Ok((segs, n)) => Ok((segs.deep_view(), n as int)),
        Err(e) => Err(e),
    }
}

/// Pull the next chunk payload off the stream at `pos`, or learn that the
/// body ended there. One step of the lazy segment sequence a caller
/// consumes.
pub fn next_segment(input: &[u8], pos: usize) -> (r: Result<(Option<Vec<u8>>, usize), ClientError>)
    requires
        pos <= input@.len(),
    ensures
        next_segment_view(r) == spec_next_segment(input@, pos as int),
{
    let n = input.len();
    let mut p = pos;
    loop
        invariant
            pos <= p <= n,
            n == input@.len(),
            spec_next_segment(input@, pos as int) == spec_next_segment(input@, p as int),
        decreases n - p,
    {
        let k = match find_line(input, p) {
            Some(k) => k,
            None => {
                return Err(ClientError::Protocol);
            },
        };
        proof {
            lemma_line_len(input@, p as int);
        }
        if k == 0 {
            p = p + 2;
            continue;
        }
        let line = slice_subrange(input, p, p + k);
        let after = p + k + 2;
        let size = match parse_hex_line(line) {
            Some(v) => v,
            None => {
                return Err(ClientError::Protocol);
            },
        };
        if size == 0 {
            return Ok((None, after));
        }
        let rem = n - after;
        if rem < size || rem - size < 2 {
            return Err(ClientError::Truncated);
        }
        if !(input[after + size] == CR && input[after + size + 1] == LF) {
            return Err(ClientError::Protocol);
        }
        let data = slice_to_vec(slice_subrange(input, after, after + size));
        return Ok((Some(data), after + size + 2));
    }
}

/// Decode a whole chunked body starting at the front of `input`: all chunk
/// payloads in order, and the position right after the zero-size line. The
/// rest of the input is outside the message and is left untouched.
pub fn decode_chunked(input: &[u8]) -> (r: Result<(Vec<Vec<u8>>, usize), ClientError>)
    ensures
        decode_view(r) == spec_decode_from(input@, 0),
{
    let mut segs: Vec<Vec<u8>> = Vec::new();
    let mut p: usize = 0;
    assert(segs.deep_view() =~= Seq::<Seq<u8>>::empty());
    loop
        invariant
            p <= input@.len(),
            (match spec_decode_from(input@, p as int) {
                Ok((rest, end)) => spec_decode_from(input@, 0) == Ok::<_, ClientError>((
                    segs.deep_view() + rest,
                    end,
                )),
                Err(e) => spec_decode_from(input@, 0) == Err::<(Seq<Seq<u8>>, int), _>(e),
            }),
        decreases input@.len() - p,
    {
        let ghost segs0 = segs.deep_view();
        match next_segment(input, p) {
            Err(e) => {
                return Err(e);
            },
            Ok((None, end)) => {
                proof {
                    assert(segs.deep_view() + Seq::<Seq<u8>>::empty() =~= segs.deep_view());
                }
                return Ok((segs, end));
            },
            Ok((Some(data), next)) => {
                proof {
                    lemma_next_segment_bounds(input@, p as int);
                }
                let ghost d = data@;
                segs.push(data);
                proof {
                    assert(segs.deep_view() =~~= segs0 + seq![d]);
                    match spec_decode_from(input@, next as int) {
                        Ok((rest2, end2)) => {
                            assert(segs0 + (seq![d] + rest2) =~= (segs0 + seq![d]) + rest2);
                        },
                        Err(_) => {},
                    }
                }
                p = next;
            },
        }
    }
}

/// A zero-size chunk at the very first line ends the body at once: the
/// decoding is an empty sequence of segments, not an error, and stops
/// right after that line.
pub proof fn lemma_zero_chunk_first(input: Seq<u8>, k: int)
    requires
        0 < k,
        spec_line_len(input, 0) == Some(k),
        is_hex_line(input.subrange(0, k)),
        hex_value(input.subrange(0, k)) == 0,
    ensures
        spec_decode_from(input, 0) == Ok::<_, ClientError>((Seq::<Seq<u8>>::empty(), k + 2)),
{
    assert(spec_next_segment(input, 0) == Ok::<_, ClientError>((None::<Seq<u8>>, k + 2)));
}

/// A size line that is not valid hexadecimal, or does not fit `usize`,
/// loses the whole decoding to a protocol error: no segments come with an
/// error, so none follow it.
pub proof fn lemma_bad_size_line(input: Seq<u8>, pos: int, k: int)
    requires
        0 <= pos,
        0 < k,
        spec_line_len(input, pos) == Some(k),
        !is_hex_line(input.subrange(pos, pos + k)) || hex_value(input.subrange(pos, pos + k))
            > usize::MAX,
    ensures
        spec_decode_from(input, pos) == Err::<(Seq<Seq<u8>>, int), ClientError>(
            ClientError::Protocol,
        ),
{
}

/// A declared chunk size larger than what the stream still holds is a
/// truncated body.
pub proof fn lemma_truncated_chunk(input: Seq<u8>, pos: int, k: int)
    requires
        0 <= pos,
        0 < k,
        spec_line_len(input, pos) == Some(k),
        is_hex_line(input.subrange(pos, pos + k)),
        0 < hex_value(input.subrange(pos, pos + k)) <= usize::MAX,
        pos + k + 2 + hex_value(input.subrange(pos, pos + k)) + 2 > input.len(),
    ensures
        spec_decode_from(input, pos) == Err::<(Seq<Seq<u8>>, int), ClientError>(
            ClientError::Truncated,
        ),
{
}

/// The wire form of one chunk: the payload length in hexadecimal on a line
/// of its own, then the payload, then the chunk terminator.
pub open spec fn spec_encode_chunk(data: Seq<u8>) -> Seq<u8> {
    spec_hex_rep(data.len()) + seq![CR, LF] + data + seq![CR, LF]
}

/// The frames of all segments in order, without the zero-size chunk.
pub open spec fn spec_frames(segs: Seq<Seq<u8>>) -> Seq<u8>
    decreases segs.len(),
{
    if segs.len() == 0 {
        Seq::empty()
    } else {
        spec_encode_chunk(segs[0]) + spec_frames(segs.skip(1))
    }
}

/// The wire form of a whole chunked body: every segment framed in order,
/// then the zero-size chunk and the blank line that ends the (absent)
/// trailer section.
pub open spec fn spec_encode_chunked(segs: Seq<Seq<u8>>) -> Seq<u8> {
    spec_frames(segs) + seq![48u8, CR, LF, CR, LF]
}

/// Framing one more segment at the back extends the frames at the back.
pub proof fn lemma_frames_snoc(segs: Seq<Seq<u8>>, data: Seq<u8>)
    ensures
        spec_frames(segs.push(data)) == spec_frames(segs) + spec_encode_chunk(data),
    decreases segs.len(),
{
    if segs.len() == 0 {
        assert(segs.push(data).skip(1) =~= Seq::<Seq<u8>>::empty());
        assert(segs.push(data)[0] == data);
        assert(spec_frames(Seq::<Seq<u8>>::empty()) == Seq::<u8>::empty());
        assert(spec_frames(segs.push(data)) == spec_encode_chunk(data) + Seq::<u8>::empty());
        assert(spec_frames(segs.push(data)) =~= spec_frames(segs) + spec_encode_chunk(data));
    } else {
        lemma_frames_snoc(segs.skip(1), data);
        assert(segs.push(data).skip(1) =~= segs.skip(1).push(data));
        assert(segs.push(data)[0] == segs[0]);
        assert(spec_frames(segs.push(data)) == spec_encode_chunk(segs[0]) + (spec_frames(
            segs.skip(1),
        ) + spec_encode_chunk(data)));
        assert(spec_encode_chunk(segs[0]) + (spec_frames(segs.skip(1)) + spec_encode_chunk(data))
            =~= (spec_encode_chunk(segs[0]) + spec_frames(segs.skip(1))) + spec_encode_chunk(data));
    }
}

/// Encode segments as a complete chunked body, zero-size chunk included.
pub fn encode_chunked(segments: &Vec<Vec<u8>>) -> (r: Vec<u8>)
    ensures
        r@ == spec_encode_chunked(segments.deep_view()),
{
    let mut out: Vec<u8> = Vec::new();
    let n = segments.len();
    let mut i: usize = 0;
    assert(segments.deep_view().take(0) =~= Seq::<Seq<u8>>::empty());
    while i < n
        invariant
            i <= n,
            n == segments@.len(),
            out@ == spec_frames(segments.deep_view().take(i as int)),
        decreases n - i,
    {
        let ghost done = segments.deep_view().take(i as int);
        let seg = &segments[i];
        proof {
            assert(segments.deep_view()[i as int] =~= seg@);
        }
        push_hex(&mut out, seg.len());
        out.push(CR);
        out.push(LF);
        out.extend_from_slice(seg.as_slice());
        out.push(CR);
        out.push(LF);
        proof {
            assert(segments.deep_view().take(i as int).push(segments.deep_view()[i as int])
                =~= segments.deep_view().take(i + 1));
            lemma_frames_snoc(done, segments.deep_view()[i as int]);
            assert(out@ =~= spec_frames(done) + spec_encode_chunk(segments.deep_view()[i as int]));
        }
        i = i + 1;
    }
    assert(segments.deep_view().take(n as int) =~= segments.deep_view());
    out.push(48);
    out.push(CR);
    out.push(LF);
    out.push(CR);
    out.push(LF);
    assert(out@ =~= spec_encode_chunked(segments.deep_view()));
    out
}

/// The byte stream of chunk frames whose size lines are `lines` and whose
/// payloads are `segs`, one line per payload, in order: each frame is a
/// size line, the payload it announces, and the terminator pair after
/// each.
pub open spec fn spec_frames_with(lines: Seq<Seq<u8>>, segs: Seq<Seq<u8>>) -> Seq<u8>
    decreases segs.len(),
{
    if segs.len() == 0 || lines.len() != segs.len() {
        Seq::empty()
    } else {
        lines[0] + seq![CR, LF] + segs[0] + seq![CR, LF] + spec_frames_with(
            lines.skip(1),
            segs.skip(1),
        )
    }
}

/// Whether `lines` are valid size lines for the payloads `segs`: one line
/// per payload, each a hexadecimal spelling — upper case, lower case,
/// leading zeros — of its payload's length, every payload nonempty and no
/// larger than `usize` can say.
pub open spec fn spec_valid_size_lines(lines: Seq<Seq<u8>>, segs: Seq<Seq<u8>>) -> bool
    decreases segs.len(),
{
    lines.len() == segs.len() && (segs.len() == 0 || (is_hex_line(lines[0]) && hex_value(lines[0])
        == segs[0].len() && 0 < segs[0].len() <= usize::MAX && spec_valid_size_lines(
        lines.skip(1),
        segs.skip(1),
    )))
}

/// Decoding any valid chunked body finds exactly its payloads. The body
/// may spell each size as any hexadecimal line that denotes the payload's
/// length, and may end with any spelling of zero; whatever follows the
/// zero-size line (`extra`) is outside the message and decoding stops
/// right at it.
pub proof fn lemma_decode_valid_body(
    lines: Seq<Seq<u8>>,
    segs: Seq<Seq<u8>>,
    zline: Seq<u8>,
    extra: Seq<u8>,
    input: Seq<u8>,
    pos: int,
)
    requires
        spec_valid_size_lines(lines, segs),
        is_hex_line(zline),
        hex_value(zline) == 0,
        0 <= pos <= input.len(),
        input.subrange(pos, input.len() as int) == spec_frames_with(lines, segs) + zline + seq![
            CR,
            LF,
        ] + extra,
    ensures
        spec_decode_from(input, pos) == Ok::<_, ClientError>((segs, input.len() - extra.len())),
    decreases segs.len(),
{
    let tail = input.subrange(pos, input.len() as int);
    let whole = spec_frames_with(lines, segs) + zline + seq![CR, LF] + extra;
    assert(input.len() == pos + whole.len());
    assert(forall|j: int| 0 <= j < whole.len() ==> #[trigger] input[pos + j] == whole[j]) by {
        assert(forall|j: int|
            0 <= j < whole.len() ==> #[trigger] input[pos + j] == tail[j] && tail[j] == whole[j]);
    }
    if segs.len() == 0 {
        let zlen = zline.len() as int;
        assert(spec_frames_with(lines, segs) == Seq::<u8>::empty());
        let flat = zline + seq![CR, LF] + extra;
        assert(whole =~= flat);
        assert(forall|j: int| 0 <= j < zlen ==> #[trigger] input[pos + j] == zline[j]) by {
            assert(forall|j: int| 0 <= j < zlen ==> #[trigger] flat[j] == zline[j]);
        }
        assert(forall|j: int| pos <= j < pos + zlen ==> #[trigger] input[j] != CR) by {
            assert(forall|j: int|
                pos <= j < pos + zlen ==> #[trigger] input[j] == input[pos + (j - pos)]);
        }
        assert(input[pos + zlen] == flat[zlen] && input[pos + zlen + 1] == flat[zlen + 1]);
        lemma_line_len_exact(input, pos, zlen);
        assert(input.subrange(pos, pos + zlen) =~= zline);
        assert(spec_next_segment(input, pos) == Ok::<_, ClientError>((
            None::<Seq<u8>>,
            pos + zlen + 2,
        )));
        assert(Seq::<Seq<u8>>::empty() =~= segs);
    } else {
        let l0 = lines[0];
        let s0 = segs[0];
        let hlen = l0.len() as int;
        let size = s0.len() as int;
        let rest_frames = spec_frames_with(lines.skip(1), segs.skip(1));
        let rest_whole = rest_frames + zline + seq![CR, LF] + extra;
        let flat = l0 + seq![CR, LF] + s0 + seq![CR, LF] + rest_whole;
        assert(whole =~= flat) by {
            assert(spec_frames_with(lines, segs) == l0 + seq![CR, LF] + s0 + seq![CR, LF]
                + rest_frames);
        }
        let after = pos + hlen + 2;
        let next = after + size + 2;
        assert(forall|j: int| 0 <= j < hlen ==> #[trigger] input[pos + j] == l0[j]) by {
            assert(forall|j: int| 0 <= j < hlen ==> #[trigger] flat[j] == l0[j]);
        }
        assert(forall|j: int| pos <= j < pos + hlen ==> #[trigger] input[j] != CR) by {
            assert(forall|j: int|
                pos <= j < pos + hlen ==> #[trigger] input[j] == input[pos + (j - pos)]);
        }
        assert(input[pos + hlen] == flat[hlen] && input[pos + hlen + 1] == flat[hlen + 1]);
        lemma_line_len_exact(input, pos, hlen);
        assert(input.subrange(pos, pos + hlen) =~= l0);
        assert(next + 2 <= input.len());
        let data = input.subrange(after, after + size);
        assert(data =~= s0) by {
            assert(forall|j: int| 0 <= j < size ==> #[trigger] flat[hlen + 2 + j] == s0[j]);
            assert(forall|j: int|
                0 <= j < size ==> #[trigger] data[j] == input[pos + (hlen + 2 + j)]);
        }
        assert(input[after + size] == flat[hlen + 2 + size] && input[after + size + 1] == flat[hlen
            + 2 + size + 1]);
        assert(spec_next_segment(input, pos) == Ok::<_, ClientError>((Some(s0), next)));
        assert(input.subrange(next, input.len() as int) =~= rest_whole) by {
            assert(forall|j: int|
                0 <= j < rest_whole.len() ==> #[trigger] flat[hlen + 2 + size + 2 + j]
                    == rest_whole[j]);
            assert(forall|j: int|
                0 <= j < rest_whole.len() ==> #[trigger] input.subrange(
                    next,
                    input.len() as int,
                )[j] == input[pos + (hlen + 2 + size + 2 + j)]);
        }
        lemma_decode_valid_body(lines.skip(1), segs.skip(1), zline, extra, input, next);
        assert(seq![s0] + segs.skip(1) =~= segs);
    }
}

/// The size lines the encoder writes: one canonical hexadecimal spelling
/// of each payload's length.
pub open spec fn spec_size_lines(segs: Seq<Seq<u8>>) -> Seq<Seq<u8>> {
    Seq::new(segs.len(), |i: int| spec_hex_rep(segs[i].len()))
}

/// The encoder's frames are the frames of its own size lines, and those
/// lines are valid for the payloads they announce.
proof fn lemma_canonical_frames(segs: Seq<Seq<u8>>)
    requires
        forall|i: int| 0 <= i < segs.len() ==> 0 < (#[trigger] segs[i]).len() <= usize::MAX,
    ensures
        spec_valid_size_lines(spec_size_lines(segs), segs),
        spec_frames_with(spec_size_lines(segs), segs) == spec_frames(segs),
    decreases segs.len(),
{
    let lines = spec_size_lines(segs);
    if segs.len() == 0 {
        assert(spec_frames_with(lines, segs) == spec_frames(segs));
    } else {
        lemma_hex_rep_props(segs[0].len());
        assert(forall|i: int|
            0 <= i < segs.skip(1).len() ==> 0 < (#[trigger] segs.skip(1)[i]).len() <= usize::MAX);
        lemma_canonical_frames(segs.skip(1));
        assert(lines.skip(1) =~= spec_size_lines(segs.skip(1)));
        assert(lines[0] == spec_hex_rep(segs[0].len()));
        assert(spec_frames_with(lines, segs) == lines[0] + seq![CR, LF] + segs[0] + seq![CR, LF]
            + spec_frames_with(spec_size_lines(segs.skip(1)), segs.skip(1)));
        assert(lines[0] + seq![CR, LF] + segs[0] + seq![CR, LF] + spec_frames(segs.skip(1))
            =~= spec_encode_chunk(segs[0]) + spec_frames(segs.skip(1)));
    }
}

/// The framing round-trip law: any sequence of nonempty segments, framed
/// as a chunked body, decodes back to exactly those segments, in order,
/// with nothing added and nothing missing, and decoding consumes the whole
/// body up to the blank line after the zero-size chunk. A segment of
/// length zero cannot make the trip: its frame would begin with a zero
/// size line, which is the end-of-body mark.
pub proof fn lemma_chunked_round_trip(segs: Seq<Seq<u8>>)
    requires
        forall|i: int| 0 <= i < segs.len() ==> 0 < (#[trigger] segs[i]).len() <= usize::MAX,
    ensures
        spec_decode_from(spec_encode_chunked(segs), 0) == Ok::<_, ClientError>((
            segs,
            spec_encode_chunked(segs).len() - 2,
        )),
{
    let enc = spec_encode_chunked(segs);
    let zline = seq![48u8];
    lemma_canonical_frames(segs);
    assert(is_hex_line(zline));
    assert(zline.drop_last() =~= Seq::<u8>::empty());
    assert(hex_value(Seq::<u8>::empty()) == 0);
    assert(hex_value(zline) == 0);
    assert(enc.subrange(0, enc.len() as int) =~= spec_frames_with(spec_size_lines(segs), segs)
        + zline + seq![CR, LF] + seq![CR, LF]);
    lemma_decode_valid_body(
        spec_size_lines(segs),
        segs,
        zline,
        seq![CR, LF],
        enc,
        0,
    );
}

} // verus!
