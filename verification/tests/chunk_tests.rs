use docker_client::chunk::{decode_chunked, encode_chunked, next_segment};
use docker_client::err::ClientError;
use docker_client::hex::parse_hex_line;

#[test]
fn decode_single_chunk() {
    let input = b"5\r\nhello\r\n0\r\n\r\n";
    let (segs, end) = decode_chunked(input).unwrap();
    assert_eq!(segs, vec![b"hello".to_vec()]);
    assert_eq!(end, input.len() - 2);
}

#[test]
fn decode_multiple_chunks_in_order() {
    let input = b"5\r\nhello\r\n6\r\n world\r\n2\r\n!!\r\n0\r\n\r\n";
    let (segs, end) = decode_chunked(input).unwrap();
    assert_eq!(
        segs,
        vec![b"hello".to_vec(), b" world".to_vec(), b"!!".to_vec()]
    );
    assert_eq!(end, input.len() - 2);
}

#[test]
fn decode_zero_chunk_first_is_empty_not_error() {
    let (segs, end) = decode_chunked(b"0\r\n\r\n").unwrap();
    assert!(segs.is_empty());
    assert_eq!(end, 3);
    let (segs, end) = decode_chunked(b"0\r\n").unwrap();
    assert!(segs.is_empty());
    assert_eq!(end, 3);
}

#[test]
fn decode_tolerates_stray_blank_lines() {
    let input = b"\r\n5\r\nhello\r\n\r\n3\r\nabc\r\n0\r\n";
    let (segs, _) = decode_chunked(input).unwrap();
    assert_eq!(segs, vec![b"hello".to_vec(), b"abc".to_vec()]);
}

#[test]
fn decode_bad_hex_size_line_is_protocol_error() {
    assert_eq!(
        decode_chunked(b"zz\r\nhello\r\n0\r\n\r\n"),
        Err(ClientError::Protocol)
    );
    assert_eq!(decode_chunked(b"5x\r\nhello"), Err(ClientError::Protocol));
}

#[test]
fn decode_missing_terminator_is_protocol_error() {
    // No \r\n anywhere: there is no size line to read.
    assert_eq!(decode_chunked(b"5"), Err(ClientError::Protocol));
    assert_eq!(decode_chunked(b""), Err(ClientError::Protocol));
    // The payload is followed by junk instead of its \r\n terminator.
    assert_eq!(
        decode_chunked(b"5\r\nhelloxx0\r\n\r\n"),
        Err(ClientError::Protocol)
    );
}

#[test]
fn decode_size_past_end_is_truncated_body() {
    assert_eq!(decode_chunked(b"5\r\nabc"), Err(ClientError::Truncated));
    // Payload complete but its terminator cut off.
    assert_eq!(decode_chunked(b"5\r\nhello"), Err(ClientError::Truncated));
    assert_eq!(
        decode_chunked(b"ff\r\nshort\r\n0\r\n\r\n"),
        Err(ClientError::Truncated)
    );
}

#[test]
fn decode_huge_size_is_protocol_error() {
    // Seventeen hexadecimal digits cannot fit a 64-bit usize.
    assert_eq!(
        decode_chunked(b"fffffffffffffffff\r\nhello"),
        Err(ClientError::Protocol)
    );
}

#[test]
fn decode_accepts_upper_and_lower_case_sizes() {
    let input = b"A\r\n0123456789\r\na\r\nabcdefghij\r\n0\r\n\r\n";
    let (segs, _) = decode_chunked(input).unwrap();
    assert_eq!(segs, vec![b"0123456789".to_vec(), b"abcdefghij".to_vec()]);
}

#[test]
fn next_segment_steps_through_the_stream() {
    let input = b"5\r\nhello\r\n0\r\n\r\n";
    let (seg, pos) = next_segment(input, 0).unwrap();
    assert_eq!(seg, Some(b"hello".to_vec()));
    assert_eq!(pos, 10);
    let (seg, pos) = next_segment(input, pos).unwrap();
    assert_eq!(seg, None);
    assert_eq!(pos, 13);
}

#[test]
fn parse_hex_line_reads_both_cases() {
    assert_eq!(parse_hex_line(b"0"), Some(0));
    assert_eq!(parse_hex_line(b"ff"), Some(255));
    assert_eq!(parse_hex_line(b"FF"), Some(255));
    assert_eq!(parse_hex_line(b"1a2B"), Some(0x1a2b));
    assert_eq!(parse_hex_line(b"0010"), Some(16));
    assert_eq!(parse_hex_line(b""), None);
    assert_eq!(parse_hex_line(b"+5"), None);
    assert_eq!(parse_hex_line(b"5 "), None);
    assert_eq!(parse_hex_line(b"fffffffffffffffff"), None);
}

#[test]
fn encode_single_segment_exact_bytes() {
    let encoded = encode_chunked(&vec![b"hello".to_vec()]);
    assert_eq!(encoded, b"5\r\nhello\r\n0\r\n\r\n".to_vec());
}

#[test]
fn encode_empty_sequence_is_bare_terminator() {
    assert_eq!(encode_chunked(&Vec::new()), b"0\r\n\r\n".to_vec());
}

#[test]
fn round_trip_random_segments() {
    // A small fixed-seed generator; no randomness crate is needed.
    let mut state: u64 = 0x243f_6a88_85a3_08d3;
    let mut next = move || {
        state = state.wrapping_mul(6364136223846793005).wrapping_add(1442695040888963407);
        (state >> 33) as u32
    };
    let mut segments: Vec<Vec<u8>> = Vec::new();
    for _ in 0..32 {
        let len = 1 + (next() as usize) % 4096;
        let mut seg = Vec::with_capacity(len);
        for _ in 0..len {
            seg.push(next() as u8);
        }
        segments.push(seg);
    }
    let encoded = encode_chunked(&segments);
    let (decoded, end) = decode_chunked(&encoded).unwrap();
    assert_eq!(decoded, segments);
    assert_eq!(end, encoded.len() - 2);
}
