//! Hexadecimal chunk-size lines.
//!
//! A chunk of the transfer encoding announces its payload length as an
//! unsigned hexadecimal number on a line of its own. This module defines
//! what such a line denotes and gives a verified parser and printer for it.

use vstd::prelude::*;

verus! {

/// Whether `b` is an ASCII hexadecimal digit, either case.
pub open spec fn is_hex_digit(b: u8) -> bool {
    (48 <= b <= 57) || (97 <= b <= 102) || (65 <= b <= 70)
}

/// The numeric value of a hexadecimal digit.
pub open spec fn hex_digit_value(b: u8) -> nat {
    if 48 <= b <= 57 {
        (b - 48) as nat
    } else if 97 <= b <= 102 {
        (b - 87) as nat
    } else {
        (b - 55) as nat
    }
}

/// A valid chunk-size line: nonempty and made of hexadecimal digits only.
pub open spec fn is_hex_line(line: Seq<u8>) -> bool {
    line.len() > 0 && (forall|i: int| 0 <= i < line.len() ==> is_hex_digit(#[trigger] line[i]))
}

/// The number a sequence of hexadecimal digits denotes, most significant
/// digit first.
pub open spec fn hex_value(line: Seq<u8>) -> nat
    decreases line.len(),
{
    if line.len() == 0 {
        0
    } else {
        hex_value(line.drop_last()) * 16 + hex_digit_value(line.last())
    }
}

/// Reading more digits never makes the number smaller: the value of a
/// prefix is a lower bound for the value of the whole line.
pub proof fn lemma_hex_value_prefix(line: Seq<u8>, i: int)
    requires
        0 <= i <= line.len(),
    ensures
        hex_value(line.take(i)) <= hex_value(line),
    decreases line.len() - i,
{
    if i < line.len() {
        lemma_hex_value_prefix(line, i + 1);
        assert(line.take(i + 1).drop_last() =~= line.take(i));
        assert(hex_value(line.take(i + 1)) == hex_value(line.take(i)) * 16 + hex_digit_value(
            line.take(i + 1).last(),
        ));
    } else {
        assert(line.take(i) =~= line);
    }
}

/// The digit value of a hexadecimal byte, or `None` for any other byte.
pub fn hex_digit(b: u8) -> (r: Option<u8>)
    ensures
        (match r {
            Some(v) => is_hex_digit(b) && v as nat == hex_digit_value(b),
            None => !is_hex_digit(b),
        }),
{
    if 48 <= b && b <= 57 {
        Some(b - 48)
    } else if 97 <= b && b <= 102 {
        Some(b - 87)
    } else if 65 <= b && b <= 70 {
        Some(b - 55)
    } else {
        None
    }
}

/// Parse a chunk-size line. `None` means the line is not a hexadecimal
/// number at all, or denotes one too large for `usize`.
pub fn parse_hex_line(line: &[u8]) -> (r: Option<usize>)
    ensures
        (match r {
            Some(v) => is_hex_line(line@) && v as nat == hex_value(line@),
            None => !is_hex_line(line@) || hex_value(line@) > usize::MAX,
        }),
{
    if line.len() == 0 {
        return None;
    }
    let mut val: usize = 0;
    let mut i: usize = 0;
    while i < line.len()
        invariant
            0 <= i <= line@.len(),
            val as nat == hex_value(line@.take(i as int)),
            forall|j: int| 0 <= j < i ==> is_hex_digit(#[trigger] line@[j]),
        decreases line@.len() - i,
    {
        let d = match hex_digit(line[i]) {
            Some(d) => d,
            None => {
                return None;
            },
        };
        if val > (usize::MAX - d as usize) / 16 {
            proof {
                assert(line@.take(i + 1).drop_last() =~= line@.take(i as int));
                assert(hex_value(line@.take(i + 1)) == (val as nat) * 16 + d as nat);
                lemma_hex_value_prefix(line@, i + 1);
            }
            return None;
        }
        proof {
            assert(line@.take(i + 1).drop_last() =~= line@.take(i as int));
        }
        val = val * 16 + d as usize;
        i = i + 1;
    }
    proof {
        assert(line@.take(i as int) =~= line@);
    }
    Some(val)
}

/// The digit byte the printer emits for a value below 16: lower case, as
/// common encoders write it.
pub open spec fn spec_hex_digit(n: nat) -> u8 {
    if n < 10 {
        (48 + n) as u8
    } else {
        (87 + n) as u8
    }
}

/// The hexadecimal spelling of `n`, most significant digit first, with no
/// leading zeros (a single `0` for zero itself).
pub open spec fn spec_hex_rep(n: nat) -> Seq<u8>
    decreases n,
{
    if n < 16 {
        seq![spec_hex_digit(n)]
    } else {
        spec_hex_rep(n / 16).push(spec_hex_digit(n % 16))
    }
}

/// The printer and the parser agree: a printed number is a valid size
/// line, reads back as itself, and never contains a carriage return or a
/// line feed.
pub proof fn lemma_hex_rep_props(n: nat)
    ensures
        is_hex_line(spec_hex_rep(n)),
        hex_value(spec_hex_rep(n)) == n,
        spec_hex_rep(n).len() >= 1,
        forall|i: int|
            0 <= i < spec_hex_rep(n).len() ==> (#[trigger] spec_hex_rep(n)[i]) != 13
                && spec_hex_rep(n)[i] != 10,
    decreases n,
{
    if n < 16 {
        assert(spec_hex_rep(n).drop_last() =~= Seq::<u8>::empty());
        assert(spec_hex_rep(n).last() == spec_hex_digit(n));
        assert(hex_value(spec_hex_rep(n)) == hex_value(Seq::<u8>::empty()) * 16 + hex_digit_value(
            spec_hex_digit(n),
        ));
        assert(hex_digit_value(spec_hex_digit(n)) == n);
    } else {
        lemma_hex_rep_props(n / 16);
        assert(spec_hex_rep(n).drop_last() =~= spec_hex_rep(n / 16));
        assert((n / 16) * 16 + n % 16 == n) by (nonlinear_arith);
        assert(hex_value(spec_hex_rep(n)) == (n / 16) * 16 + n % 16);
    }
}

/// Append the hexadecimal spelling of `n` to `out`.
pub fn push_hex(out: &mut Vec<u8>, n: usize)
    ensures
        final(out)@ == old(out)@ + spec_hex_rep(n as nat),
    decreases n,
{
    if n < 16 {
        let d = n as u8;
        if d < 10 {
            out.push(48 + d);
        } else {
            out.push(87 + d);
        }
        assert(out@ =~= old(out)@ + spec_hex_rep(n as nat));
    } else {
        push_hex(out, n / 16);
        let d = (n % 16) as u8;
        if d < 10 {
            out.push(48 + d);
        } else {
            out.push(87 + d);
        }
        assert(out@ =~= old(out)@ + spec_hex_rep(n as nat));
    }
}

} // verus!
