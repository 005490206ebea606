//! Splitting a text into lines. A line ends at a `\n` byte; one `\r` just
//! before that `\n` belongs to the terminator; the text after the last `\n`
//! is a line of its own when it is not empty, and keeps a `\r` it ends in.
//! Lines are slices of the text, never copies.

use vstd::prelude::*;
use vstd::string::StringSliceAdditionalSpecFns;
use vstd::utf8::*;

verus! {

/// The position of the first `\n` byte at or after `i`, or the length of the
/// bytes when there is none.
pub open spec fn next_newline(b: Seq<u8>, i: int) -> int
    decreases b.len() - i,
{
    if i >= b.len() {
        b.len() as int
    } else if b[i] == 10u8 {
        i
    } else {
        next_newline(b, i + 1)
    }
}

/// A line ended by `\n`, without the carriage return just before that `\n`,
/// if there is one.
pub open spec fn strip_cr(line: Seq<u8>) -> Seq<u8> {
    if line.len() > 0 && line.last() == 13u8 {
        line.drop_last()
    } else {
        line
    }
}

/// The lines of the bytes that start at position `i`.
pub open spec fn lines_from(b: Seq<u8>, i: int) -> Seq<Seq<u8>>
    decreases b.len() + 1 - i,
    via lines_from_decreases
{
    if i >= b.len() {
        Seq::empty()
    } else {
        let k = next_newline(b, i);
        let line = if k < b.len() {
            strip_cr(b.subrange(i, k))
        } else {
            b.subrange(i, k)
        };
        seq![line] + lines_from(b, k + 1)
    }
}

#[via_fn]
proof fn lines_from_decreases(b: Seq<u8>, i: int) {
    if i < b.len() {
        lemma_next_newline(b, i);
    }
}

/// The lines of a text, given as its UTF-8 bytes.
pub open spec fn lines_of(b: Seq<u8>) -> Seq<Seq<u8>> {
    lines_from(b, 0)
}

/// `next_newline` finds a `\n` at or after `i`, or the end.
pub proof fn lemma_next_newline(b: Seq<u8>, i: int)
    requires
        i <= b.len(),
    ensures
        i <= next_newline(b, i) <= b.len(),
        next_newline(b, i) < b.len() ==> b[next_newline(b, i)] == 10u8,
    decreases b.len() - i,
{
    if i < b.len() && b[i] != 10u8 {
        lemma_next_newline(b, i + 1);
    }
}

/// A `\n` byte of a text is a character boundary, and so is the byte after it.
proof fn lemma_newline_boundaries(b: Seq<u8>, k: int)
    requires
        valid_utf8(b),
        0 <= k < b.len(),
        b[k] == 10u8,
    ensures
        is_char_boundary(b, k),
        valid_utf8(b.subrange(k, b.len() as int)),
        is_char_boundary(b.subrange(k, b.len() as int), 1),
{
    is_char_boundary_iff_not_is_continuation_byte(b, k);
    valid_utf8_split(b, k);
    let tail = b.subrange(k, b.len() as int);
    if tail.len() == 1 {
        is_char_boundary_start_end_of_seq(tail);
    } else {
        reveal_with_fuel(is_char_boundary, 2);
        reveal_with_fuel(valid_utf8, 2);
        assert(length_of_first_scalar(tail) == 1);
    }
}

/// Splits a text into its lines, each a slice of the text.
pub fn split_lines<'a>(content: &'a str) -> (r: Vec<&'a str>)
    ensures
        r@.len() == lines_of(content.spec_bytes()).len(),
        forall|j: int| 0 <= j < r@.len() ==> (#[trigger] r@[j]).spec_bytes() == lines_of(content.spec_bytes())[j],
{
    let bytes = content.as_bytes();
    let n = bytes.len();
    let ghost b = content.spec_bytes();
    proof {
        encode_utf8_valid_utf8(content@);
    }
    let mut rest: &str = content;
    let mut pos: usize = 0;
    let mut out: Vec<&'a str> = Vec::new();
    let ghost mut done: Seq<Seq<u8>> = Seq::empty();
    proof {
        assert(b.subrange(0, n as int) =~= b);
        assert(done + lines_from(b, 0) =~= lines_from(b, 0));
    }
    while pos < n
        invariant
            bytes@ == b,
            n == b.len(),
            valid_utf8(b),
            pos <= n,
            rest.spec_bytes() == b.subrange(pos as int, n as int),
            done + lines_from(b, pos as int) == lines_from(b, 0),
            out@.len() == done.len(),
            forall|j: int| 0 <= j < out@.len() ==> (#[trigger] out@[j]).spec_bytes() == done[j],
        decreases n - pos,
    {
        let mut k: usize = pos;
        while k < n && bytes[k] != 10u8
            invariant
                pos <= k <= n,
                bytes@ == b,
                n == b.len(),
                next_newline(b, pos as int) == next_newline(b, k as int),
            decreases n - k,
        {
            k = k + 1;
        }
        let ghost rb = rest.spec_bytes();
        proof {
            encode_utf8_valid_utf8(rest@);
            if k < n {
                assert(rb[k - pos] == b[k as int]);
                is_char_boundary_iff_not_is_continuation_byte(rb, k - pos);
            } else {
                is_char_boundary_start_end_of_seq(rb);
            }
        }
        let (line, tail) = rest.split_at(k - pos);
        proof {
            assert(line.spec_bytes() =~= b.subrange(pos as int, k as int));
            assert(tail.spec_bytes() =~= b.subrange(k as int, n as int));
        }
        let line_len = line.len();
        let piece: &'a str = if k < n && line_len > 0 && line.as_bytes()[line_len - 1] == 13u8 {
            proof {
                encode_utf8_valid_utf8(line@);
                is_char_boundary_iff_not_is_continuation_byte(line.spec_bytes(), line_len - 1);
            }
            let (front, _cr) = line.split_at(line_len - 1);
            proof {
                assert(front.spec_bytes() =~= line.spec_bytes().drop_last());
            }
            front
        } else {
            line
        };
        let ghost this_line = if k < n {
            strip_cr(b.subrange(pos as int, k as int))
        } else {
            b.subrange(pos as int, k as int)
        };
        assert(piece.spec_bytes() == this_line);
        out.push(piece);
        proof {
            assert(lines_from(b, pos as int) == seq![this_line] + lines_from(b, k + 1));
            assert(done.push(this_line) + lines_from(b, k + 1) =~= done + lines_from(b, pos as int));
            done = done.push(this_line);
        }
        if k < n {
            proof {
                lemma_newline_boundaries(b, k as int);
            }
            let (_newline, after) = tail.split_at(1);
            proof {
                assert(after.spec_bytes() =~= b.subrange(k + 1, n as int));
            }
            rest = after;
            pos = k + 1;
        } else {
            proof {
                assert(lines_from(b, n + 1) =~= lines_from(b, n as int));
            }
            rest = tail;
            pos = n;
        }
    }
    proof {
        assert(done + lines_from(b, pos as int) =~= done);
    }
    out
}

/// Relies on `std::str::from_utf8`: it accepts exactly the well-formed UTF-8
/// byte sequences and reads them in place.
#[verifier::external_body]
pub(crate) fn decode_text(bytes: &[u8]) -> (r: Result<&str, String>)
    ensures
        r is Ok <==> valid_utf8(bytes@),
        r matches Ok(s) ==> s.spec_bytes() == bytes@,
{
    std::str::from_utf8(bytes).map_err(|e| e.to_string())
}

} // verus!
