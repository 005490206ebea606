//! Scrubbing many lines at once, the two ways of sourcing them (a decoded
//! text, or raw bytes decoded in place), and the output format.

use rayon::iter::{IntoParallelRefIterator, ParallelIterator};
use vstd::prelude::*;
use vstd::string::{StringExecFns, StringSliceAdditionalSpecFns};
use vstd::utf8::{decode_utf8, encode_utf8, valid_utf8, encode_utf8_decode_utf8, decode_utf8_encode_utf8};
use crate::lines::{decode_text, lines_of, split_lines};
use crate::rules::{apply_rules, all_compile, first_invalid, rules_view, scrub_line, RuleSet, ScrubError};

verus! {

/// The text of each string.
pub open spec fn texts(v: Seq<String>) -> Seq<Seq<char>> {
    v.map_values(|s: String| s@)
}

/// The scrubbed lines of a text given as its UTF-8 bytes: line `i` of the
/// result is line `i` of the text with every rule applied.
pub open spec fn scrubbed(rules: Seq<(Seq<char>, Seq<char>)>, b: Seq<u8>) -> Seq<Seq<char>> {
    lines_of(b).map_values(|l: Seq<u8>| apply_rules(rules, decode_utf8(l)))
}

/// Output records: every line followed by one `\n`.
pub open spec fn records(lines: Seq<Seq<char>>) -> Seq<char>
    decreases lines.len(),
{
    if lines.len() == 0 {
        Seq::empty()
    } else {
        records(lines.drop_last()) + lines.last() + seq!['\n']
    }
}

/// Relies on rayon's indexed parallel map: `par_iter().map(f).collect()` into
/// a `Vec` calls `f` once for each item, on the worker pool, and keeps the
/// items' order.
#[verifier::external_body]
fn par_scrub(rules: &RuleSet, lines: &[&str]) -> (r: Vec<String>)
    ensures
        r@.len() == lines@.len(),
        forall|i: int| 0 <= i < r@.len() ==> (#[trigger] r@[i])@ == apply_rules(rules@, lines@[i]@),
{
    lines.par_iter().map(|line| scrub_line(line, rules)).collect()
}

/// Scrubs every line across the available cores. Line `i` of the result
/// depends on line `i` of the input and the rules alone.
pub fn scrub_lines(rules: &RuleSet, lines: &[&str]) -> (r: Vec<String>)
    ensures
        r@.len() == lines@.len(),
        forall|i: int| 0 <= i < r@.len() ==> (#[trigger] r@[i])@ == apply_rules(rules@, lines@[i]@),
{
    par_scrub(rules, lines)
}

/// Splits a text into lines and scrubs each one.
pub fn scrub_document(rules: &RuleSet, content: &str) -> (r: Vec<String>)
    ensures
        texts(r@) == scrubbed(rules@, content.spec_bytes()),
{
    let lines = split_lines(content);
    let out = scrub_lines(rules, lines.as_slice());
    proof {
        let b = content.spec_bytes();
        assert forall|i: int| 0 <= i < out@.len() implies texts(out@)[i] == scrubbed(rules@, b)[i] by {
            encode_utf8_decode_utf8(lines@[i]@);
        }
        assert(texts(out@) =~= scrubbed(rules@, b));
    }
    out
}

/// Decodes a region of bytes as UTF-8 in place, then splits and scrubs it.
/// Bytes that are not valid UTF-8 fail the whole call before any line is
/// scrubbed.
pub fn scrub_mapped(rules: &RuleSet, bytes: &[u8]) -> (r: Result<Vec<String>, ScrubError>)
    ensures
        r is Ok <==> valid_utf8(bytes@),
        r matches Ok(out) ==> texts(out@) == scrubbed(rules@, bytes@),
        r matches Err(e) ==> e is InvalidUtf8,
{
    match decode_text(bytes) {
        Ok(content) => Ok(scrub_document(rules, content)),
        Err(reason) => Err(ScrubError::InvalidUtf8 { reason }),
    }
}

/// Compiles the rules and applies them, in order, to one text.
pub fn scrub_text(text: &str, rules: &[(String, String)]) -> (r: Result<String, ScrubError>)
    ensures
        r is Ok <==> all_compile(rules_view(rules@)),
        r matches Ok(s) ==> s@ == apply_rules(rules_view(rules@), text@),
        r matches Err(e) ==> exists|k: int|
            first_invalid(rules_view(rules@), k) && e == (ScrubError::InvalidPattern {
                pattern: rules@[k].0,
                reason: e->InvalidPattern_reason,
            }),
{
    let set = RuleSet::compile(rules)?;
    Ok(scrub_line(text, &set))
}

/// Renders lines as output records, each ended by a single `\n`.
pub fn render_records(lines: &[String]) -> (r: String)
    ensures
        r@ == records(texts(lines@)),
{
    let mut out = String::new();
    let mut i: usize = 0;
    while i < lines.len()
        invariant
            0 <= i <= lines@.len(),
            out@ == records(texts(lines@).take(i as int)),
        decreases lines.len() - i,
    {
        out.append(lines[i].as_str());
        out.append("\n");
        proof {
            reveal_strlit("\n");
            assert(texts(lines@).take(i + 1).drop_last() =~= texts(lines@).take(i as int));
        }
        i = i + 1;
    }
    proof {
        assert(texts(lines@).take(i as int) =~= texts(lines@));
    }
    out
}

/// Order preservation: an output line depends only on the input line at the
/// same position and on the rules. Equal input lines, at any positions of
/// any two inputs, give equal output lines.
pub proof fn lemma_position_independent(
    rules: Seq<(Seq<char>, Seq<char>)>,
    lines_a: Seq<Seq<char>>,
    out_a: Seq<Seq<char>>,
    lines_b: Seq<Seq<char>>,
    out_b: Seq<Seq<char>>,
    i: int,
    j: int,
)
    requires
        out_a.len() == lines_a.len(),
        forall|k: int| 0 <= k < out_a.len() ==> #[trigger] out_a[k] == apply_rules(rules, lines_a[k]),
        out_b.len() == lines_b.len(),
        forall|k: int| 0 <= k < out_b.len() ==> #[trigger] out_b[k] == apply_rules(rules, lines_b[k]),
        0 <= i < lines_a.len(),
        0 <= j < lines_b.len(),
        lines_a[i] == lines_b[j],
    ensures
        out_a[i] == out_b[j],
{
}

/// Determinism: two results of scrubbing the same lines with the same rule
/// sequence are identical.
pub proof fn lemma_scrub_deterministic(
    rules: Seq<(Seq<char>, Seq<char>)>,
    lines: Seq<Seq<char>>,
    out_a: Seq<Seq<char>>,
    out_b: Seq<Seq<char>>,
)
    requires
        out_a.len() == lines.len(),
        forall|k: int| 0 <= k < out_a.len() ==> #[trigger] out_a[k] == apply_rules(rules, lines[k]),
        out_b.len() == lines.len(),
        forall|k: int| 0 <= k < out_b.len() ==> #[trigger] out_b[k] == apply_rules(rules, lines[k]),
    ensures
        out_a == out_b,
{
    assert(out_a =~= out_b);
}

/// Strategy equivalence: for well-formed UTF-8 bytes, scrubbing the decoded
/// text (`scrub_document`) and scrubbing the bytes in place (`scrub_mapped`)
/// give the same lines.
pub proof fn lemma_strategies_agree(rules: Seq<(Seq<char>, Seq<char>)>, bytes: Seq<u8>, text: Seq<char>)
    requires
        valid_utf8(bytes),
        text == decode_utf8(bytes),
    ensures
        scrubbed(rules, encode_utf8(text)) == scrubbed(rules, bytes),
{
    decode_utf8_encode_utf8(bytes);
}

} // verus!
