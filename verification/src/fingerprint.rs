use vstd::prelude::*;
use vstd::string::StringExecFns;
use vstd::utf8::encode_utf8;

verus! {

/// The SeaHash value of a sequence of bytes, with the seed that the hash
/// function has built in.
pub uninterp spec fn sea_hash(bytes: Seq<u8>) -> u64;

/// `fasthash::sea::hash64`: hashes a buffer with SeaHash. The value depends on
/// the bytes alone.
pub assume_specification[ fasthash::sea::hash64 ](buf: &[u8]) -> (hash: u64)
    ensures
        hash == sea_hash(buf@),
;

/// How an outcome is written: `true` for a test that passed, `false` for one
/// that failed.
pub open spec fn outcome_text(outcome: bool) -> Seq<char> {
    if outcome {
        seq!['t', 'r', 'u', 'e']
    } else {
        seq!['f', 'a', 'l', 's', 'e']
    }
}

/// What is hashed for a test: its outcome as text and, straight behind it,
/// its output.
pub open spec fn fingerprint_input(outcome: bool, output: Seq<char>) -> Seq<char> {
    outcome_text(outcome) + output
}

/// The fingerprint of an outcome and an output: the hash of the bytes of
/// `fingerprint_input` in UTF-8.
pub open spec fn fingerprint_of(outcome: bool, output: Seq<char>) -> u64 {
    sea_hash(encode_utf8(fingerprint_input(outcome, output)))
}

/// Two tests with the same outcome and the same output have the same
/// fingerprint.
pub proof fn lemma_fingerprint_deterministic(
    outcome: bool,
    output: Seq<char>,
    other_outcome: bool,
    other_output: Seq<char>,
)
    requires
        outcome == other_outcome,
        output == other_output,
    ensures
        fingerprint_of(outcome, output) == fingerprint_of(other_outcome, other_output),
{
}

/// What is hashed tells the outcome and the output apart: two tests for which
/// the same text is hashed have the same outcome and the same output.
pub proof fn lemma_fingerprint_input_injective(
    outcome: bool,
    output: Seq<char>,
    other_outcome: bool,
    other_output: Seq<char>,
)
    requires
        fingerprint_input(outcome, output) == fingerprint_input(other_outcome, other_output),
    ensures
        outcome == other_outcome,
        output == other_output,
{
    let a = fingerprint_input(outcome, output);
    let b = fingerprint_input(other_outcome, other_output);
    assert(a[0] == b[0]);
    assert(outcome == other_outcome);
    let n = outcome_text(outcome).len() as int;
    assert(output =~= a.skip(n));
    assert(other_output =~= b.skip(n));
}

/// The fingerprint of a test's outcome and output.
pub fn fingerprint(outcome: bool, output: &str) -> (hash: u64)
    ensures
        hash == fingerprint_of(outcome, output@),
{
    let mut text = String::new();
    if outcome {
        proof {
            reveal_strlit("true");
            assert("true"@ =~= outcome_text(true));
        }
        text.append("true");
    } else {
        proof {
            reveal_strlit("false");
            assert("false"@ =~= outcome_text(false));
        }
        text.append("false");
    }
    text.append(output);
    assert(text@ =~= fingerprint_input(outcome, output@));
    fasthash::sea::hash64(text.as_str().as_bytes())
}

} // verus!
