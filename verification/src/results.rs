//! The result of a test, as a transcript tells it.

use crate::error::ReferendumError;
use crate::lines::{spaced, spaced_lines};
use crate::pattern::{compile, find_all, regex_accepts, regex_find_all};
use crate::text::{contains, find, texts, to_chars};
use vstd::prelude::*;

verus! {

/// The pattern of a result line.
pub const RESULT_LINE: &'static str = "[a-zA-z_0-9]+::[a-zA-Z_0-9]+ ... (ok|FAILED)";

/// The pattern of the result line of a test that is meant to panic.
pub const PANIC_RESULT_LINE: &'static str =
    "[a-zA-z_0-9]+::[a-zA-Z_0-9]+ - should panic ... (ok|FAILED)";

/// What a result line holds where the test passed.
pub const PASSED: &'static str = "ok";

/// The result lines of a transcript: what in it looks like the result line of
/// a test, and behind that what looks like the result line of a test that is
/// meant to panic.
pub open spec fn result_lines(lines: Seq<Seq<char>>) -> Seq<Seq<char>> {
    regex_find_all(RESULT_LINE@, spaced(lines)) + regex_find_all(PANIC_RESULT_LINE@, spaced(lines))
}

/// What the result lines say of a test: whether the first of them that holds
/// the name of the test also holds `ok`. They say nothing where none holds the
/// name.
pub open spec fn outcome(test_name: Seq<char>, result_lines: Seq<Seq<char>>) -> Option<bool>
    decreases result_lines.len(),
{
    if result_lines.len() == 0 {
        None
    } else if contains(result_lines[0], test_name) {
        Some(contains(result_lines[0], PASSED@))
    } else {
        outcome(test_name, result_lines.drop_first())
    }
}

/// A result line holds the name of the test.
pub open spec fn is_told(test_name: Seq<char>, result_lines: Seq<Seq<char>>) -> bool {
    exists|i: int| 0 <= i < result_lines.len() && contains(#[trigger] result_lines[i], test_name)
}

/// The result line at `i` is the first that holds the name of the test.
pub open spec fn tells_first(test_name: Seq<char>, result_lines: Seq<Seq<char>>, i: int) -> bool {
    &&& 0 <= i < result_lines.len()
    &&& contains(result_lines[i], test_name)
    &&& forall|j: int| 0 <= j < i ==> !contains(#[trigger] result_lines[j], test_name)
}

/// The first result line that holds the name of the test decides, and there
/// is an outcome exactly where some line holds the name.
pub proof fn lemma_outcome(test_name: Seq<char>, result_lines: Seq<Seq<char>>)
    ensures
        outcome(test_name, result_lines) is Some <==> is_told(test_name, result_lines),
        forall|i: int| #[trigger]
            tells_first(test_name, result_lines, i) ==> outcome(test_name, result_lines) == Some(
                contains(result_lines[i], PASSED@),
            ),
    decreases result_lines.len(),
{
    if result_lines.len() > 0 {
        let rest = result_lines.drop_first();
        lemma_outcome(test_name, rest);
        if contains(result_lines[0], test_name) {
            assert forall|i: int| #[trigger]
                tells_first(test_name, result_lines, i) implies i == 0 by {
                if i > 0 {
                    assert(!contains(result_lines[0], test_name));
                }
            }
        } else {
            if is_told(test_name, rest) {
                let i = choose|i: int| 0 <= i < rest.len() && contains(#[trigger] rest[i], test_name);
                assert(contains(result_lines[i + 1], test_name));
            }
            if is_told(test_name, result_lines) {
                let i = choose|i: int|
                    0 <= i < result_lines.len() && contains(#[trigger] result_lines[i], test_name);
                assert(contains(rest[i - 1], test_name));
            }
            assert forall|i: int| #[trigger]
                tells_first(test_name, result_lines, i) implies outcome(test_name, result_lines)
                == Some(contains(result_lines[i], PASSED@)) by {
                assert(i > 0);
                assert(rest[i - 1] == result_lines[i]);
                assert forall|j: int| 0 <= j < i - 1 implies !contains(
                    #[trigger] rest[j],
                    test_name,
                ) by {
                    assert(rest[j] == result_lines[j + 1]);
                }
                assert(tells_first(test_name, rest, i - 1));
            }
        }
    }
}

/// What `outcome` comes to as the result of an extraction.
pub open spec fn outcome_or_failure(found: Option<bool>) -> Result<bool, ReferendumError> {
    match found {
        Some(passed) => Ok(passed),
        None => Err(ReferendumError::TestResultExtractionFailure()),
    }
}

/// The result of a test in a transcript. There is none where no result line
/// holds the name of the test, and none where a pattern of result lines is not
/// taken.
pub open spec fn test_result(test_name: Seq<char>, lines: Seq<Seq<char>>) -> Result<
    bool,
    ReferendumError,
> {
    if regex_accepts(RESULT_LINE@) && regex_accepts(PANIC_RESULT_LINE@) {
        outcome_or_failure(outcome(test_name, result_lines(lines)))
    } else {
        Err(ReferendumError::TestResultExtractionFailure())
    }
}

/// Whether the test passed, by the first of the result lines that holds its
/// name: it passed where that line holds `ok`. Without such a line the
/// extraction fails.
pub fn result_from_lines(test_name: &str, result_lines: &Vec<String>) -> (found: Result<
    bool,
    ReferendumError,
>)
    ensures
        found == outcome_or_failure(outcome(test_name@, texts(result_lines@))),
        found is Ok <==> is_told(test_name@, texts(result_lines@)),
        forall|i: int| #[trigger]
            tells_first(test_name@, texts(result_lines@), i) ==> found == Ok::<
                bool,
                ReferendumError,
            >(contains(texts(result_lines@)[i], PASSED@)),
{
    let ghost all = texts(result_lines@);
    let name = to_chars(test_name);
    let passed = to_chars(PASSED);
    let mut i: usize = 0;
    assert(all.skip(0) =~= all);
    while i < result_lines.len()
        invariant
            i <= result_lines.len(),
            all == texts(result_lines@),
            name@ == test_name@,
            passed@ == PASSED@,
            outcome(test_name@, all) == outcome(test_name@, all.skip(i as int)),
        decreases result_lines.len() - i,
    {
        let line = to_chars(result_lines[i].as_str());
        proof {
            assert(all.skip(i as int)[0] == line@);
            assert(all.skip(i as int).drop_first() =~= all.skip(i + 1));
        }
        if find(&line, &name).is_some() {
            proof {
                lemma_outcome(test_name@, all);
            }
            return Ok(find(&line, &passed).is_some());
        }
        i = i + 1;
    }
    proof {
        lemma_outcome(test_name@, all);
    }
    Err(ReferendumError::TestResultExtractionFailure())
}

/// Whether a test passed, as its transcript tells. The transcript is searched
/// as a whole for result lines, first the plain ones and then those of tests
/// that are meant to panic; the first that holds the name of the test decides.
/// The extraction fails where none holds it.
pub fn get_test_result(test_name: &str, lines: &[String]) -> (found: Result<bool, ReferendumError>)
    ensures
        found == test_result(test_name@, texts(lines@)),
{
    let plain = compile(RESULT_LINE)?;
    let panicking = compile(PANIC_RESULT_LINE)?;
    let haystack = spaced_lines(lines);
    let mut found = find_all(&plain, haystack.as_str());
    let mut more = find_all(&panicking, haystack.as_str());
    let ghost first = texts(found@);
    let ghost second = texts(more@);
    found.append(&mut more);
    assert(texts(found@) =~= first + second);
    result_from_lines(test_name, &found)
}

} // verus!
