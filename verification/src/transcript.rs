//! From the transcripts of the runs to the records of the tests.

use crate::error::ReferendumError;
use crate::fingerprint::{fingerprint, fingerprint_of};
use crate::lines::{lines_of, parse_test_output};
use crate::names::{get_test_names, test_names, NAME_TOKEN};
use crate::output::{get_test_output, test_output};
use crate::pattern::regex_accepts;
use crate::record::{records, Record, Test};
use crate::results::{get_test_result, test_result};
use crate::text::texts;
use vstd::prelude::*;

verus! {

/// The record of the test called `name` in the transcript of a toolkit, where
/// both its output and its result can be extracted.
pub open spec fn record_of(toolkit: Seq<char>, lines: Seq<Seq<char>>, name: Seq<char>) -> Option<
    Record,
> {
    match (test_output(name, lines), test_result(name, lines)) {
        (Ok(output), Ok(result)) => Some(
            Record { name, toolkit, result, output, hash: fingerprint_of(result, output) },
        ),
        _ => None,
    }
}

/// Every test that the transcript names has a record.
pub open spec fn all_extracted(toolkit: Seq<char>, lines: Seq<Seq<char>>) -> bool {
    forall|i: int|
        0 <= i < test_names(lines).len() ==> record_of(
            toolkit,
            lines,
            #[trigger] test_names(lines)[i],
        ) is Some
}

/// The records of a transcript: one for each test that it names, in the order
/// of the names. There are none where the record of one test cannot be
/// extracted, or the pattern of a name token is not taken.
pub open spec fn parsed(toolkit: Seq<char>, lines: Seq<Seq<char>>) -> Result<
    Seq<Record>,
    ReferendumError,
> {
    if regex_accepts(NAME_TOKEN@) && all_extracted(toolkit, lines) {
        Ok(test_names(lines).map_values(|name: Seq<char>| record_of(toolkit, lines, name)->0))
    } else {
        Err(ReferendumError::TestResultExtractionFailure())
    }
}

/// The records of the tests in the transcript of one toolkit, one for each
/// test that the transcript names, in the order of the names. Every record
/// has the result that the transcript tells of its test. Where the transcript
/// names a test and tells no result of it, there are no records at all: the
/// extraction fails.
pub fn parse_transcript(toolkit: &str, lines: &[String]) -> (found: Result<
    Vec<Test>,
    ReferendumError,
>)
    ensures
        match found {
            Ok(tests) => {
                &&& parsed(toolkit@, texts(lines@)) == Ok::<Seq<Record>, ReferendumError>(
                    records(tests@),
                )
                &&& tests@.len() == test_names(texts(lines@)).len()
                &&& forall|i: int|
                    0 <= i < tests@.len() ==> {
                        &&& (#[trigger] tests@[i]).name@ == test_names(texts(lines@))[i]
                        &&& test_result(tests@[i].name@, texts(lines@)) == Ok::<
                            bool,
                            ReferendumError,
                        >(tests@[i].result)
                    }
            },
            Err(e) => {
                &&& e == ReferendumError::TestResultExtractionFailure()
                &&& parsed(toolkit@, texts(lines@)) == Err::<Seq<Record>, ReferendumError>(e)
            },
        },
{
    let ghost all = texts(lines@);
    let names = match get_test_names(lines) {
        Ok(names) => names,
        Err(e) => { return Err(e); },
    };
    let ghost wanted = test_names(all);
    let mut tests: Vec<Test> = Vec::new();
    let mut i: usize = 0;
    while i < names.len()
        invariant
            i <= names.len(),
            all == texts(lines@),
            wanted == test_names(all),
            texts(names@) == wanted,
            regex_accepts(NAME_TOKEN@),
            tests@.len() == i,
            forall|k: int|
                0 <= k < i ==> record_of(toolkit@, all, wanted[k]) == Some((#[trigger] tests@[k])@),
        decreases names.len() - i,
    {
        let name = &names[i];
        assert(name@ == wanted[i as int]);
        let output = match get_test_output(name.as_str(), lines) {
            Ok(output) => output,
            Err(e) => {
                assert(record_of(toolkit@, all, wanted[i as int]) is None);
                return Err(e);
            },
        };
        let result = match get_test_result(name.as_str(), lines) {
            Ok(result) => result,
            Err(e) => {
                assert(record_of(toolkit@, all, wanted[i as int]) is None);
                return Err(e);
            },
        };
        let hash = fingerprint(result, output.as_str());
        let test = Test {
            name: name.clone(),
            toolkit: toolkit.to_owned(),
            result,
            output,
            hash,
        };
        assert(record_of(toolkit@, all, wanted[i as int]) == Some(test@));
        tests.push(test);
        i = i + 1;
    }
    proof {
        assert forall|k: int| 0 <= k < wanted.len() implies record_of(
            toolkit@,
            all,
            #[trigger] wanted[k],
        ) is Some by {
            assert(record_of(toolkit@, all, wanted[k]) == Some(tests@[k]@));
        }
        assert(all_extracted(toolkit@, all));
        assert(records(tests@) =~= wanted.map_values(
            |name: Seq<char>| record_of(toolkit@, all, name)->0,
        ));
    }
    Ok(tests)
}

/// One run of the test harness under one toolkit.
#[derive(Debug)]
pub struct HarnessRun {
    /// The toolkit under which the tests ran.
    pub toolkit: String,
    /// Everything the harness printed.
    pub transcript: String,
    /// Whether the harness process ended successfully.
    pub success: bool,
}

/// The records of all the tests of the runs, run by run. There are none where
/// a run failed or its transcript cannot be read; the first run of which that
/// is true says which of the two it is.
pub open spec fn gathered(runs: Seq<HarnessRun>) -> Result<Seq<Record>, ReferendumError>
    decreases runs.len(),
{
    if runs.len() == 0 {
        Ok(Seq::empty())
    } else {
        match gathered(runs.drop_last()) {
            Err(e) => Err(e),
            Ok(before) => if !runs.last().success {
                Err(ReferendumError::TestRunFailure())
            } else {
                match parsed(runs.last().toolkit@, lines_of(runs.last().transcript@)) {
                    Ok(found) => Ok(before + found),
                    Err(e) => Err(e),
                }
            },
        }
    }
}

/// The run succeeded, and every test that its transcript names has a record.
pub open spec fn is_readable(run: HarnessRun) -> bool {
    run.success && parsed(run.toolkit@, lines_of(run.transcript@)) is Ok
}

/// The records are gathered exactly where every run can be read.
pub proof fn lemma_gathered_ok(runs: Seq<HarnessRun>)
    ensures
        gathered(runs) is Ok <==> forall|i: int| 0 <= i < runs.len() ==> is_readable(#[trigger] runs[i]),
    decreases runs.len(),
{
    if runs.len() > 0 {
        let head = runs.drop_last();
        lemma_gathered_ok(head);
        if gathered(runs) is Ok {
            assert forall|i: int| 0 <= i < runs.len() implies is_readable(#[trigger] runs[i]) by {
                if i < head.len() {
                    assert(head[i] == runs[i]);
                }
            }
        }
        if forall|i: int| 0 <= i < runs.len() ==> is_readable(#[trigger] runs[i]) {
            assert forall|i: int| 0 <= i < head.len() implies is_readable(#[trigger] head[i]) by {
                assert(head[i] == runs[i]);
            }
            assert(is_readable(runs[runs.len() - 1]));
        }
    }
}

/// Once the runs up to some point fail, all the runs fail in the same way.
proof fn lemma_gathered_fails(runs: Seq<HarnessRun>, n: int)
    requires
        0 <= n <= runs.len(),
    ensures
        gathered(runs.take(n)) is Err ==> gathered(runs) == gathered(runs.take(n)),
    decreases runs.len() - n,
{
    if n < runs.len() {
        lemma_gathered_fails(runs, n + 1);
        assert(runs.take(n + 1).drop_last() =~= runs.take(n));
    } else {
        assert(runs.take(n) =~= runs);
    }
}

/// The records of all the tests that the runs of the harness report, run by
/// run in the order of the runs. A run that failed makes the whole fail with
/// `TestRunFailure`, and a transcript that names a test without telling its
/// result makes it fail with `TestResultExtractionFailure`: a comparison over
/// a part of the toolkits is not attempted.
pub fn get_tests(runs: &Vec<HarnessRun>) -> (found: Result<Vec<Test>, ReferendumError>)
    ensures
        match found {
            Ok(tests) => gathered(runs@) == Ok::<Seq<Record>, ReferendumError>(records(tests@)),
            Err(e) => gathered(runs@) == Err::<Seq<Record>, ReferendumError>(e) && (e
                == ReferendumError::TestRunFailure() || e
                == ReferendumError::TestResultExtractionFailure()),
        },
        found is Ok <==> forall|i: int| 0 <= i < runs@.len() ==> is_readable(#[trigger] runs@[i]),
{
    proof {
        lemma_gathered_ok(runs@);
    }
    let mut tests: Vec<Test> = Vec::new();
    let mut i: usize = 0;
    assert(runs@.take(0) =~= Seq::<HarnessRun>::empty());
    assert(records(tests@) =~= Seq::<Record>::empty());
    while i < runs.len()
        invariant
            i <= runs.len(),
            gathered(runs@.take(i as int)) == Ok::<Seq<Record>, ReferendumError>(records(tests@)),
        decreases runs.len() - i,
    {
        let run = &runs[i];
        proof {
            assert(runs@.take(i + 1).drop_last() =~= runs@.take(i as int));
            assert(runs@.take(i + 1).last() == *run);
            lemma_gathered_fails(runs@, i + 1);
        }
        if !run.success {
            return Err(ReferendumError::TestRunFailure());
        }
        let lines = parse_test_output(run.transcript.as_str());
        let mut found = match parse_transcript(run.toolkit.as_str(), lines.as_slice()) {
            Ok(found) => found,
            Err(e) => { return Err(e); },
        };
        let ghost before = records(tests@);
        let ghost added = records(found@);
        tests.append(&mut found);
        assert(records(tests@) =~= before + added);
        i = i + 1;
    }
    assert(runs@.take(runs.len() as int) =~= runs@);
    Ok(tests)
}

} // verus!
