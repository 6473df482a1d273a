//! The captured output of a test, as a transcript holds it.

use crate::builder::{into_text, new_text, push_text};
use crate::error::ReferendumError;
use crate::pattern::{compile, regex_accepts, regex_is_match, regex_pattern};
use crate::text::{concat_range, texts};
use vstd::prelude::*;

verus! {

/// The pattern of the line that opens the output block of any test.
pub const BLOCK_MARKER: &'static str = "---- [a-zA-Z_0-9]+::[a-zA-Z_0-9]+ stdout ----";

/// The pattern of the header of the section of failures.
pub const FAILURES_HEADER: &'static str = "failures:";

/// The pattern of the header of the section of successes.
pub const SUCCESSES_HEADER: &'static str = "successes:";

/// What stands before the name in the line that opens an output block.
pub const MARKER_OPEN: &'static str = "---- ";

/// What stands behind the name in the line that opens an output block.
pub const MARKER_CLOSE: &'static str = " stdout ----";

/// What a line is to the output block of a test.
#[derive(Debug, Clone, Copy, PartialEq, Eq, Structural)]
pub enum LineKind {
    /// The line that opens the output block of the test.
    Start,
    /// A line that ends an output block: the opening of a block of any test,
    /// or the header of the failures or of the successes. The opening of the
    /// test's own block is a `Start`, not an `End`.
    End,
    /// Any other line.
    Other,
}

/// The lines from `from` up to `to` are the output block: the line before
/// `from` opens the block, no line in it opens or ends one, it goes up to the
/// next line that ends a block or to the last line, and no block that was
/// opened earlier has been ended before.
pub open spec fn is_block(kinds: Seq<LineKind>, from: int, to: int) -> bool {
    &&& 0 < from <= to <= kinds.len()
    &&& kinds[from - 1] == LineKind::Start
    &&& forall|i: int| from <= i < to ==> #[trigger] kinds[i] == LineKind::Other
    &&& to < kinds.len() ==> kinds[to] == LineKind::End
    &&& forall|i: int, j: int|
        0 <= i < j < from - 1 && #[trigger] kinds[i] == LineKind::Start ==> #[trigger] kinds[j]
            != LineKind::End
}

/// Whether a line opens the block of the test.
pub open spec fn has_start(kinds: Seq<LineKind>) -> bool {
    exists|i: int| 0 <= i < kinds.len() && #[trigger] kinds[i] == LineKind::Start
}

/// The captured output of a test: the lines of its output block in a row, and
/// nothing where no line opens its block.
pub open spec fn captured(lines: Seq<Seq<char>>, kinds: Seq<LineKind>) -> Seq<char> {
    if exists|from: int, to: int| is_block(kinds, from, to) {
        let (from, to) = choose|from: int, to: int| is_block(kinds, from, to);
        lines.subrange(from, to).flatten()
    } else {
        Seq::empty()
    }
}

/// Lines have at most one output block.
pub proof fn lemma_block_unique(kinds: Seq<LineKind>, from: int, to: int, from2: int, to2: int)
    requires
        is_block(kinds, from, to),
        is_block(kinds, from2, to2),
    ensures
        from == from2,
        to == to2,
{
    if from < from2 {
        assert(kinds[from2 - 1] == LineKind::Start);
        if from2 - 1 < to {
            assert(kinds[from2 - 1] == LineKind::Other);
        }
        assert(kinds[to] == LineKind::End);
        assert(kinds[from - 1] == LineKind::Start);
    } else if from2 < from {
        assert(kinds[from - 1] == LineKind::Start);
        if from - 1 < to2 {
            assert(kinds[from - 1] == LineKind::Other);
        }
        assert(kinds[to2] == LineKind::End);
        assert(kinds[from2 - 1] == LineKind::Start);
    } else {
        if to < to2 {
            assert(kinds[to] == LineKind::Other);
        } else if to2 < to {
            assert(kinds[to2] == LineKind::Other);
        }
    }
}

/// The output block, where there is one, is what is captured.
pub proof fn lemma_captured_block(lines: Seq<Seq<char>>, kinds: Seq<LineKind>, from: int, to: int)
    requires
        is_block(kinds, from, to),
    ensures
        captured(lines, kinds) == lines.subrange(from, to).flatten(),
{
    let (from2, to2) = choose|from2: int, to2: int| is_block(kinds, from2, to2);
    lemma_block_unique(kinds, from, to, from2, to2);
}

/// A test whose output block no line opens has no output.
pub proof fn lemma_captured_nothing(lines: Seq<Seq<char>>, kinds: Seq<LineKind>)
    requires
        !has_start(kinds),
    ensures
        captured(lines, kinds) == Seq::<char>::empty(),
{
    assert forall|from: int, to: int| !is_block(kinds, from, to) by {
        if is_block(kinds, from, to) {
            assert(kinds[from - 1] == LineKind::Start);
        }
    }
}

/// What is captured does not depend on which line ends the block, nor on what
/// the lines that open or end a block hold besides: two transcripts whose
/// lines are of the same kinds one by one, and the same where they neither
/// open nor end a block, give the same output.
pub proof fn lemma_same_content_same_output(
    first: Seq<Seq<char>>,
    second: Seq<Seq<char>>,
    kinds: Seq<LineKind>,
)
    requires
        first.len() == kinds.len(),
        second.len() == kinds.len(),
        forall|i: int|
            0 <= i < kinds.len() && #[trigger] kinds[i] == LineKind::Other ==> first[i]
                == second[i],
    ensures
        captured(first, kinds) == captured(second, kinds),
{
    if exists|from: int, to: int| is_block(kinds, from, to) {
        let (from, to) = choose|from: int, to: int| is_block(kinds, from, to);
        assert forall|i: int| from <= i < to implies first[i] == second[i] by {
            assert(kinds[i] == LineKind::Other);
        }
        assert(first.subrange(from, to) =~= second.subrange(from, to));
    }
}

/// The captured output of a test, from the lines of its transcript and what
/// each of them is to its output block. The block begins behind the line that
/// opens it and ends before the next line that ends a block, or with the last
/// line. Lines that end a block count only once the block of the test has
/// been opened. Where the block is opened again before it has ended, it
/// begins anew. The lines of the block are put in a row with nothing between
/// them. A test whose block no line opens has no output.
pub fn output_block(lines: &[String], kinds: &Vec<LineKind>) -> (output: String)
    requires
        kinds.len() == lines.len(),
    ensures
        output@ == captured(texts(lines@), kinds@),
        forall|from: int, to: int|
            is_block(kinds@, from, to) ==> output@ == texts(lines@).subrange(from, to).flatten(),
        !has_start(kinds@) ==> output@ == Seq::<char>::empty(),
{
    let n = kinds.len();
    let mut begin: usize = 0;
    let mut opened = false;
    let mut end: usize = n;
    let mut i: usize = 0;
    while i < n
        invariant_except_break
            i <= n,
            end == n,
        invariant
            n == kinds.len(),
            n == lines.len(),
            begin <= n,
            !opened ==> forall|j: int| 0 <= j < i ==> #[trigger] kinds@[j] != LineKind::Start,
            opened ==> 0 < begin <= i && kinds@[begin - 1] == LineKind::Start,
            opened ==> forall|j: int| begin <= j < i ==> #[trigger] kinds@[j] == LineKind::Other,
            opened ==> forall|a: int, b: int|
                0 <= a < b < begin - 1 && #[trigger] kinds@[a] == LineKind::Start
                    ==> #[trigger] kinds@[b] != LineKind::End,
        ensures
            i <= end <= n,
            opened ==> forall|j: int| begin <= j < end ==> #[trigger] kinds@[j] == LineKind::Other,
            opened ==> begin <= end,
            end < n ==> opened && kinds@[end as int] == LineKind::End,
            end == n ==> i == n,
        decreases n - i,
    {
        match kinds[i] {
            LineKind::Start => {
                proof {
                    if opened {
                        assert forall|a: int, b: int|
                            0 <= a < b < i && #[trigger] kinds@[a] == LineKind::Start
                            implies #[trigger] kinds@[b] != LineKind::End by {
                            if b >= begin {
                                assert(kinds@[b] == LineKind::Other);
                            }
                        }
                    } else {
                        assert forall|a: int, b: int|
                            0 <= a < b < i && #[trigger] kinds@[a] == LineKind::Start
                            implies #[trigger] kinds@[b] != LineKind::End by {
                            assert(kinds@[a] != LineKind::Start);
                        }
                    }
                }
                opened = true;
                begin = i + 1;
            },
            LineKind::End => {
                if opened {
                    end = i;
                    break ;
                }
            },
            LineKind::Other => {},
        }
        i = i + 1;
    }
    if !opened {
        proof {
            assert forall|from: int, to: int| !is_block(kinds@, from, to) by {
                if is_block(kinds@, from, to) {
                    assert(kinds@[from - 1] != LineKind::Start);
                }
            }
        }
        return String::new();
    }
    proof {
        assert(is_block(kinds@, begin as int, end as int));
        let (from, to) = choose|from: int, to: int| is_block(kinds@, from, to);
        lemma_block_unique(kinds@, begin as int, end as int, from, to);
        assert forall|from: int, to: int| is_block(kinds@, from, to) implies from == begin && to
            == end by {
            lemma_block_unique(kinds@, begin as int, end as int, from, to);
        }
        assert(kinds@[begin - 1] == LineKind::Start);
    }
    concat_range(lines, begin, end)
}

/// The pattern of the line that opens the output block of a test: the name of
/// the test between `---- ` and ` stdout ----`.
pub open spec fn start_pattern(test_name: Seq<char>) -> Seq<char> {
    MARKER_OPEN@ + test_name + MARKER_CLOSE@
}

/// Whether a line ends an output block.
pub open spec fn ends_block(line: Seq<char>) -> bool {
    regex_is_match(BLOCK_MARKER@, line) || regex_is_match(FAILURES_HEADER@, line)
        || regex_is_match(SUCCESSES_HEADER@, line)
}

/// What a line is to the output block of the test called `test_name`.
pub open spec fn line_kind(test_name: Seq<char>, line: Seq<char>) -> LineKind {
    if regex_is_match(start_pattern(test_name), line) {
        LineKind::Start
    } else if ends_block(line) {
        LineKind::End
    } else {
        LineKind::Other
    }
}

/// What each line is to the output block of the test called `test_name`.
pub open spec fn line_kinds(test_name: Seq<char>, lines: Seq<Seq<char>>) -> Seq<LineKind> {
    lines.map_values(|line: Seq<char>| line_kind(test_name, line))
}

/// The header of the failures, the header of the successes and the opening of
/// another block end a block alike: a line that shows one of them, and is not
/// the opening of the test's own block, is an `End`.
pub proof fn lemma_ends_alike(test_name: Seq<char>, line: Seq<char>)
    requires
        !regex_is_match(start_pattern(test_name), line),
        regex_is_match(BLOCK_MARKER@, line) || regex_is_match(FAILURES_HEADER@, line)
            || regex_is_match(SUCCESSES_HEADER@, line),
    ensures
        line_kind(test_name, line) == LineKind::End,
{
}

/// The patterns by which the output block of a test is found are all taken.
pub open spec fn block_patterns_accepted(test_name: Seq<char>) -> bool {
    &&& regex_accepts(start_pattern(test_name))
    &&& regex_accepts(BLOCK_MARKER@)
    &&& regex_accepts(FAILURES_HEADER@)
    &&& regex_accepts(SUCCESSES_HEADER@)
}

/// The output of a test in a transcript. There is none where one of the
/// patterns by which its block is found is not taken; a name is read as a
/// pattern, and not every name is one.
pub open spec fn test_output(test_name: Seq<char>, lines: Seq<Seq<char>>) -> Result<
    Seq<char>,
    ReferendumError,
> {
    if block_patterns_accepted(test_name) {
        Ok(captured(lines, line_kinds(test_name, lines)))
    } else {
        Err(ReferendumError::TestResultExtractionFailure())
    }
}

/// What a test printed, as its transcript tells: the lines between the line
/// that opens its output block and the next line that ends a block (see
/// [`output_block`]). A test without an output block printed nothing, which is
/// no failure. The extraction fails only where a pattern is not taken.
pub fn get_test_output(test_name: &str, lines: &[String]) -> (found: Result<
    String,
    ReferendumError,
>)
    ensures
        match found {
            Ok(output) => test_output(test_name@, texts(lines@)) == Ok::<
                Seq<char>,
                ReferendumError,
            >(output@),
            Err(e) => test_output(test_name@, texts(lines@)) == Err::<Seq<char>, ReferendumError>(e),
        },
{
    let mut builder = new_text();
    push_text(&mut builder, MARKER_OPEN);
    push_text(&mut builder, test_name);
    push_text(&mut builder, MARKER_CLOSE);
    let pattern = into_text(builder);
    assert(pattern@ =~= start_pattern(test_name@));
    let start = compile(pattern.as_str())?;
    let marker = compile(BLOCK_MARKER)?;
    let failures = compile(FAILURES_HEADER)?;
    let successes = compile(SUCCESSES_HEADER)?;
    let ghost all = texts(lines@);
    let mut kinds: Vec<LineKind> = Vec::new();
    let mut i: usize = 0;
    while i < lines.len()
        invariant
            i <= lines.len(),
            all == texts(lines@),
            regex_pattern(start) == start_pattern(test_name@),
            regex_pattern(marker) == BLOCK_MARKER@,
            regex_pattern(failures) == FAILURES_HEADER@,
            regex_pattern(successes) == SUCCESSES_HEADER@,
            kinds@ == line_kinds(test_name@, all.take(i as int)),
        decreases lines.len() - i,
    {
        let line = lines[i].as_str();
        let kind = if start.is_match(line) {
            LineKind::Start
        } else if marker.is_match(line) || failures.is_match(line) || successes.is_match(line) {
            LineKind::End
        } else {
            LineKind::Other
        };
        kinds.push(kind);
        assert(kinds@ =~= line_kinds(test_name@, all.take(i + 1)));
        i = i + 1;
    }
    assert(all.take(lines.len() as int) =~= all);
    Ok(output_block(lines, &kinds))
}

} // verus!
