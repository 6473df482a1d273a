//! The lines of a transcript.

use crate::text::{join, join_all, texts, to_chars};
use vstd::prelude::*;

verus! {

/// The character that ends a line.
pub open spec fn newline() -> Seq<char> {
    seq!['\n']
}

/// The character that stands between the lines where a transcript is searched
/// as a whole.
pub open spec fn space() -> Seq<char> {
    seq![' ']
}

/// No line holds a line end.
pub open spec fn single_lines(lines: Seq<Seq<char>>) -> bool {
    forall|i: int, k: int|
        0 <= i < lines.len() && 0 <= k < lines[i].len() ==> #[trigger] lines[i][k] != '\n'
}

/// The lines of a text: what stands between its line ends. Read from the left,
/// a line end opens a new line and any other character goes to the open line.
pub open spec fn lines_of(text: Seq<char>) -> Seq<Seq<char>>
    decreases text.len(),
{
    if text.len() == 0 {
        seq![Seq::empty()]
    } else {
        let before = lines_of(text.drop_last());
        if text.last() == '\n' {
            before.push(Seq::empty())
        } else {
            before.drop_last().push(before.last().push(text.last()))
        }
    }
}

/// The lines of a text have no line end in them, and with a line end between
/// each two they are the text again.
pub proof fn lemma_lines_of(text: Seq<char>)
    ensures
        lines_of(text).len() >= 1,
        single_lines(lines_of(text)),
        join(lines_of(text), newline()) == text,
    decreases text.len(),
{
    if text.len() == 0 {
        assert(join(lines_of(text), newline()) =~= text);
    } else {
        let head = text.drop_last();
        let before = lines_of(head);
        let now = lines_of(text);
        lemma_lines_of(head);
        if text.last() == '\n' {
            assert(now.drop_last() =~= before);
            assert(join(now, newline()) =~= head.push(text.last()));
            assert forall|a: int, k: int|
                0 <= a < now.len() && 0 <= k < now[a].len() implies #[trigger] now[a][k]
                != '\n' by {
                assert(now[a] == before[a]);
            }
        } else {
            assert(now.drop_last() =~= before.drop_last());
            assert(join(now, newline()) =~= head.push(text.last()));
            assert forall|a: int, k: int|
                0 <= a < now.len() && 0 <= k < now[a].len() implies #[trigger] now[a][k]
                != '\n' by {
                if a < before.len() - 1 {
                    assert(now[a] == before[a]);
                } else if k < before.last().len() {
                    assert(now[a][k] == before[a][k]);
                }
            }
        }
        assert(head.push(text.last()) =~= text);
    }
}

/// The lines of a transcript: what stands between its line ends. There is
/// always at least one line, and a transcript that ends in a line end has an
/// empty last line.
pub fn parse_test_output(output: &str) -> (lines: Vec<String>)
    ensures
        texts(lines@) == lines_of(output@),
        lines@.len() >= 1,
        single_lines(texts(lines@)),
        join(texts(lines@), newline()) == output@,
{
    let chars = to_chars(output);
    let mut lines: Vec<String> = Vec::new();
    let mut current = String::new();
    let mut i: usize = 0;
    assert(texts(lines@).push(current@) =~= lines_of(output@.take(0)));
    while i < chars.len()
        invariant
            i <= chars.len(),
            chars@ == output@,
            texts(lines@).push(current@) == lines_of(output@.take(i as int)),
        decreases chars.len() - i,
    {
        let c = chars[i];
        let ghost before = texts(lines@).push(current@);
        proof {
            assert(output@.take(i + 1).drop_last() =~= output@.take(i as int));
            assert(output@.take(i + 1).last() == c);
        }
        if c == '\n' {
            lines.push(current);
            current = String::new();
            assert(texts(lines@).push(current@) =~= before.push(Seq::empty()));
        } else {
            current.push(c);
            assert(texts(lines@).push(current@) =~= before.drop_last().push(
                before.last().push(c),
            ));
        }
        i = i + 1;
    }
    proof {
        assert(output@.take(chars.len() as int) =~= output@);
        assert(texts(lines@.push(current)) =~= texts(lines@).push(current@));
        lemma_lines_of(output@);
    }
    lines.push(current);
    lines
}

/// The haystack in which names and results are looked for: the lines of the
/// transcript with one space between each two.
pub open spec fn spaced(lines: Seq<Seq<char>>) -> Seq<char> {
    join(lines, space())
}

/// The lines in a row, with a space between each two.
pub(crate) fn spaced_lines(lines: &[String]) -> (haystack: String)
    ensures
        haystack@ == spaced(texts(lines@)),
{
    proof {
        reveal_strlit(" ");
        assert(" "@ =~= space());
    }
    join_all(lines, " ")
}

} // verus!
