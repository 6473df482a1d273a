use crate::builder::{holds_text, into_text, new_text, push_text, text_of};
use crate::consensus_map::{has_name, position, ConsensusMap};
use crate::record::{records, Consensus, Entry, Record, Test};
use vstd::prelude::*;

verus! {

/// The name under which the consensus stands in a report, where a record has
/// its toolkit.
pub const CONSENSUS: &'static str = "consensus";

/// The heading of the section of the results that the toolkits agree on.
pub const CONSENSUS_HEADING: &'static str = "Consensus Test Results...\n";

/// The heading of the section of the results that differ from the consensus.
pub const DISSENT_HEADING: &'static str = "Dissenting Test Results...\n";

/// The heading of the section of the results without a consensus.
pub const NO_CONSENSUS_HEADING: &'static str = "No Consensus Results...\n";

/// What a toolkit given as a string slice holds.
pub open spec fn kit_text(toolkit: Option<&str>) -> Option<Seq<char>> {
    match toolkit {
        Some(kit) => Some(kit@),
        None => None,
    }
}

/// The result line of a test: `test`, the name, ` @ ` and the toolkit where
/// there is one, ` ... `, and `ok` or `FAILED`.
pub open spec fn result_line(name: Seq<char>, passed: bool, toolkit: Option<Seq<char>>) -> Seq<
    char,
> {
    "test "@ + name + (match toolkit {
        Some(kit) => " @ "@ + kit,
        None => " "@,
    }) + " ... "@ + (if passed {
        "ok"@
    } else {
        "FAILED"@
    })
}

/// The output block of a test: a heading with the name, and the toolkit where
/// there is one, and below it the output, both set in by a tab.
pub open spec fn output_lines(name: Seq<char>, output: Seq<char>, toolkit: Option<Seq<char>>) -> Seq<
    char,
> {
    "\n\t---- test "@ + name + (match toolkit {
        Some(kit) => " @ "@ + kit,
        None => Seq::empty(),
    }) + " stdout ----\n"@ + "\t"@ + output + "\n"@
}

/// What the consensus section says of one entry: its result line and, where
/// the test printed something, its output block.
pub open spec fn consensus_text(entry: Entry) -> Seq<char> {
    result_line(entry.name, entry.result, Some(CONSENSUS@)) + (if entry.output.len() > 0 {
        output_lines(entry.name, entry.output, Some(CONSENSUS@))
    } else {
        Seq::empty()
    }) + "\n"@
}

/// The consensus section: its heading and then the entries in their order.
pub open spec fn consensus_report(entries: Seq<Entry>) -> Seq<char> {
    CONSENSUS_HEADING@ + entries.map_values(|entry: Entry| consensus_text(entry)).flatten()
}

/// What the dissent section says of one record that differs from the
/// consensus `entry` of its test: the result line of the consensus, the
/// result line of the record, and the output blocks of the two.
pub open spec fn dissent_text(entry: Entry, vote: Record) -> Seq<char> {
    result_line(entry.name, entry.result, Some(CONSENSUS@)) + "\n"@ + result_line(
        vote.name,
        vote.result,
        Some(vote.toolkit),
    ) + output_lines(entry.name, entry.output, Some(CONSENSUS@)) + output_lines(
        vote.name,
        vote.output,
        Some(vote.toolkit),
    ) + "\n"@
}

/// The consensus entry of the test of a record.
pub open spec fn entry_for(entries: Seq<Entry>, vote: Record) -> Entry {
    entries[position(entries, vote.name)->0]
}

/// The dissent section: its heading and then the records in their order, each
/// against the consensus entry of its test.
pub open spec fn dissent_report(votes: Seq<Record>, entries: Seq<Entry>) -> Seq<char> {
    DISSENT_HEADING@ + votes.map_values(
        |vote: Record| dissent_text(entry_for(entries, vote), vote),
    ).flatten()
}

/// What the section without consensus says of one record: its result line and
/// its output block.
pub open spec fn no_consensus_text(vote: Record) -> Seq<char> {
    result_line(vote.name, vote.result, Some(vote.toolkit)) + output_lines(
        vote.name,
        vote.output,
        Some(vote.toolkit),
    ) + "\n"@
}

/// The section without consensus: its heading and then the records in their
/// order.
pub open spec fn no_consensus_report(votes: Seq<Record>) -> Seq<char> {
    NO_CONSENSUS_HEADING@ + votes.map_values(|vote: Record| no_consensus_text(vote)).flatten()
}

/// The result line of a test (see [`result_line`]).
pub fn generate_test_result_output(name: &str, result: bool, toolkit: Option<&str>) -> (line:
    String)
    ensures
        line@ == result_line(name@, result, kit_text(toolkit)),
{
    let mut builder = new_text();
    push_text(&mut builder, "test ");
    push_text(&mut builder, name);
    match toolkit {
        Some(kit) => {
            push_text(&mut builder, " @ ");
            push_text(&mut builder, kit);
        },
        None => {
            push_text(&mut builder, " ");
        },
    }
    push_text(&mut builder, " ... ");
    if result {
        push_text(&mut builder, "ok");
    } else {
        push_text(&mut builder, "FAILED");
    }
    assert(text_of(builder) =~= result_line(name@, result, kit_text(toolkit)));
    into_text(builder)
}

/// The output block of a test (see [`output_lines`]).
pub fn generate_test_output_output(name: &str, output: &str, toolkit: Option<&str>) -> (block:
    String)
    ensures
        block@ == output_lines(name@, output@, kit_text(toolkit)),
{
    let mut builder = new_text();
    push_text(&mut builder, "\n\t---- test ");
    push_text(&mut builder, name);
    match toolkit {
        Some(kit) => {
            push_text(&mut builder, " @ ");
            push_text(&mut builder, kit);
        },
        None => {},
    }
    push_text(&mut builder, " stdout ----\n");
    push_text(&mut builder, "\t");
    push_text(&mut builder, output);
    push_text(&mut builder, "\n");
    assert(text_of(builder) =~= output_lines(name@, output@, kit_text(toolkit)));
    into_text(builder)
}

/// What the consensus section says of one entry (see [`consensus_text`]).
fn consensus_part(entry: &Consensus) -> (part: String)
    ensures
        part@ == consensus_text(entry@),
{
    let mut builder = new_text();
    let line = generate_test_result_output(entry.name.as_str(), entry.result, Some(CONSENSUS));
    push_text(&mut builder, line.as_str());
    if !entry.output.as_str().is_empty() {
        let block = generate_test_output_output(
            entry.name.as_str(),
            entry.output.as_str(),
            Some(CONSENSUS),
        );
        push_text(&mut builder, block.as_str());
    }
    push_text(&mut builder, "\n");
    assert(text_of(builder) =~= consensus_text(entry@));
    into_text(builder)
}

/// What the dissent section says of one record (see [`dissent_text`]).
fn dissent_part(consensus: &Consensus, vote: &Test) -> (part: String)
    ensures
        part@ == dissent_text(consensus@, vote@),
{
    let mut builder = new_text();
    let agreed = generate_test_result_output(
        consensus.name.as_str(),
        consensus.result,
        Some(CONSENSUS),
    );
    push_text(&mut builder, agreed.as_str());
    push_text(&mut builder, "\n");
    let own = generate_test_result_output(
        vote.name.as_str(),
        vote.result,
        Some(vote.toolkit.as_str()),
    );
    push_text(&mut builder, own.as_str());
    let agreed_block = generate_test_output_output(
        consensus.name.as_str(),
        consensus.output.as_str(),
        Some(CONSENSUS),
    );
    push_text(&mut builder, agreed_block.as_str());
    let own_block = generate_test_output_output(
        vote.name.as_str(),
        vote.output.as_str(),
        Some(vote.toolkit.as_str()),
    );
    push_text(&mut builder, own_block.as_str());
    push_text(&mut builder, "\n");
    assert(text_of(builder) =~= dissent_text(consensus@, vote@));
    into_text(builder)
}

/// What the section without consensus says of one record (see
/// [`no_consensus_text`]).
fn no_consensus_part(vote: &Test) -> (part: String)
    ensures
        part@ == no_consensus_text(vote@),
{
    let mut builder = new_text();
    let line = generate_test_result_output(
        vote.name.as_str(),
        vote.result,
        Some(vote.toolkit.as_str()),
    );
    push_text(&mut builder, line.as_str());
    let block = generate_test_output_output(
        vote.name.as_str(),
        vote.output.as_str(),
        Some(vote.toolkit.as_str()),
    );
    push_text(&mut builder, block.as_str());
    push_text(&mut builder, "\n");
    assert(text_of(builder) =~= no_consensus_text(vote@));
    into_text(builder)
}

/// The consensus section of a report: for each entry of the map, in its
/// order, the result line of the consensus and, where the test printed
/// something, its output block.
pub fn get_consensus_results(consensus_map: &ConsensusMap) -> (report: String)
    ensures
        report@ == consensus_report(consensus_map@),
{
    let ghost entries = consensus_map@;
    let ghost parts = entries.map_values(|entry: Entry| consensus_text(entry));
    let mut builder = new_text();
    push_text(&mut builder, CONSENSUS_HEADING);
    let count = consensus_map.len();
    let mut i: usize = 0;
    assert(parts.take(0).flatten() =~= Seq::<char>::empty());
    while i < count
        invariant
            i <= count,
            count == entries.len(),
            entries == consensus_map@,
            parts == entries.map_values(|entry: Entry| consensus_text(entry)),
            holds_text(builder),
            text_of(builder) == CONSENSUS_HEADING@ + parts.take(i as int).flatten(),
        decreases count - i,
    {
        let part = consensus_part(consensus_map.entry(i));
        push_text(&mut builder, part.as_str());
        proof {
            assert(parts[i as int] == part@);
            assert(parts.take(i + 1) =~= parts.take(i as int).push(parts[i as int]));
            parts.take(i as int).lemma_flatten_push(parts[i as int]);
        }
        i = i + 1;
    }
    assert(parts.take(count as int) =~= parts);
    into_text(builder)
}

/// The dissent section of a report: for each record that differs from the
/// consensus, in the order given, the result line of the consensus of its
/// test, its own result line, and the output blocks of the two. Every record
/// must be of a test that the map has an entry for: a record differs from a
/// consensus only where there is one.
pub fn get_dissenting_results(dissenting_votes: Vec<Test>, consensus_map: &ConsensusMap) -> (report:
    String)
    requires
        forall|i: int|
            0 <= i < dissenting_votes@.len() ==> has_name(
                consensus_map@,
                (#[trigger] dissenting_votes@[i]).name@,
            ),
    ensures
        report@ == dissent_report(records(dissenting_votes@), consensus_map@),
{
    let ghost entries = consensus_map@;
    let ghost votes = records(dissenting_votes@);
    let ghost parts = votes.map_values(|vote: Record| dissent_text(entry_for(entries, vote), vote));
    let mut builder = new_text();
    push_text(&mut builder, DISSENT_HEADING);
    let mut i: usize = 0;
    assert(parts.take(0).flatten() =~= Seq::<char>::empty());
    while i < dissenting_votes.len()
        invariant
            i <= dissenting_votes.len(),
            entries == consensus_map@,
            votes == records(dissenting_votes@),
            parts == votes.map_values(
                |vote: Record| dissent_text(entry_for(entries, vote), vote),
            ),
            forall|k: int|
                0 <= k < dissenting_votes@.len() ==> has_name(
                    entries,
                    (#[trigger] dissenting_votes@[k]).name@,
                ),
            holds_text(builder),
            text_of(builder) == DISSENT_HEADING@ + parts.take(i as int).flatten(),
        decreases dissenting_votes.len() - i,
    {
        let vote = &dissenting_votes[i];
        assert(has_name(entries, vote.name@));
        let part = match consensus_map.get(&vote.name) {
            Some(consensus) => {
                assert(consensus@ == entry_for(entries, vote@));
                dissent_part(consensus, vote)
            },
            // Every record here is of a test that the map has an entry for.
            None => vstd::pervasive::unreached(),
        };
        push_text(&mut builder, part.as_str());
        proof {
            assert(votes[i as int] == vote@);
            assert(parts[i as int] == part@);
            assert(parts.take(i + 1) =~= parts.take(i as int).push(parts[i as int]));
            parts.take(i as int).lemma_flatten_push(parts[i as int]);
        }
        i = i + 1;
    }
    assert(parts.take(dissenting_votes.len() as int) =~= parts);
    into_text(builder)
}

/// The section of a report on the tests without consensus: for each record,
/// in the order given, its result line and its output block.
pub fn get_no_consensus_results(no_consensus_votes: Vec<Test>) -> (report: String)
    ensures
        report@ == no_consensus_report(records(no_consensus_votes@)),
{
    let ghost votes = records(no_consensus_votes@);
    let ghost parts = votes.map_values(|vote: Record| no_consensus_text(vote));
    let mut builder = new_text();
    push_text(&mut builder, NO_CONSENSUS_HEADING);
    let mut i: usize = 0;
    assert(parts.take(0).flatten() =~= Seq::<char>::empty());
    while i < no_consensus_votes.len()
        invariant
            i <= no_consensus_votes.len(),
            votes == records(no_consensus_votes@),
            parts == votes.map_values(|vote: Record| no_consensus_text(vote)),
            holds_text(builder),
            text_of(builder) == NO_CONSENSUS_HEADING@ + parts.take(i as int).flatten(),
        decreases no_consensus_votes.len() - i,
    {
        let vote = &no_consensus_votes[i];
        let part = no_consensus_part(vote);
        push_text(&mut builder, part.as_str());
        proof {
            assert(votes[i as int] == vote@);
            assert(parts[i as int] == part@);
            assert(parts.take(i + 1) =~= parts.take(i as int).push(parts[i as int]));
            parts.take(i as int).lemma_flatten_push(parts[i as int]);
        }
        i = i + 1;
    }
    assert(parts.take(no_consensus_votes.len() as int) =~= parts);
    into_text(builder)
}

} // verus!
