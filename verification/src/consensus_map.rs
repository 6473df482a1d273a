use crate::record::{names_record, records, Consensus, Entry, Record, Test};
use vstd::prelude::*;

verus! {

/// The entry that stands for a record.
pub open spec fn entry_of(r: Record) -> Entry {
    Entry { name: r.name, result: r.result, output: r.output }
}

/// Where in `entries` the first entry called `name` stands, if there is one.
pub open spec fn position(entries: Seq<Entry>, name: Seq<char>) -> Option<int>
    decreases entries.len(),
{
    if entries.len() == 0 {
        None
    } else if entries[0].name == name {
        Some(0)
    } else {
        match position(entries.drop_first(), name) {
            Some(i) => Some(i + 1),
            None => None,
        }
    }
}

/// Whether an entry of `entries` is called `name`.
pub open spec fn has_name(entries: Seq<Entry>, name: Seq<char>) -> bool {
    exists|i: int| 0 <= i < entries.len() && #[trigger] entries[i].name == name
}

/// No two entries share a name.
pub open spec fn distinct_names(entries: Seq<Entry>) -> bool {
    forall|i: int, j: int|
        0 <= i < j < entries.len() ==> #[trigger] entries[i].name != #[trigger] entries[j].name
}

/// One entry per test name of `s`, made from the first record of that name, in
/// the order in which the names first occur.
pub open spec fn first_of_each_name(s: Seq<Record>) -> Seq<Entry>
    decreases s.len(),
{
    if s.len() == 0 {
        Seq::empty()
    } else {
        let before = first_of_each_name(s.drop_last());
        if has_name(before, s.last().name) {
            before
        } else {
            before.push(entry_of(s.last()))
        }
    }
}

/// `position` finds the first entry of the name, and nothing where none has it.
pub proof fn lemma_position(entries: Seq<Entry>, name: Seq<char>)
    ensures
        match position(entries, name) {
            Some(i) => {
                &&& 0 <= i < entries.len()
                &&& entries[i].name == name
                &&& forall|j: int| 0 <= j < i ==> (#[trigger] entries[j]).name != name
            },
            None => !has_name(entries, name),
        },
    decreases entries.len(),
{
    if entries.len() > 0 && entries[0].name != name {
        let rest = entries.drop_first();
        lemma_position(rest, name);
        match position(rest, name) {
            Some(i) => {
                assert forall|j: int| 0 <= j < i + 1 implies (#[trigger] entries[j]).name
                    != name by {
                    if j > 0 {
                        assert(rest[j - 1] == entries[j]);
                    }
                }
            },
            None => {
                assert forall|j: int| 0 <= j < entries.len() implies (#[trigger] entries[j]).name
                    != name by {
                    if j > 0 {
                        assert(rest[j - 1].name != name);
                    }
                }
            },
        }
    }
}

/// The first entry of a name is where `position` says.
pub proof fn lemma_position_is(entries: Seq<Entry>, name: Seq<char>, k: int)
    requires
        0 <= k < entries.len(),
        entries[k].name == name,
        forall|j: int| 0 <= j < k ==> (#[trigger] entries[j]).name != name,
    ensures
        position(entries, name) == Some(k),
{
    lemma_position(entries, name);
    assert(has_name(entries, name));
}

/// The names of the entries are the names of the records.
pub proof fn lemma_same_names(s: Seq<Record>, name: Seq<char>)
    ensures
        has_name(first_of_each_name(s), name) <==> names_record(s, name),
    decreases s.len(),
{
    if s.len() > 0 {
        let head = s.drop_last();
        let before = first_of_each_name(head);
        let now = first_of_each_name(s);
        lemma_same_names(head, name);
        if has_name(now, name) {
            let k = choose|k: int| 0 <= k < now.len() && #[trigger] now[k].name == name;
            if k < before.len() {
                assert(before[k].name == name);
                let i = choose|i: int| 0 <= i < head.len() && #[trigger] head[i].name == name;
                assert(s[i].name == name);
            } else {
                assert(s[s.len() - 1].name == name);
            }
        }
        if names_record(s, name) {
            let i = choose|i: int| 0 <= i < s.len() && #[trigger] s[i].name == name;
            if i < head.len() {
                assert(head[i].name == name);
                let k = choose|k: int| 0 <= k < before.len() && #[trigger] before[k].name == name;
                assert(now[k].name == name);
            } else if has_name(before, name) {
                let k = choose|k: int| 0 <= k < before.len() && #[trigger] before[k].name == name;
                assert(now[k].name == name);
            } else {
                assert(now[now.len() - 1].name == name);
            }
        }
    }
}

/// No two entries of `first_of_each_name` share a name.
pub proof fn lemma_one_entry_each(s: Seq<Record>)
    ensures
        distinct_names(first_of_each_name(s)),
    decreases s.len(),
{
    if s.len() > 0 {
        let before = first_of_each_name(s.drop_last());
        let now = first_of_each_name(s);
        lemma_one_entry_each(s.drop_last());
        assert forall|i: int, j: int| 0 <= i < j < now.len() implies (#[trigger] now[i]).name != (
        #[trigger] now[j]).name by {
            if j < before.len() {
                assert(before[i].name != before[j].name);
            } else {
                assert(before[i].name != s.last().name);
            }
        }
    }
}

/// The entry of the name of `r` is made from `r`.
pub open spec fn stands_for(entries: Seq<Entry>, r: Record) -> bool {
    position(entries, r.name) matches Some(k) && entries[k] == entry_of(r)
}

/// The record at `i` is the first of its name.
pub open spec fn is_first_of_name(s: Seq<Record>, i: int) -> bool {
    0 <= i < s.len() && forall|j: int| 0 <= j < i ==> (#[trigger] s[j]).name != s[i].name
}

/// The entry of a name stands for the first record of that name.
pub proof fn lemma_entry_is_first(s: Seq<Record>, i: int)
    requires
        is_first_of_name(s, i),
    ensures
        stands_for(first_of_each_name(s), s[i]),
    decreases s.len(),
{
    let head = s.drop_last();
    let before = first_of_each_name(head);
    let now = first_of_each_name(s);
    let name = s[i].name;
    if i < head.len() {
        assert forall|j: int| 0 <= j < i implies (#[trigger] head[j]).name != head[i].name by {
            assert(head[j] == s[j]);
        }
        lemma_entry_is_first(head, i);
        lemma_position(before, name);
        let k = position(before, name)->0;
        assert(now[k] == before[k]);
        assert forall|j: int| 0 <= j < k implies (#[trigger] now[j]).name != name by {
            assert(now[j] == before[j]);
        }
        lemma_position_is(now, name, k);
    } else {
        lemma_same_names(head, name);
        if names_record(head, name) {
            let j = choose|j: int| 0 <= j < head.len() && #[trigger] head[j].name == name;
            assert(s[j].name == name);
        }
        let k = before.len() as int;
        assert(now[k] == entry_of(s[i]));
        assert forall|j: int| 0 <= j < k implies (#[trigger] now[j]).name != name by {
            assert(now[j] == before[j]);
        }
        lemma_position_is(now, name, k);
    }
}

/// The consensus entries by test name, at most one for each name, kept in the
/// order in which the names came in.
#[derive(Debug)]
pub struct ConsensusMap {
    entries: Vec<Consensus>,
}

impl ConsensusMap {
    /// The entries, in the order in which their names came in.
    pub closed spec fn view(&self) -> Seq<Entry> {
        self.entries@.map_values(|c: Consensus| c@)
    }

    /// The invariant of the type: no two entries share a name.
    pub open spec fn wf(&self) -> bool {
        distinct_names(self@)
    }

    /// A map without entries.
    pub fn new() -> (map: Self)
        ensures
            map@ == Seq::<Entry>::empty(),
            map.wf(),
    {
        let entries: Vec<Consensus> = Vec::new();
        assert(entries@.map_values(|c: Consensus| c@) =~= Seq::<Entry>::empty());
        ConsensusMap { entries }
    }

    /// The number of entries.
    pub fn len(&self) -> (n: usize)
        ensures
            n == self@.len(),
    {
        self.entries.len()
    }

    /// Where the entry called `name` stands, if there is one.
    fn find(&self, name: &String) -> (at: Option<usize>)
        ensures
            match at {
                Some(i) => position(self@, name@) == Some(i as int) && i < self@.len(),
                None => position(self@, name@) is None,
            },
    {
        let ghost all = self@;
        let mut i: usize = 0;
        while i < self.entries.len()
            invariant
                i <= self.entries.len(),
                all == self@,
                self@.len() == self.entries.len(),
                forall|j: int| 0 <= j < i ==> (#[trigger] all[j]).name != name@,
            decreases self.entries.len() - i,
        {
            if self.entries[i].name == *name {
                proof {
                    assert(all[i as int].name == name@);
                    lemma_position(all, name@);
                }
                return Some(i);
            }
            i = i + 1;
        }
        proof {
            lemma_position(all, name@);
        }
        None
    }

    /// Whether the map has an entry called `name`.
    pub fn contains_key(&self, name: &String) -> (found: bool)
        ensures
            found == has_name(self@, name@),
    {
        proof {
            lemma_position(self@, name@);
        }
        self.find(name).is_some()
    }

    /// The entry called `name`, if the map has one.
    pub fn get(&self, name: &String) -> (found: Option<&Consensus>)
        ensures
            match found {
                Some(entry) => position(self@, name@) matches Some(i) && self@[i] == entry@,
                None => !has_name(self@, name@),
            },
    {
        proof {
            lemma_position(self@, name@);
        }
        match self.find(name) {
            Some(i) => Some(&self.entries[i]),
            None => None,
        }
    }

    /// The entry at `index`, counted in the order in which the names came in.
    pub fn entry(&self, index: usize) -> (entry: &Consensus)
        requires
            index < self@.len(),
        ensures
            entry@ == self@[index as int],
    {
        &self.entries[index]
    }

    /// Gives `entry` its place: behind the others where its name is new, and
    /// otherwise in place of the entry that had the name.
    pub fn insert(&mut self, entry: Consensus)
        requires
            old(self).wf(),
        ensures
            final(self).wf(),
            match position(old(self)@, entry@.name) {
                Some(i) => final(self)@ == old(self)@.update(i, entry@),
                None => final(self)@ == old(self)@.push(entry@),
            },
    {
        proof {
            lemma_position(self@, entry@.name);
        }
        let ghost before = self@;
        let ghost added = entry@;
        match self.find(&entry.name) {
            Some(i) => {
                self.entries.set(i, entry);
                proof {
                    let after = self.entries@.map_values(|c: Consensus| c@);
                    assert(after =~= before.update(i as int, added));
                    assert forall|a: int, b: int| 0 <= a < b < after.len() implies (
                    #[trigger] after[a]).name != (#[trigger] after[b]).name by {
                        assert(before[a].name != before[b].name);
                    }
                }
            },
            None => {
                self.entries.push(entry);
                proof {
                    let after = self.entries@.map_values(|c: Consensus| c@);
                    assert(after =~= before.push(added));
                    assert forall|a: int, b: int| 0 <= a < b < after.len() implies (
                    #[trigger] after[a]).name != (#[trigger] after[b]).name by {
                        if b < before.len() {
                            assert(before[a].name != before[b].name);
                        } else {
                            assert(before[a].name != added.name);
                        }
                    }
                }
            },
        }
    }
}

/// Reduces the records that agreed to one entry for each test name: that of
/// the first record of the name. The entries stand in the order in which the
/// names first occur. The records of one name that agreed have the same
/// result and output, so any of them could stand for the name; the first does.
pub fn generate_consensus_map(consensus_votes: &Vec<Test>) -> (map: ConsensusMap)
    ensures
        map@ == first_of_each_name(records(consensus_votes@)),
        map.wf(),
        forall|name: Seq<char>| #[trigger]
            has_name(map@, name) <==> names_record(records(consensus_votes@), name),
        forall|i: int|
            0 <= i < consensus_votes@.len() ==> has_name(map@, (#[trigger] consensus_votes@[i]).name@),
        forall|i: int| #[trigger]
            is_first_of_name(records(consensus_votes@), i) ==> stands_for(
                map@,
                consensus_votes@[i]@,
            ),
{
    let ghost s = records(consensus_votes@);
    let mut map = ConsensusMap::new();
    let mut i: usize = 0;
    while i < consensus_votes.len()
        invariant
            i <= consensus_votes.len(),
            s == records(consensus_votes@),
            map@ == first_of_each_name(s.take(i as int)),
            map.wf(),
        decreases consensus_votes.len() - i,
    {
        let vote = &consensus_votes[i];
        proof {
            assert(s.take(i + 1).drop_last() =~= s.take(i as int));
            assert(s.take(i + 1).last() == vote@);
            lemma_position(map@, vote@.name);
        }
        if !map.contains_key(&vote.name) {
            let entry = Consensus {
                name: vote.name.clone(),
                result: vote.result,
                output: vote.output.clone(),
            };
            assert(entry@ == entry_of(vote@));
            map.insert(entry);
        }
        i = i + 1;
    }
    proof {
        assert(s.take(consensus_votes.len() as int) =~= s);
        lemma_one_entry_each(s);
        assert forall|i: int| 0 <= i < consensus_votes@.len() implies has_name(
            map@,
            (#[trigger] consensus_votes@[i]).name@,
        ) by {
            assert(s[i].name == consensus_votes@[i].name@);
            lemma_same_names(s, s[i].name);
        }
        assert forall|name: Seq<char>| #[trigger]
            has_name(map@, name) <==> names_record(s, name) by {
            lemma_same_names(s, name);
        }
        assert forall|i: int| #[trigger] is_first_of_name(s, i) implies stands_for(
            map@,
            consensus_votes@[i]@,
        ) by {
            lemma_entry_is_first(s, i);
            assert(s[i] == consensus_votes@[i]@);
        }
    }
    map
}

} // verus!
