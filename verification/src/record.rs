use vstd::prelude::*;

verus! {

/// One observed execution of one test under one toolkit.
#[derive(Debug)]
pub struct Test {
    /// Qualified name of the test, such as `suite::case`.
    pub name: String,
    /// The toolkit that produced this record.
    pub toolkit: String,
    /// Whether the test passed.
    pub result: bool,
    /// What the test printed; empty if nothing was captured.
    pub output: String,
    /// Fingerprint of `result` and `output`.
    pub hash: u64,
}

/// The mathematical value of a [`Test`].
pub struct Record {
    pub name: Seq<char>,
    pub toolkit: Seq<char>,
    pub result: bool,
    pub output: Seq<char>,
    pub hash: u64,
}

impl View for Test {
    type V = Record;

    open spec fn view(&self) -> Record {
        Record {
            name: self.name@,
            toolkit: self.toolkit@,
            result: self.result,
            output: self.output@,
            hash: self.hash,
        }
    }
}

impl Clone for Test {
    fn clone(&self) -> (copy: Self)
        ensures
            copy == *self,
    {
        Test {
            name: self.name.clone(),
            toolkit: self.toolkit.clone(),
            result: self.result,
            output: self.output.clone(),
            hash: self.hash,
        }
    }
}

/// The values of a sequence of tests.
pub open spec fn records(tests: Seq<Test>) -> Seq<Record> {
    tests.map_values(|t: Test| t@)
}

/// Whether a record of `s` is called `name`.
pub open spec fn names_record(s: Seq<Record>, name: Seq<char>) -> bool {
    exists|i: int| 0 <= i < s.len() && #[trigger] s[i].name == name
}

/// The agreed-upon result for one test name.
#[derive(Debug)]
pub struct Consensus {
    pub name: String,
    pub result: bool,
    pub output: String,
}

/// The mathematical value of a [`Consensus`].
pub struct Entry {
    pub name: Seq<char>,
    pub result: bool,
    pub output: Seq<char>,
}

impl View for Consensus {
    type V = Entry;

    open spec fn view(&self) -> Entry {
        Entry { name: self.name@, result: self.result, output: self.output@ }
    }
}

/// Every record of a vote, in exactly one of three collections.
#[derive(Debug)]
pub struct VoteResult {
    /// Records whose fingerprint is the consensus for their test name.
    pub matches: Vec<Test>,
    /// Records whose test name has a consensus that their fingerprint differs from.
    pub non_matches: Vec<Test>,
    /// Records of test names for which no two fingerprints agree.
    pub no_consensus: Vec<Test>,
}

} // verus!
