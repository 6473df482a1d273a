use crate::record::{names_record, records, Record, Test, VoteResult};
use crate::ReferendumError;
use vstd::prelude::*;

verus! {

/// The records that carry the fingerprint `hash`.
pub open spec fn with_hash(hash: u64) -> spec_fn(Record) -> bool {
    |r: Record| r.hash == hash
}

/// The records of the test called `name`.
pub open spec fn with_name(name: Seq<char>) -> spec_fn(Record) -> bool {
    |r: Record| r.name == name
}

/// How many records of `s` carry the fingerprint `hash`.
pub open spec fn occurrences(s: Seq<Record>, hash: u64) -> nat {
    s.filter(with_hash(hash)).len()
}

/// `hash` comes before `other` in the vote over `s`: it occurs more often, or
/// as often and is not the larger number.
pub open spec fn outvotes(s: Seq<Record>, hash: u64, other: u64) -> bool {
    occurrences(s, other) < occurrences(s, hash) || (occurrences(s, other) == occurrences(s, hash)
        && hash <= other)
}

/// `hash` is the consensus of `s`: at least two records carry it, and no other
/// fingerprint occurs more often. Among fingerprints that occur equally often
/// the smallest number wins.
pub open spec fn is_consensus(s: Seq<Record>, hash: u64) -> bool {
    &&& occurrences(s, hash) >= 2
    &&& forall|other: u64| #[trigger] outvotes(s, hash, other)
}

/// The consensus fingerprint of `s`, if it has one.
pub open spec fn consensus_hash(s: Seq<Record>) -> Option<u64> {
    if exists|h: u64| is_consensus(s, h) {
        Some(choose|h: u64| is_consensus(s, h))
    } else {
        None
    }
}

/// Where the vote puts a record.
#[derive(Debug, Clone, Copy, PartialEq, Eq, Structural)]
pub enum Verdict {
    Match,
    NonMatch,
    NoConsensus,
}

/// Where the vote over `all` puts the record `r`: by the consensus among the
/// records of `all` that share its name.
pub open spec fn verdict(all: Seq<Record>, r: Record) -> Verdict {
    match consensus_hash(all.filter(with_name(r.name))) {
        None => Verdict::NoConsensus,
        Some(h) => if r.hash == h {
            Verdict::Match
        } else {
            Verdict::NonMatch
        },
    }
}

/// The records that the vote over `all` gives the verdict `v`.
pub open spec fn judged(all: Seq<Record>, v: Verdict) -> spec_fn(Record) -> bool {
    |r: Record| verdict(all, r) == v
}

/// The records of `all` with verdict `v`, in the order of `all`.
pub open spec fn bucket(all: Seq<Record>, v: Verdict) -> Seq<Record> {
    all.filter(judged(all, v))
}

/// A fingerprint that occurs in `s` is carried by one of its records.
pub proof fn lemma_occurs_at(s: Seq<Record>, hash: u64) -> (i: int)
    requires
        occurrences(s, hash) > 0,
    ensures
        0 <= i < s.len(),
        s[i].hash == hash,
{
    let kept = s.filter(with_hash(hash));
    s.lemma_filter_pred(with_hash(hash), 0);
    assert(kept.contains(kept[0]));
    s.lemma_filter_contains_rev(with_hash(hash), kept[0]);
    choose|i: int| 0 <= i < s.len() && s[i] == kept[0]
}

/// A fingerprint carried by a record of `s` occurs in `s`.
pub proof fn lemma_occurs(s: Seq<Record>, i: int)
    requires
        0 <= i < s.len(),
    ensures
        occurrences(s, s[i].hash) >= 1,
{
    s.lemma_filter_contains(with_hash(s[i].hash), i);
}

/// A sequence has at most one consensus.
pub proof fn lemma_consensus_unique(s: Seq<Record>, a: u64, b: u64)
    requires
        is_consensus(s, a),
        is_consensus(s, b),
    ensures
        a == b,
{
    assert(outvotes(s, a, b));
    assert(outvotes(s, b, a));
}

/// The consensus is the one fingerprint that `is_consensus` holds of.
pub proof fn lemma_consensus_is(s: Seq<Record>, hash: u64)
    requires
        is_consensus(s, hash),
    ensures
        consensus_hash(s) == Some(hash),
{
    let chosen = choose|h: u64| is_consensus(s, h);
    lemma_consensus_unique(s, chosen, hash);
}

/// There is no consensus exactly when no fingerprint occurs twice.
pub proof fn lemma_no_consensus(s: Seq<Record>)
    ensures
        consensus_hash(s) is None <==> forall|h: u64| #[trigger] occurrences(s, h) <= 1,
{
    if consensus_hash(s) is None && !(forall|h: u64| #[trigger] occurrences(s, h) <= 1) {
        // Some fingerprint occurs twice: the best of those that occur is a consensus.
        let twice = choose|h: u64| occurrences(s, h) > 1;
        let at = lemma_occurs_at(s, twice);
        let best = lemma_best_exists(s);
        assert(outvotes(s, best, s[at].hash));
        assert forall|other: u64| #[trigger] outvotes(s, best, other) by {
            if occurrences(s, other) > 0 {
                let j = lemma_occurs_at(s, other);
            }
        }
        assert(is_consensus(s, best));
    }
    if consensus_hash(s) is Some {
        let h = consensus_hash(s)->0;
        assert(is_consensus(s, h));
        assert(occurrences(s, h) > 1);
    }
}

/// Among the fingerprints of a sequence that is not empty, one outvotes all.
proof fn lemma_best_exists(s: Seq<Record>) -> (best: u64)
    requires
        s.len() > 0,
    ensures
        occurrences(s, best) >= 1,
        forall|j: int| 0 <= j < s.len() ==> outvotes(s, best, #[trigger] s[j].hash),
{
    lemma_best_of_prefix(s, s.len() as int)
}

proof fn lemma_best_of_prefix(s: Seq<Record>, n: int) -> (best: u64)
    requires
        0 < n <= s.len(),
    ensures
        occurrences(s, best) >= 1,
        forall|j: int| 0 <= j < n ==> outvotes(s, best, #[trigger] s[j].hash),
    decreases n,
{
    let last = s[n - 1].hash;
    lemma_occurs(s, n - 1);
    if n == 1 {
        last
    } else {
        let before = lemma_best_of_prefix(s, n - 1);
        if outvotes(s, before, last) {
            before
        } else {
            last
        }
    }
}

/// The three verdicts split any sequence of records: every record is in
/// exactly one bucket.
pub proof fn lemma_buckets_partition(all: Seq<Record>)
    ensures
        bucket(all, Verdict::Match).len() + bucket(all, Verdict::NonMatch).len() + bucket(
            all,
            Verdict::NoConsensus,
        ).len() == all.len(),
{
    lemma_split_prefix(all, all, all.len() as int);
    assert(all.take(all.len() as int) =~= all);
}

proof fn lemma_split_prefix(all: Seq<Record>, s: Seq<Record>, n: int)
    requires
        0 <= n <= s.len(),
    ensures
        s.take(n).filter(judged(all, Verdict::Match)).len() + s.take(n).filter(
            judged(all, Verdict::NonMatch),
        ).len() + s.take(n).filter(judged(all, Verdict::NoConsensus)).len() == n,
    decreases n,
{
    reveal(Seq::filter);
    if n > 0 {
        lemma_split_prefix(all, s, n - 1);
        assert(s.take(n).drop_last() =~= s.take(n - 1));
    }
}

/// A record that differs from the consensus of its test has a record of the
/// same test among the matches: there is a consensus to differ from only
/// where records agree.
pub proof fn lemma_dissent_has_consensus(all: Seq<Record>, i: int)
    requires
        0 <= i < all.len(),
        verdict(all, all[i]) == Verdict::NonMatch,
    ensures
        names_record(bucket(all, Verdict::Match), all[i].name),
{
    let name = all[i].name;
    let group = all.filter(with_name(name));
    let agreed = consensus_hash(group)->0;
    assert(is_consensus(group, agreed));
    let k = lemma_occurs_at(group, agreed);
    all.lemma_filter_pred(with_name(name), k);
    assert(group.contains(group[k]));
    all.lemma_filter_contains_rev(with_name(name), group[k]);
    let j = choose|j: int| 0 <= j < all.len() && all[j] == group[k];
    assert(verdict(all, all[j]) == Verdict::Match);
    all.lemma_filter_contains(judged(all, Verdict::Match), j);
    let matches = bucket(all, Verdict::Match);
    let m = choose|m: int| 0 <= m < matches.len() && matches[m] == all[j];
    assert(matches[m].name == name);
}

/// How many of `tests` carry the fingerprint `hash`.
fn count_hash(tests: &Vec<Test>, hash: u64) -> (count: usize)
    ensures
        count == occurrences(records(tests@), hash),
{
    let ghost s = records(tests@);
    let mut count: usize = 0;
    let mut i: usize = 0;
    while i < tests.len()
        invariant
            i <= tests.len(),
            s == records(tests@),
            count == occurrences(s.take(i as int), hash),
            count <= i,
        decreases tests.len() - i,
    {
        proof {
            assert(s.take(i + 1) =~= s.take(i as int).push(s[i as int]));
            s.take(i as int).lemma_filter_len_push(with_hash(hash), s[i as int]);
        }
        if tests[i].hash == hash {
            count = count + 1;
        }
        i = i + 1;
    }
    assert(s.take(tests.len() as int) =~= s);
    count
}

/// The consensus fingerprint of `tests`: the one that most records carry, if
/// at least two do. Where several fingerprints occur equally often, the
/// smallest of them is taken, so the answer never depends on the order of the
/// records. Without two records that agree there is no consensus.
pub fn get_consensus_hash(tests: &Vec<Test>) -> (consensus: Option<u64>)
    ensures
        consensus == consensus_hash(records(tests@)),
        consensus matches Some(h) ==> is_consensus(records(tests@), h),
        consensus is None <==> forall|h: u64| #[trigger] occurrences(records(tests@), h) <= 1,
{
    let ghost s = records(tests@);
    let mut best_hash: u64 = 0;
    let mut best_count: usize = 0;
    let mut i: usize = 0;
    while i < tests.len()
        invariant
            i <= tests.len(),
            s == records(tests@),
            i == 0 ==> best_count == 0,
            i > 0 ==> best_count >= 1,
            i > 0 ==> best_count == occurrences(s, best_hash),
            forall|j: int| 0 <= j < i ==> outvotes(s, best_hash, #[trigger] s[j].hash),
        decreases tests.len() - i,
    {
        let hash = tests[i].hash;
        let count = count_hash(tests, hash);
        proof {
            lemma_occurs(s, i as int);
        }
        if count > best_count || (count == best_count && hash < best_hash) {
            best_hash = hash;
            best_count = count;
        }
        i = i + 1;
    }
    proof {
        lemma_no_consensus(s);
        if best_count >= 2 {
            assert forall|other: u64| #[trigger] outvotes(s, best_hash, other) by {
                if occurrences(s, other) > 0 {
                    let j = lemma_occurs_at(s, other);
                }
            }
            lemma_consensus_is(s, best_hash);
        } else {
            assert forall|h: u64| #[trigger] occurrences(s, h) <= 1 by {
                if occurrences(s, h) > 0 {
                    let j = lemma_occurs_at(s, h);
                    assert(outvotes(s, best_hash, s[j].hash));
                }
            }
        }
    }
    if best_count >= 2 {
        Some(best_hash)
    } else {
        None
    }
}

/// Copies of the records of `tests` that belong to the test called `name`, in
/// their order.
fn records_named(tests: &Vec<Test>, name: &String) -> (group: Vec<Test>)
    ensures
        records(group@) == records(tests@).filter(with_name(name@)),
{
    let ghost s = records(tests@);
    let mut group: Vec<Test> = Vec::new();
    let mut i: usize = 0;
    proof {
        reveal(Seq::filter);
        assert(records(group@) =~= s.take(0).filter(with_name(name@)));
    }
    while i < tests.len()
        invariant
            i <= tests.len(),
            s == records(tests@),
            records(group@) == s.take(i as int).filter(with_name(name@)),
        decreases tests.len() - i,
    {
        proof {
            assert(s.take(i + 1) =~= s.take(i as int).push(s[i as int]));
            s.take(i as int).lemma_filter_push(s[i as int], with_name(name@));
        }
        if tests[i].name == *name {
            let ghost before = group@;
            group.push(tests[i].clone());
            assert(records(group@) =~= records(before).push(s[i as int]));
        }
        i = i + 1;
    }
    assert(s.take(tests.len() as int) =~= s);
    group
}

/// Sorts every record into one of three collections, each in the order of
/// `tests`. For each test name the records of that name are taken together:
/// where they have a consensus fingerprint (see [`get_consensus_hash`]), those
/// that carry it are `matches` and the others `non_matches`; where they have
/// none, they all are `no_consensus`. Without any record there is nothing to
/// vote on, and the vote fails with `TestNotFound`.
pub fn vote(tests: Vec<Test>) -> (outcome: Result<VoteResult, ReferendumError>)
    ensures
        match outcome {
            Ok(votes) => {
                &&& tests@.len() > 0
                &&& records(votes.matches@) == bucket(records(tests@), Verdict::Match)
                &&& records(votes.non_matches@) == bucket(records(tests@), Verdict::NonMatch)
                &&& records(votes.no_consensus@) == bucket(records(tests@), Verdict::NoConsensus)
                &&& votes.matches@.len() + votes.non_matches@.len() + votes.no_consensus@.len()
                    == tests@.len()
                &&& forall|k: int|
                    0 <= k < votes.non_matches@.len() ==> names_record(
                        records(votes.matches@),
                        (#[trigger] votes.non_matches@[k]).name@,
                    )
            },
            Err(e) => tests@.len() == 0 && e == ReferendumError::TestNotFound(),
        },
{
    let ghost all = records(tests@);
    let mut matches: Vec<Test> = Vec::new();
    let mut non_matches: Vec<Test> = Vec::new();
    let mut no_consensus: Vec<Test> = Vec::new();
    let mut i: usize = 0;
    proof {
        reveal(Seq::filter);
        assert(records(matches@) =~= all.take(0).filter(judged(all, Verdict::Match)));
        assert(records(non_matches@) =~= all.take(0).filter(judged(all, Verdict::NonMatch)));
        assert(records(no_consensus@) =~= all.take(0).filter(judged(all, Verdict::NoConsensus)));
    }
    while i < tests.len()
        invariant
            i <= tests.len(),
            all == records(tests@),
            records(matches@) == all.take(i as int).filter(judged(all, Verdict::Match)),
            records(non_matches@) == all.take(i as int).filter(judged(all, Verdict::NonMatch)),
            records(no_consensus@) == all.take(i as int).filter(
                judged(all, Verdict::NoConsensus),
            ),
        decreases tests.len() - i,
    {
        let test = &tests[i];
        let group = records_named(&tests, &test.name);
        let consensus = get_consensus_hash(&group);
        proof {
            assert(all[i as int] == test@);
            assert(all.take(i + 1) =~= all.take(i as int).push(test@));
            all.take(i as int).lemma_filter_push(test@, judged(all, Verdict::Match));
            all.take(i as int).lemma_filter_push(test@, judged(all, Verdict::NonMatch));
            all.take(i as int).lemma_filter_push(test@, judged(all, Verdict::NoConsensus));
        }
        match consensus {
            None => {
                let ghost before = no_consensus@;
                no_consensus.push(test.clone());
                assert(records(no_consensus@) =~= records(before).push(test@));
            },
            Some(hash) => {
                if test.hash == hash {
                    let ghost before = matches@;
                    matches.push(test.clone());
                    assert(records(matches@) =~= records(before).push(test@));
                } else {
                    let ghost before = non_matches@;
                    non_matches.push(test.clone());
                    assert(records(non_matches@) =~= records(before).push(test@));
                }
            },
        }
        i = i + 1;
    }
    proof {
        assert(all.take(tests.len() as int) =~= all);
        lemma_buckets_partition(all);
        let dissent = bucket(all, Verdict::NonMatch);
        assert forall|k: int| 0 <= k < non_matches@.len() implies names_record(
            records(matches@),
            (#[trigger] non_matches@[k]).name@,
        ) by {
            assert(records(non_matches@)[k] == dissent[k]);
            all.lemma_filter_pred(judged(all, Verdict::NonMatch), k);
            assert(dissent.contains(dissent[k]));
            all.lemma_filter_contains_rev(judged(all, Verdict::NonMatch), dissent[k]);
            let i = choose|i: int| 0 <= i < all.len() && all[i] == dissent[k];
            lemma_dissent_has_consensus(all, i);
        }
    }
    if tests.len() == 0 {
        Err(ReferendumError::TestNotFound())
    } else {
        Ok(VoteResult { matches, non_matches, no_consensus })
    }
}

} // verus!
