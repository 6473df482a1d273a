use crate::consensus::{
    bucket, consensus_hash, is_consensus, judged, lemma_consensus_is, lemma_no_consensus, occurrences, outvotes, verdict, with_hash, with_name, Verdict,
};
use crate::record::Record;
use vstd::prelude::*;

verus! {

/// Filtering twice keeps what satisfies both tests.
pub proof fn lemma_filter_both<A>(
    s: Seq<A>,
    first: spec_fn(A) -> bool,
    second: spec_fn(A) -> bool,
    both: spec_fn(A) -> bool,
)
    requires
        forall|i: int|
            0 <= i < s.len() ==> both(#[trigger] s[i]) == (first(s[i]) && second(s[i])),
    ensures
        s.filter(first).filter(second) == s.filter(both),
    decreases s.len(),
{
    reveal(Seq::filter);
    if s.len() > 0 {
        let head = s.drop_last();
        assert forall|i: int| 0 <= i < head.len() implies both(#[trigger] head[i]) == (first(
            head[i],
        ) && second(head[i])) by {
            assert(head[i] == s[i]);
        }
        lemma_filter_both(head, first, second, both);
        assert(both(s[s.len() - 1]) == (first(s.last()) && second(s.last())));
        if first(s.last()) {
            head.filter(first).lemma_filter_push(s.last(), second);
        }
    }
}

/// A test that no item passes keeps nothing.
pub proof fn lemma_filter_none<A>(s: Seq<A>, test: spec_fn(A) -> bool)
    requires
        forall|i: int| 0 <= i < s.len() ==> !test(#[trigger] s[i]),
    ensures
        s.filter(test).len() == 0,
    decreases s.len(),
{
    reveal(Seq::filter);
    if s.len() > 0 {
        let head = s.drop_last();
        assert forall|i: int| 0 <= i < head.len() implies !test(#[trigger] head[i]) by {
            assert(head[i] == s[i]);
        }
        lemma_filter_none(head, test);
        assert(!test(s[s.len() - 1]));
    }
}

/// A test that every item passes keeps everything.
pub proof fn lemma_filter_all<A>(s: Seq<A>, test: spec_fn(A) -> bool)
    requires
        forall|i: int| 0 <= i < s.len() ==> test(#[trigger] s[i]),
    ensures
        s.filter(test) == s,
    decreases s.len(),
{
    reveal(Seq::filter);
    if s.len() > 0 {
        let head = s.drop_last();
        assert forall|i: int| 0 <= i < head.len() implies test(#[trigger] head[i]) by {
            assert(head[i] == s[i]);
        }
        lemma_filter_all(head, test);
        assert(test(s[s.len() - 1]));
        assert(head.push(s.last()) =~= s);
    }
}

/// A test that no two items pass keeps at most one.
pub proof fn lemma_filter_at_most_one<A>(s: Seq<A>, test: spec_fn(A) -> bool)
    requires
        forall|i: int, j: int|
            0 <= i < j < s.len() ==> !(test(#[trigger] s[i]) && test(#[trigger] s[j])),
    ensures
        s.filter(test).len() <= 1,
    decreases s.len(),
{
    reveal(Seq::filter);
    if s.len() > 0 {
        let head = s.drop_last();
        let last = s.len() - 1;
        if test(s[last]) {
            assert forall|i: int| 0 <= i < head.len() implies !test(#[trigger] head[i]) by {
                assert(head[i] == s[i]);
                assert(!(test(s[i]) && test(s[last])));
            }
            lemma_filter_none(head, test);
        } else {
            assert forall|i: int, j: int| 0 <= i < j < head.len() implies !(test(
                #[trigger] head[i],
            ) && test(#[trigger] head[j])) by {
                assert(head[i] == s[i] && head[j] == s[j]);
            }
            lemma_filter_at_most_one(head, test);
        }
    }
}

/// The records of one name are the records of that name in the three buckets.
pub proof fn lemma_buckets_partition_name(all: Seq<Record>, name: Seq<char>)
    ensures
        bucket(all, Verdict::Match).filter(with_name(name)).len() + bucket(
            all,
            Verdict::NonMatch,
        ).filter(with_name(name)).len() + bucket(all, Verdict::NoConsensus).filter(
            with_name(name),
        ).len() == all.filter(with_name(name)).len(),
{
    lemma_split_name(all, all, name, all.len() as int);
    assert(all.take(all.len() as int) =~= all);
}

proof fn lemma_split_name(all: Seq<Record>, s: Seq<Record>, name: Seq<char>, n: int)
    requires
        0 <= n <= s.len(),
    ensures
        s.take(n).filter(judged(all, Verdict::Match)).filter(with_name(name)).len() + s.take(
            n,
        ).filter(judged(all, Verdict::NonMatch)).filter(with_name(name)).len() + s.take(n).filter(
            judged(all, Verdict::NoConsensus),
        ).filter(with_name(name)).len() == s.take(n).filter(with_name(name)).len(),
    decreases n,
{
    reveal(Seq::filter);
    if n > 0 {
        let head = s.take(n - 1);
        let last = s[n - 1];
        lemma_split_name(all, s, name, n - 1);
        assert(s.take(n).drop_last() =~= head);
        assert(s.take(n).last() == last);
        head.filter(judged(all, Verdict::Match)).lemma_filter_push(last, with_name(name));
        head.filter(judged(all, Verdict::NonMatch)).lemma_filter_push(last, with_name(name));
        head.filter(judged(all, Verdict::NoConsensus)).lemma_filter_push(last, with_name(name));
    }
}

/// The records of `name` that the vote over `all` gives the verdict `v`.
pub open spec fn named_bucket(all: Seq<Record>, v: Verdict, name: Seq<char>) -> Seq<Record> {
    bucket(all, v).filter(with_name(name))
}

/// Where every record of a name got the verdict `v`, the bucket of `v` holds
/// all the records of the name and the other buckets none.
proof fn lemma_all_in_one_bucket(all: Seq<Record>, name: Seq<char>, v: Verdict)
    requires
        forall|i: int|
            0 <= i < all.len() && (#[trigger] all[i]).name == name ==> verdict(all, all[i]) == v,
    ensures
        named_bucket(all, v, name) == all.filter(with_name(name)),
        forall|other: Verdict| other != v ==> (#[trigger] named_bucket(all, other, name)).len() == 0,
{
    lemma_filter_both(all, judged(all, v), with_name(name), with_name(name));
    assert forall|other: Verdict| other != v implies (#[trigger] named_bucket(
        all,
        other,
        name,
    )).len() == 0 by {
        let never = |r: Record| false;
        lemma_filter_both(all, judged(all, other), with_name(name), never);
        lemma_filter_none(all, never);
    }
}

/// Where all the records of a test name, at least two, carry one fingerprint,
/// the vote puts every one of them among the matches and none elsewhere.
pub proof fn lemma_unanimous(all: Seq<Record>, name: Seq<char>, hash: u64)
    requires
        all.filter(with_name(name)).len() >= 2,
        forall|i: int| 0 <= i < all.len() && (#[trigger] all[i]).name == name ==> all[i].hash == hash,
    ensures
        consensus_hash(all.filter(with_name(name))) == Some(hash),
        forall|i: int|
            0 <= i < all.len() && (#[trigger] all[i]).name == name ==> verdict(all, all[i])
                == Verdict::Match,
        named_bucket(all, Verdict::Match, name) == all.filter(with_name(name)),
        named_bucket(all, Verdict::NonMatch, name).len() == 0,
        named_bucket(all, Verdict::NoConsensus, name).len() == 0,
{
    let group = all.filter(with_name(name));
    assert forall|k: int| 0 <= k < group.len() implies (#[trigger] group[k]).hash == hash
        && group[k].name == name by {
        all.lemma_filter_pred(with_name(name), k);
        assert(group.contains(group[k]));
        all.lemma_filter_contains_rev(with_name(name), group[k]);
        let i = choose|i: int| 0 <= i < all.len() && all[i] == group[k];
        assert(all[i].name == name);
    }
    assert forall|k: int| 0 <= k < group.len() implies with_hash(hash)(#[trigger] group[k]) by {
        assert(group[k].hash == hash);
    }
    lemma_filter_all(group, with_hash(hash));
    assert forall|other: u64| #[trigger] outvotes(group, hash, other) by {
        if other != hash {
            assert forall|k: int| 0 <= k < group.len() implies !with_hash(other)(
                #[trigger] group[k],
            ) by {
                assert(group[k].hash == hash);
            }
            lemma_filter_none(group, with_hash(other));
        }
    }
    assert(is_consensus(group, hash));
    lemma_consensus_is(group, hash);
    lemma_all_in_one_bucket(all, name, Verdict::Match);
}

/// Where no two records of a test name carry the same fingerprint, the vote
/// puts every one of them among those without consensus and none elsewhere.
pub proof fn lemma_all_different(all: Seq<Record>, name: Seq<char>)
    requires
        forall|i: int, j: int|
            0 <= i < j < all.len() && (#[trigger] all[i]).name == name && (#[trigger] all[j]).name
                == name ==> all[i].hash != all[j].hash,
    ensures
        consensus_hash(all.filter(with_name(name))) is None,
        forall|i: int|
            0 <= i < all.len() && (#[trigger] all[i]).name == name ==> verdict(all, all[i])
                == Verdict::NoConsensus,
        named_bucket(all, Verdict::NoConsensus, name) == all.filter(with_name(name)),
        named_bucket(all, Verdict::Match, name).len() == 0,
        named_bucket(all, Verdict::NonMatch, name).len() == 0,
{
    let group = all.filter(with_name(name));
    assert forall|h: u64| #[trigger] occurrences(group, h) <= 1 by {
        let both = |r: Record| r.name == name && r.hash == h;
        lemma_filter_both(all, with_name(name), with_hash(h), both);
        assert forall|i: int, j: int| 0 <= i < j < all.len() implies !(both(#[trigger] all[i])
            && both(#[trigger] all[j])) by {
            if all[i].name == name && all[j].name == name {
                assert(all[i].hash != all[j].hash);
            }
        }
        lemma_filter_at_most_one(all, both);
    }
    lemma_no_consensus(group);
    lemma_all_in_one_bucket(all, name, Verdict::NoConsensus);
}

/// Three different fingerprints cannot occur more often together than there
/// are records.
proof fn lemma_occurrences_fit(s: Seq<Record>, a: u64, b: u64, c: u64)
    requires
        a != b,
        a != c,
        b != c,
    ensures
        occurrences(s, a) + occurrences(s, b) + occurrences(s, c) <= s.len(),
    decreases s.len(),
{
    reveal(Seq::filter);
    if s.len() > 0 {
        lemma_occurrences_fit(s.drop_last(), a, b, c);
    }
}

/// A fingerprint that at least two records carry, and that occurs more often
/// than any other, is the consensus.
pub proof fn lemma_majority_wins(s: Seq<Record>, hash: u64)
    requires
        occurrences(s, hash) >= 2,
        forall|other: u64| other != hash ==> #[trigger] occurrences(s, other) < occurrences(s, hash),
    ensures
        consensus_hash(s) == Some(hash),
{
    assert forall|other: u64| #[trigger] outvotes(s, hash, other) by {
        if other != hash {
            assert(occurrences(s, other) < occurrences(s, hash));
        }
    }
    lemma_consensus_is(s, hash);
}

/// Where the three records of a test name split two against one, the two that
/// agree are matches and the one that differs is a non-match.
pub proof fn lemma_two_against_one(all: Seq<Record>, name: Seq<char>, agreed: u64, lone: u64)
    requires
        all.filter(with_name(name)).len() == 3,
        occurrences(all.filter(with_name(name)), agreed) == 2,
        occurrences(all.filter(with_name(name)), lone) == 1,
    ensures
        consensus_hash(all.filter(with_name(name))) == Some(agreed),
        forall|i: int|
            0 <= i < all.len() && (#[trigger] all[i]).name == name ==> verdict(all, all[i]) == (
            if all[i].hash == agreed {
                Verdict::Match
            } else {
                Verdict::NonMatch
            }),
        named_bucket(all, Verdict::Match, name).len() == 2,
        named_bucket(all, Verdict::NonMatch, name).len() == 1,
        named_bucket(all, Verdict::NoConsensus, name).len() == 0,
{
    let group = all.filter(with_name(name));
    assert forall|other: u64| other != agreed implies #[trigger] occurrences(group, other)
        < occurrences(group, agreed) by {
        if other != lone {
            lemma_occurrences_fit(group, agreed, lone, other);
        }
    }
    lemma_majority_wins(group, agreed);
    let matching = |r: Record| r.name == name && r.hash == agreed;
    lemma_filter_both(all, judged(all, Verdict::Match), with_name(name), matching);
    lemma_filter_both(all, with_name(name), with_hash(agreed), matching);
    let never = |r: Record| false;
    lemma_filter_both(all, judged(all, Verdict::NoConsensus), with_name(name), never);
    lemma_filter_none(all, never);
    lemma_buckets_partition_name(all, name);
}

/// What a test keeps of a sequence, taken without its order, is what the test
/// keeps of the sequence taken without its order.
pub proof fn lemma_filter_without_order<A>(s: Seq<A>, test: spec_fn(A) -> bool)
    ensures
        s.filter(test).to_multiset() == s.to_multiset().filter(test),
    decreases s.len(),
{
    broadcast use {vstd::multiset::group_multiset_axioms, vstd::multiset::group_multiset_properties};

    reveal(Seq::filter);
    let kept = s.filter(test).to_multiset();
    let wanted = s.to_multiset().filter(test);
    if s.len() == 0 {
        s.to_multiset_ensures();
        s.filter(test).to_multiset_ensures();
        assert forall|v: A| kept.count(v) == wanted.count(v) by {
            assert(s.to_multiset().count(v) <= s.to_multiset().len());
            assert(kept.count(v) <= kept.len());
        }
    } else {
        let head = s.drop_last();
        let last = s.last();
        lemma_filter_without_order(head, test);
        assert(head.push(last) =~= s);
        vstd::seq_lib::to_multiset_build(head, last);
        assert(s.to_multiset() == head.to_multiset().insert(last));
        if test(last) {
            vstd::seq_lib::to_multiset_build(head.filter(test), last);
            assert(kept == head.to_multiset().filter(test).insert(last));
        } else {
            assert(kept == head.to_multiset().filter(test));
        }
        assert forall|v: A| kept.count(v) == wanted.count(v) by {
            if v == last {
                assert(head.to_multiset().insert(last).count(v) == head.to_multiset().count(v) + 1);
            } else {
                assert(head.to_multiset().insert(last).count(v) == head.to_multiset().count(v));
            }
        }
    }
    assert(kept =~= wanted);
}

/// Every record is in exactly one bucket: the three buckets together hold
/// the records that were voted on, each as often as it came in.
pub proof fn lemma_buckets_hold_all(all: Seq<Record>)
    ensures
        bucket(all, Verdict::Match).to_multiset().add(
            bucket(all, Verdict::NonMatch).to_multiset(),
        ).add(bucket(all, Verdict::NoConsensus).to_multiset()) == all.to_multiset(),
{
    broadcast use vstd::multiset::group_multiset_axioms;

    lemma_filter_without_order(all, judged(all, Verdict::Match));
    lemma_filter_without_order(all, judged(all, Verdict::NonMatch));
    lemma_filter_without_order(all, judged(all, Verdict::NoConsensus));
    let together = bucket(all, Verdict::Match).to_multiset().add(
        bucket(all, Verdict::NonMatch).to_multiset(),
    ).add(bucket(all, Verdict::NoConsensus).to_multiset());
    assert forall|r: Record| together.count(r) == all.to_multiset().count(r) by {
        assert(verdict(all, r) == Verdict::Match || verdict(all, r) == Verdict::NonMatch
            || verdict(all, r) == Verdict::NoConsensus);
    }
    assert(together =~= all.to_multiset());
}

/// The consensus does not depend on the order of the records.
pub proof fn lemma_consensus_without_order(a: Seq<Record>, b: Seq<Record>)
    requires
        a.to_multiset() == b.to_multiset(),
    ensures
        consensus_hash(a) == consensus_hash(b),
{
    assert forall|h: u64| occurrences(a, h) == occurrences(b, h) by {
        lemma_filter_without_order(a, with_hash(h));
        lemma_filter_without_order(b, with_hash(h));
        a.filter(with_hash(h)).to_multiset_ensures();
        b.filter(with_hash(h)).to_multiset_ensures();
    }
    assert forall|h: u64| is_consensus(a, h) == is_consensus(b, h) by {
        if is_consensus(a, h) {
            assert forall|other: u64| #[trigger] outvotes(b, h, other) by {
                assert(outvotes(a, h, other));
            }
        }
        if is_consensus(b, h) {
            assert forall|other: u64| #[trigger] outvotes(a, h, other) by {
                assert(outvotes(b, h, other));
            }
        }
    }
    if consensus_hash(a) is Some {
        let h = consensus_hash(a)->0;
        assert(is_consensus(b, h));
        lemma_consensus_is(b, h);
    } else if consensus_hash(b) is Some {
        let h = consensus_hash(b)->0;
        assert(is_consensus(a, h));
        lemma_consensus_is(a, h);
    }
}

/// The vote does not depend on the order in which the records come in: the
/// same records in another order give each record the same verdict.
pub proof fn lemma_vote_without_order(a: Seq<Record>, b: Seq<Record>, r: Record)
    requires
        a.to_multiset() == b.to_multiset(),
    ensures
        verdict(a, r) == verdict(b, r),
{
    lemma_filter_without_order(a, with_name(r.name));
    lemma_filter_without_order(b, with_name(r.name));
    lemma_consensus_without_order(a.filter(with_name(r.name)), b.filter(with_name(r.name)));
}

} // verus!
