//! The names of the tests that a transcript mentions.

use crate::error::ReferendumError;
use crate::lines::{spaced, spaced_lines};
use crate::pattern::{compile, find_all, regex_accepts, regex_find_all};
use crate::text::{
    ascending, lemma_ascending_unique, lemma_precedes_transitive, order_of, precedes,
    remove_first, texts, to_chars, without_first, Order,
};
use vstd::prelude::*;

verus! {

/// The pattern of a test name where a transcript announces a test.
pub const NAME_TOKEN: &'static str = "test [a-zA-z_0-9]+::[a-zA-Z_0-9]+";

/// What stands before the name in a name token.
pub const NAME_PREFIX: &'static str = "test ";

/// The test name that a name token holds: the token without its first
/// `test `.
pub open spec fn name_of(token: Seq<char>) -> Seq<char> {
    without_first(token, NAME_PREFIX@)
}

/// `name` is the name of one of the tokens.
pub open spec fn is_named(tokens: Seq<Seq<char>>, name: Seq<char>) -> bool {
    exists|k: int| 0 <= k < tokens.len() && name_of(#[trigger] tokens[k]) == name
}

/// `names` is the sorted set of the names of `tokens`: it holds each of them
/// once and nothing else, in the order of strings.
pub open spec fn is_name_set(names: Seq<Seq<char>>, tokens: Seq<Seq<char>>) -> bool {
    &&& ascending(names)
    &&& forall|name: Seq<char>| #[trigger] names.contains(name) <==> is_named(tokens, name)
}

/// The sorted set of the names of `tokens`.
pub open spec fn name_set(tokens: Seq<Seq<char>>) -> Seq<Seq<char>> {
    choose|names: Seq<Seq<char>>| is_name_set(names, tokens)
}

/// A sequence that is the sorted set of the names of `tokens` is `name_set`
/// of them.
pub proof fn lemma_name_set_is(names: Seq<Seq<char>>, tokens: Seq<Seq<char>>)
    requires
        is_name_set(names, tokens),
    ensures
        names == name_set(tokens),
{
    let chosen = name_set(tokens);
    assert(is_name_set(chosen, tokens));
    assert forall|x: Seq<char>| #[trigger] names.contains(x) <==> chosen.contains(x) by {
        assert(names.contains(x) <==> is_named(tokens, x));
        assert(chosen.contains(x) <==> is_named(tokens, x));
    }
    lemma_ascending_unique(names, chosen);
}

/// Puts `name` at its place in the ascending `names`, unless it is there
/// already.
fn insert_name(names: &mut Vec<String>, name: String)
    requires
        ascending(texts(old(names)@)),
    ensures
        ascending(texts(final(names)@)),
        forall|x: Seq<char>| #[trigger]
            texts(final(names)@).contains(x) <==> texts(old(names)@).contains(x) || x == name@,
{
    let ghost before = texts(names@);
    let chars = to_chars(name.as_str());
    let mut i: usize = 0;
    while i < names.len()
        invariant
            i <= names.len(),
            before == texts(names@),
            before == texts(old(names)@),
            ascending(before),
            chars@ == name@,
            forall|j: int| 0 <= j < i ==> precedes(#[trigger] before[j], name@),
        decreases names.len() - i,
    {
        let other = to_chars(names[i].as_str());
        assert(other@ == before[i as int]);
        match order_of(&chars, &other) {
            Order::Same => {
                assert forall|x: Seq<char>| #[trigger]
                    before.contains(x) <==> before.contains(x) || x == name@ by {
                    assert(before[i as int] == name@);
                }
                return ;
            },
            Order::Before => {
                names.insert(i, name);
                proof {
                    let after = texts(names@);
                    assert(after =~= before.insert(i as int, name@));
                    assert forall|p: int, q: int| 0 <= p < q < after.len() implies precedes(
                        #[trigger] after[p],
                        #[trigger] after[q],
                    ) by {
                        if q < i {
                            assert(precedes(before[p], before[q]));
                        } else if q == i {
                            assert(precedes(before[p], name@));
                        } else if p < i {
                            assert(precedes(before[p], before[q - 1]));
                        } else if p == i {
                            if q - 1 > i {
                                assert(precedes(before[i as int], before[q - 1]));
                                lemma_precedes_transitive(name@, before[i as int], before[q - 1]);
                            }
                        } else {
                            assert(precedes(before[p - 1], before[q - 1]));
                        }
                    }
                    assert forall|x: Seq<char>| #[trigger]
                        after.contains(x) <==> before.contains(x) || x == name@ by {
                        if after.contains(x) {
                            let k = choose|k: int| 0 <= k < after.len() && after[k] == x;
                            if k < i {
                                assert(before[k] == x);
                            } else if k > i {
                                assert(before[k - 1] == x);
                            }
                        }
                        if before.contains(x) {
                            let k = choose|k: int| 0 <= k < before.len() && before[k] == x;
                            if k < i {
                                assert(after[k] == x);
                            } else {
                                assert(after[k + 1] == x);
                            }
                        }
                        if x == name@ {
                            assert(after[i as int] == x);
                        }
                    }
                }
                return ;
            },
            Order::After => {},
        }
        i = i + 1;
    }
    names.push(name);
    proof {
        let after = texts(names@);
        assert(after =~= before.push(name@));
        assert forall|p: int, q: int| 0 <= p < q < after.len() implies precedes(
            #[trigger] after[p],
            #[trigger] after[q],
        ) by {
            if q < before.len() {
                assert(precedes(before[p], before[q]));
            } else {
                assert(precedes(before[p], name@));
            }
        }
        assert forall|x: Seq<char>| #[trigger]
            after.contains(x) <==> before.contains(x) || x == name@ by {
            if after.contains(x) {
                let k = choose|k: int| 0 <= k < after.len() && after[k] == x;
                if k < before.len() {
                    assert(before[k] == x);
                }
            }
            if before.contains(x) {
                let k = choose|k: int| 0 <= k < before.len() && before[k] == x;
                assert(after[k] == x);
            }
            if x == name@ {
                assert(after[before.len() as int] == x);
            }
        }
    }
}

/// The sorted set of the test names that the name tokens of a transcript
/// hold.
pub fn names_from_tokens(tokens: &Vec<String>) -> (names: Vec<String>)
    ensures
        is_name_set(texts(names@), texts(tokens@)),
        texts(names@) == name_set(texts(tokens@)),
{
    let ghost all = texts(tokens@);
    let mut names: Vec<String> = Vec::new();
    let mut i: usize = 0;
    assert(is_name_set(texts(names@), all.take(0)));
    while i < tokens.len()
        invariant
            i <= tokens.len(),
            all == texts(tokens@),
            is_name_set(texts(names@), all.take(i as int)),
        decreases tokens.len() - i,
    {
        let ghost before = texts(names@);
        let name = remove_first(tokens[i].as_str(), NAME_PREFIX);
        let ghost added = name@;
        assert(added == name_of(all[i as int]));
        insert_name(&mut names, name);
        proof {
            let after = texts(names@);
            let seen = all.take(i as int);
            let now = all.take(i + 1);
            assert forall|x: Seq<char>| #[trigger] after.contains(x) <==> is_named(now, x) by {
                assert(before.contains(x) <==> is_named(seen, x));
                if is_named(seen, x) {
                    let k = choose|k: int| 0 <= k < seen.len() && name_of(#[trigger] seen[k]) == x;
                    assert(name_of(now[k]) == x);
                }
                if x == added {
                    assert(name_of(now[i as int]) == x);
                }
                if is_named(now, x) {
                    let k = choose|k: int| 0 <= k < now.len() && name_of(#[trigger] now[k]) == x;
                    if k < i {
                        assert(name_of(seen[k]) == x);
                    }
                }
            }
        }
        i = i + 1;
    }
    proof {
        assert(all.take(tokens.len() as int) =~= all);
        lemma_name_set_is(texts(names@), all);
    }
    names
}

/// The test names of a transcript: the sorted set of the names in the name
/// tokens that the transcript holds.
pub open spec fn test_names(lines: Seq<Seq<char>>) -> Seq<Seq<char>> {
    name_set(regex_find_all(NAME_TOKEN@, spaced(lines)))
}

/// The names of the tests that a transcript mentions, each once, in the order
/// of strings. The transcript is searched as a whole for name tokens. The
/// extraction fails where the pattern of a name token is not taken.
pub fn get_test_names(lines: &[String]) -> (found: Result<Vec<String>, ReferendumError>)
    ensures
        match found {
            Ok(names) => {
                &&& regex_accepts(NAME_TOKEN@)
                &&& texts(names@) == test_names(texts(lines@))
                &&& is_name_set(
                    texts(names@),
                    regex_find_all(NAME_TOKEN@, spaced(texts(lines@))),
                )
            },
            Err(e) => !regex_accepts(NAME_TOKEN@) && e
                == ReferendumError::TestResultExtractionFailure(),
        },
{
    let token = compile(NAME_TOKEN)?;
    let haystack = spaced_lines(lines);
    let tokens = find_all(&token, haystack.as_str());
    Ok(names_from_tokens(&tokens))
}

} // verus!
