use vstd::prelude::*;
use vstd::string::StringExecFns;

verus! {

/// `String::push`: appends one character to the end of the string.
pub assume_specification[ String::push ](s: &mut String, ch: char)
    ensures
        final(s)@ == old(s)@.push(ch),
;

/// What each string of a sequence holds.
pub open spec fn texts(strings: Seq<String>) -> Seq<Seq<char>> {
    strings.map_values(|s: String| s@)
}

/// `needle` stands in `hay` at position `at`.
pub open spec fn occurs_at(hay: Seq<char>, needle: Seq<char>, at: int) -> bool {
    0 <= at && at + needle.len() <= hay.len() && hay.subrange(at, at + needle.len()) == needle
}

/// `needle` stands somewhere in `hay`.
pub open spec fn contains(hay: Seq<char>, needle: Seq<char>) -> bool {
    exists|at: int| occurs_at(hay, needle, at)
}

/// `at` is the first position at which `needle` stands in `hay`.
pub open spec fn first_occurs_at(hay: Seq<char>, needle: Seq<char>, at: int) -> bool {
    occurs_at(hay, needle, at) && forall|before: int|
        0 <= before < at ==> !occurs_at(hay, needle, before)
}

/// `s` without the first occurrence of `needle`; `s` itself where there is none.
pub open spec fn without_first(s: Seq<char>, needle: Seq<char>) -> Seq<char> {
    if contains(s, needle) {
        let at = choose|at: int| first_occurs_at(s, needle, at);
        s.take(at) + s.skip(at + needle.len())
    } else {
        s
    }
}

/// The parts with `sep` between each two neighbours.
pub open spec fn join(parts: Seq<Seq<char>>, sep: Seq<char>) -> Seq<char>
    decreases parts.len(),
{
    if parts.len() == 0 {
        Seq::empty()
    } else if parts.len() == 1 {
        parts[0]
    } else {
        join(parts.drop_last(), sep) + sep + parts.last()
    }
}

/// `a` comes before `b` in the order of strings: at the first place where the
/// two differ `a` has ended, or has the character with the smaller code point.
pub open spec fn precedes(a: Seq<char>, b: Seq<char>) -> bool {
    exists|k: int| precedes_at(a, b, k)
}

/// `a` and `b` agree on their first `k` characters, and there `a` ends or
/// goes on with the smaller character.
pub open spec fn precedes_at(a: Seq<char>, b: Seq<char>, k: int) -> bool {
    &&& 0 <= k <= a.len()
    &&& k < b.len()
    &&& a.take(k) == b.take(k)
    &&& k < a.len() ==> (a[k] as u32) < (b[k] as u32)
}

/// Each string comes before the next: the sequence is sorted and holds
/// nothing twice.
pub open spec fn ascending(s: Seq<Seq<char>>) -> bool {
    forall|i: int, j: int| 0 <= i < j < s.len() ==> precedes(#[trigger] s[i], #[trigger] s[j])
}

/// No string comes before itself; so what comes before another differs from it.
pub proof fn lemma_precedes_irreflexive(a: Seq<char>)
    ensures
        !precedes(a, a),
{
}

/// What comes before a string comes before all that the string comes before.
pub proof fn lemma_precedes_transitive(a: Seq<char>, b: Seq<char>, c: Seq<char>)
    requires
        precedes(a, b),
        precedes(b, c),
    ensures
        precedes(a, c),
{
    let k1 = choose|k: int| precedes_at(a, b, k);
    let k2 = choose|k: int| precedes_at(b, c, k);
    let k = if k1 <= k2 {
        k1
    } else {
        k2
    };
    assert(a.take(k) =~= a.take(k1).take(k));
    assert(b.take(k) =~= b.take(k1).take(k));
    assert(b.take(k) =~= b.take(k2).take(k));
    assert(c.take(k) =~= c.take(k2).take(k));
    if k1 < k2 {
        assert(b.take(k2)[k1] == c.take(k2)[k1]);
    } else if k2 < k1 {
        assert(a.take(k1)[k2] == b.take(k1)[k2]);
    }
    assert(precedes_at(a, c, k));
}

/// Two ascending sequences that hold the same strings are the same sequence.
pub proof fn lemma_ascending_unique(a: Seq<Seq<char>>, b: Seq<Seq<char>>)
    requires
        ascending(a),
        ascending(b),
        forall|x: Seq<char>| #[trigger] a.contains(x) <==> b.contains(x),
    ensures
        a == b,
    decreases a.len(),
{
    if a.len() == 0 {
        if b.len() > 0 {
            assert(b.contains(b[0]));
            assert(a.contains(b[0]));
        }
        assert(a =~= b);
    } else {
        assert(a.contains(a[0]));
        assert(b.contains(a[0]));
        let j = choose|j: int| 0 <= j < b.len() && b[j] == a[0];
        assert(b.contains(b[0]));
        assert(a.contains(b[0]));
        let i = choose|i: int| 0 <= i < a.len() && a[i] == b[0];
        if i > 0 && j > 0 {
            assert(precedes(a[0], a[i]));
            assert(precedes(b[0], b[j]));
            lemma_precedes_transitive(a[0], b[0], a[0]);
            lemma_precedes_irreflexive(a[0]);
        }
        assert(a[0] == b[0]);
        let rest_a = a.drop_first();
        let rest_b = b.drop_first();
        assert forall|x: Seq<char>| #[trigger] rest_a.contains(x) <==> rest_b.contains(x) by {
            if rest_a.contains(x) {
                let k = choose|k: int| 0 <= k < rest_a.len() && rest_a[k] == x;
                assert(a[k + 1] == x);
                assert(precedes(a[0], a[k + 1]));
                lemma_precedes_irreflexive(x);
                assert(a.contains(x));
                assert(b.contains(x));
                let m = choose|m: int| 0 <= m < b.len() && b[m] == x;
                assert(rest_b[m - 1] == x);
            }
            if rest_b.contains(x) {
                let k = choose|k: int| 0 <= k < rest_b.len() && rest_b[k] == x;
                assert(b[k + 1] == x);
                assert(precedes(b[0], b[k + 1]));
                lemma_precedes_irreflexive(x);
                assert(b.contains(x));
                assert(a.contains(x));
                let m = choose|m: int| 0 <= m < a.len() && a[m] == x;
                assert(rest_a[m - 1] == x);
            }
        }
        assert forall|p: int, q: int| 0 <= p < q < rest_a.len() implies precedes(
            #[trigger] rest_a[p],
            #[trigger] rest_a[q],
        ) by {
            assert(precedes(a[p + 1], a[q + 1]));
        }
        assert forall|p: int, q: int| 0 <= p < q < rest_b.len() implies precedes(
            #[trigger] rest_b[p],
            #[trigger] rest_b[q],
        ) by {
            assert(precedes(b[p + 1], b[q + 1]));
        }
        lemma_ascending_unique(rest_a, rest_b);
        assert(a =~= seq![a[0]] + rest_a);
        assert(b =~= seq![b[0]] + rest_b);
    }
}

/// The characters of `s`, in order, as a vector that can be indexed.
pub fn to_chars(s: &str) -> (v: Vec<char>)
    ensures
        v@ == s@,
{
    broadcast use vstd::string::group_string_axioms;

    let mut v: Vec<char> = Vec::new();
    for c in it: s.chars()
        invariant
            it.seq() == s@,
            v@ == s@.take(it.index()),
    {
        assert(s@.take(it.index() + 1) =~= s@.take(it.index()).push(c));
        v.push(c);
    }
    assert(s@.take(s@.len() as int) =~= s@);
    v
}

/// The characters of `chars` from `from` up to `to`, as a string.
pub fn substring(chars: &Vec<char>, from: usize, to: usize) -> (s: String)
    requires
        from <= to <= chars.len(),
    ensures
        s@ == chars@.subrange(from as int, to as int),
{
    let mut s = String::new();
    let mut i: usize = from;
    while i < to
        invariant
            from <= i <= to <= chars.len(),
            s@ == chars@.subrange(from as int, i as int),
        decreases to - i,
    {
        s.push(chars[i]);
        i = i + 1;
        assert(s@ =~= chars@.subrange(from as int, i as int));
    }
    s
}

/// Whether `needle` stands in `hay` at `at`.
fn occurs_here(hay: &Vec<char>, needle: &Vec<char>, at: usize) -> (found: bool)
    requires
        at + needle.len() <= hay.len(),
    ensures
        found == occurs_at(hay@, needle@, at as int),
{
    let ghost window = hay@.subrange(at as int, at + needle.len());
    let mut k: usize = 0;
    while k < needle.len()
        invariant
            k <= needle.len(),
            at + needle.len() <= hay.len(),
            window == hay@.subrange(at as int, at + needle.len()),
            forall|j: int| 0 <= j < k ==> window[j] == needle@[j],
        decreases needle.len() - k,
    {
        if hay[at + k] != needle[k] {
            assert(window[k as int] != needle@[k as int]);
            return false;
        }
        k = k + 1;
    }
    assert(window =~= needle@);
    true
}

/// The first position at which `needle` stands in `hay`, if it stands there
/// at all.
pub fn find(hay: &Vec<char>, needle: &Vec<char>) -> (found: Option<usize>)
    ensures
        match found {
            Some(at) => first_occurs_at(hay@, needle@, at as int),
            None => !contains(hay@, needle@),
        },
{
    if needle.len() > hay.len() {
        return None;
    }
    let last = hay.len() - needle.len();
    let mut at: usize = 0;
    loop
        invariant
            at <= last,
            last == hay.len() - needle.len(),
            forall|before: int| 0 <= before < at ==> !occurs_at(hay@, needle@, before),
        decreases last - at,
    {
        if occurs_here(hay, needle, at) {
            return Some(at);
        }
        if at == last {
            return None;
        }
        at = at + 1;
    }
}

/// `s` without the first occurrence of `needle`.
pub fn remove_first(s: &str, needle: &str) -> (rest: String)
    ensures
        rest@ == without_first(s@, needle@),
{
    let chars = to_chars(s);
    let needle_chars = to_chars(needle);
    match find(&chars, &needle_chars) {
        Some(at) => {
            let mut rest = substring(&chars, 0, at);
            let tail = substring(&chars, at + needle_chars.len(), chars.len());
            rest.append(tail.as_str());
            proof {
                let chosen = choose|i: int| first_occurs_at(s@, needle@, i);
                assert(chosen == at) by {
                    if chosen < at {
                        assert(!occurs_at(s@, needle@, chosen));
                    } else if at < chosen {
                        assert(!occurs_at(s@, needle@, at as int));
                    }
                }
                assert(rest@ =~= s@.take(at as int) + s@.skip(at + needle@.len()));
            }
            rest
        },
        None => substring(&chars, 0, chars.len()),
    }
}

/// The strings of `parts` in a row, with `sep` between each two neighbours.
pub fn join_all(parts: &[String], sep: &str) -> (joined: String)
    ensures
        joined@ == join(texts(parts@), sep@),
{
    let ghost all = texts(parts@);
    let mut joined = String::new();
    let mut i: usize = 0;
    while i < parts.len()
        invariant
            i <= parts.len(),
            all == texts(parts@),
            joined@ == join(all.take(i as int), sep@),
        decreases parts.len() - i,
    {
        proof {
            assert(all.take(i + 1).drop_last() =~= all.take(i as int));
            assert(all.take(i + 1).last() == parts@[i as int]@);
        }
        if i > 0 {
            joined.append(sep);
        } else {
            assert(joined@ =~= Seq::<char>::empty());
        }
        joined.append(parts[i].as_str());
        i = i + 1;
    }
    assert(all.take(parts.len() as int) =~= all);
    joined
}

/// The strings of `parts` from `from` up to `to`, in a row.
pub fn concat_range(parts: &[String], from: usize, to: usize) -> (whole: String)
    requires
        from <= to <= parts.len(),
    ensures
        whole@ == texts(parts@).subrange(from as int, to as int).flatten(),
{
    let ghost all = texts(parts@);
    let mut whole = String::new();
    let mut i: usize = from;
    assert(all.subrange(from as int, from as int) =~= Seq::<Seq<char>>::empty());
    while i < to
        invariant
            from <= i <= to <= parts.len(),
            all == texts(parts@),
            whole@ == all.subrange(from as int, i as int).flatten(),
        decreases to - i,
    {
        proof {
            let before = all.subrange(from as int, i as int);
            assert(all.subrange(from as int, i + 1) =~= before.push(parts@[i as int]@));
            before.lemma_flatten_push(parts@[i as int]@);
        }
        whole.append(parts[i].as_str());
        i = i + 1;
    }
    whole
}

/// How two strings stand to each other in the order of strings.
#[derive(Debug, Clone, Copy, PartialEq, Eq, Structural)]
pub enum Order {
    Before,
    Same,
    After,
}

/// Whether `a` comes before `b`, is the same, or comes after it.
pub fn order_of(a: &Vec<char>, b: &Vec<char>) -> (order: Order)
    ensures
        match order {
            Order::Before => precedes(a@, b@),
            Order::Same => a@ == b@,
            Order::After => precedes(b@, a@),
        },
{
    let mut k: usize = 0;
    assert(a@.take(0) =~= b@.take(0));
    while k < a.len() && k < b.len()
        invariant
            k <= a.len(),
            k <= b.len(),
            a@.take(k as int) == b@.take(k as int),
        decreases a.len() - k,
    {
        let x: u32 = a[k] as u32;
        let y: u32 = b[k] as u32;
        if x < y {
            assert(precedes_at(a@, b@, k as int));
            return Order::Before;
        }
        if y < x {
            assert(precedes_at(b@, a@, k as int));
            return Order::After;
        }
        proof {
            vstd::utf8::char_u32_cast(a@[k as int], x);
            vstd::utf8::char_u32_cast(b@[k as int], y);
            assert(a@.take(k + 1) =~= a@.take(k as int).push(a@[k as int]));
            assert(b@.take(k + 1) =~= b@.take(k as int).push(b@[k as int]));
        }
        k = k + 1;
    }
    if k < b.len() {
        assert(precedes_at(a@, b@, k as int));
        Order::Before
    } else if k < a.len() {
        assert(precedes_at(b@, a@, k as int));
        Order::After
    } else {
        assert(a@.take(k as int) =~= a@);
        assert(b@.take(k as int) =~= b@);
        Order::Same
    }
}

} // verus!
