use referendum::text::{
    concat_range, find, join_all, order_of, remove_first, substring, to_chars, Order,
};

fn chars(s: &str) -> Vec<char> {
    s.chars().collect()
}

fn strings(parts: &[&str]) -> Vec<String> {
    parts.iter().map(|x| x.to_string()).collect()
}

#[test]
fn characters_of_a_string() {
    assert_eq!(to_chars("a\u{fc}\u{1f980}\n"), vec!['a', '\u{fc}', '\u{1f980}', '\n']);
    assert_eq!(to_chars(""), Vec::<char>::new());
}

#[test]
fn string_of_characters() {
    let all = chars("h\u{e9}llo");
    assert_eq!(substring(&all, 0, 5), "h\u{e9}llo");
    assert_eq!(substring(&all, 1, 3), "\u{e9}l");
    assert_eq!(substring(&all, 5, 5), "");
}

#[test]
fn find_gives_the_first_place() {
    assert_eq!(find(&chars("abcabc"), &chars("bc")), Some(1));
    assert_eq!(find(&chars("abcabc"), &chars("abcabc")), Some(0));
    assert_eq!(find(&chars("abcabc"), &chars("c")), Some(2));
    assert_eq!(find(&chars("aab"), &chars("ab")), Some(1));
    assert_eq!(find(&chars("abcabc"), &chars("")), Some(0));
    assert_eq!(find(&chars(""), &chars("")), Some(0));
    assert_eq!(find(&chars("abc"), &chars("abcd")), None);
    assert_eq!(find(&chars("abc"), &chars("ac")), None);
    assert_eq!(find(&chars(""), &chars("a")), None);
    assert_eq!(find(&chars("\u{e9}\u{fc}\u{e9}"), &chars("\u{fc}\u{e9}")), Some(1));
}

#[test]
fn find_agrees_with_the_search_of_strings() {
    let hays = ["", "a", "ab", "aab", "abab", "test a::b", "xx test test yy"];
    let needles = ["", "a", "b", "ab", "ba", "test ", "yy", "xxx"];
    for hay in hays {
        for needle in needles {
            assert_eq!(find(&chars(hay), &chars(needle)), hay.find(needle));
        }
    }
}

#[test]
fn remove_first_takes_out_one_occurrence() {
    assert_eq!(remove_first("test a::b", "test "), "a::b");
    assert_eq!(remove_first("test test a", "test "), "test a");
    assert_eq!(remove_first("a test b test c", "test "), "a b test c");
    assert_eq!(remove_first("a::b", "test "), "a::b");
    assert_eq!(remove_first("abc", ""), "abc");
    assert_eq!(remove_first("", "x"), "");
    assert_eq!(remove_first("x", "x"), "");
    for (s, needle) in [("aXbXc", "X"), ("none", "X"), ("\u{e9}a\u{e9}", "\u{e9}")] {
        assert_eq!(remove_first(s, needle), s.replacen(needle, "", 1));
    }
}

#[test]
fn join_puts_the_separator_between() {
    assert_eq!(join_all(&strings(&["a", "b", "c"]), " "), "a b c");
    assert_eq!(join_all(&strings(&["a"]), " "), "a");
    assert_eq!(join_all(&strings(&[]), " "), "");
    assert_eq!(join_all(&strings(&["", ""]), ", "), ", ");
    assert_eq!(join_all(&strings(&["a", "", "b"]), ""), "ab");
    let parts = strings(&["x", "", "y\u{fc}", "z"]);
    assert_eq!(join_all(&parts, "--"), parts.join("--"));
}

#[test]
fn concat_takes_a_range_of_the_parts() {
    let parts = strings(&["a", "b\u{fc}", "", "c"]);
    assert_eq!(concat_range(&parts, 0, 4), "ab\u{fc}c");
    assert_eq!(concat_range(&parts, 1, 3), "b\u{fc}");
    assert_eq!(concat_range(&parts, 2, 2), "");
    assert_eq!(concat_range(&parts, 4, 4), "");
    assert_eq!(concat_range(&parts, 1, 4), parts[1..4].concat());
}

#[test]
fn order_is_the_order_of_strings() {
    assert_eq!(order_of(&chars("a"), &chars("b")), Order::Before);
    assert_eq!(order_of(&chars("b"), &chars("a")), Order::After);
    assert_eq!(order_of(&chars("a"), &chars("a")), Order::Same);
    assert_eq!(order_of(&chars(""), &chars("")), Order::Same);
    assert_eq!(order_of(&chars(""), &chars("a")), Order::Before);
    assert_eq!(order_of(&chars("ab"), &chars("a")), Order::After);
    assert_eq!(order_of(&chars("Z"), &chars("a")), Order::Before);
    let words = ["", "a", "B", "ab", "a::b", "_", "z\u{e9}", "z\u{1f980}", "\u{7f}", "\u{80}", "\u{ffff}", "\u{10000}"];
    for x in words {
        for y in words {
            let expected = if x < y {
                Order::Before
            } else if x == y {
                Order::Same
            } else {
                Order::After
            };
            assert_eq!(order_of(&chars(x), &chars(y)), expected);
        }
    }
}
