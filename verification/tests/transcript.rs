use referendum::{
    get_test_names, get_test_output, get_test_result, get_tests, names_from_tokens, output_block,
    parse_test_output, parse_transcript, result_from_lines, HarnessRun, LineKind, ReferendumError,
};
use std::collections::BTreeSet;

fn strings(lines: &[&str]) -> Vec<String> {
    lines.iter().map(|x| x.to_string()).collect()
}

fn real_transcript() -> Vec<String> {
    strings(&[
        "",
        "running 2 tests",
        "test tests::test_1 ... ok",
        "test tests::test_2 ... FAILED",
        "",
        "successes:",
        "",
        "---- tests::test_1 stdout ----",
        "Hello, Earthlings!",
        "",
        "",
        "successes:",
        "    tests::test_1",
        "",
        "failures:",
        "",
        "---- tests::test_2 stdout ----",
        "thread 'main' panicked at 'assertion failed: `(left == right)`",
        "  left: `1`,",
        " right: `2`', src/main.rs:14:9",
        "note: run with `RUST_BACKTRACE=1` environment variable to display a backtrace",
        "",
        "",
        "failures:",
        "    tests::test_2",
        "",
        "test result: FAILED. 1 passed; 1 failed; 0 ignored; 0 measured; 0 filtered out; finished in 0.00s",
        "",
        "",
    ])
}

#[test]
fn parse_single_test() {
    let input = "test tests::test_1 ... ok";
    let expected = vec!["test tests::test_1 ... ok"];
    assert_eq!(parse_test_output(input), expected);
}

#[test]
fn parse_double_test() {
    let input = "Hello\nWorld";
    let expected = vec!["Hello", "World"];
    assert_eq!(parse_test_output(input), expected);
}

#[test]
fn parse_empty_transcript_is_one_empty_line() {
    assert_eq!(parse_test_output(""), vec![""]);
}

#[test]
fn parse_keeps_empty_lines() {
    assert_eq!(parse_test_output("a\n\nb\n"), vec!["a", "", "b", ""]);
    assert_eq!(parse_test_output("\n"), vec!["", ""]);
}

#[test]
fn parse_keeps_other_characters() {
    assert_eq!(parse_test_output("gr\u{fc}n \u{1f980}\r\nx"), vec!["gr\u{fc}n \u{1f980}\r", "x"]);
}

#[test]
fn parse_joined_by_line_ends_is_the_transcript() {
    let input = "one\ntwo\n\nthree\n";
    assert_eq!(parse_test_output(input).join("\n"), input);
}

#[test]
fn extract_test_name() {
    let input = vec![String::from("test tests::test_1 ... ok")];
    let mut expected = BTreeSet::new();
    expected.insert(String::from("tests::test_1"));
    let found: BTreeSet<String> = get_test_names(&input).unwrap().into_iter().collect();
    assert_eq!(found, expected);
    assert_eq!(get_test_names(&input).unwrap(), vec!["tests::test_1"]);
}

#[test]
fn test_names_are_sorted_and_distinct() {
    let input = strings(&[
        "test zeta::last ... ok",
        "test alpha::first ... ok",
        "test zeta::last ... FAILED",
        "test Beta::second - should panic ... ok",
    ]);
    assert_eq!(
        get_test_names(&input).unwrap(),
        vec!["Beta::second", "alpha::first", "zeta::last"]
    );
}

#[test]
fn test_names_in_the_order_of_a_sorted_set() {
    let input = strings(&["test b::a ... ok", "test b::B ... ok", "test b::_ ... ok", "test b::0 ... ok", "test a::zz ... ok", "test a::z ... ok"]);
    let found = get_test_names(&input).unwrap();
    let sorted: Vec<String> = found.iter().cloned().collect::<BTreeSet<String>>().into_iter().collect();
    assert_eq!(found, sorted);
    assert_eq!(found, vec!["a::z", "a::zz", "b::0", "b::B", "b::_", "b::a"]);
}

#[test]
fn test_names_of_a_transcript_without_tests() {
    let input = strings(&["running 0 tests", "", "test result: ok."]);
    assert_eq!(get_test_names(&input).unwrap(), Vec::<String>::new());
    assert_eq!(get_test_names(&[]).unwrap(), Vec::<String>::new());
}

#[test]
fn test_names_are_found_across_lines() {
    // The lines are searched in a row, with a space between each two.
    let input = strings(&["test", "tests::test_1 ... ok"]);
    assert_eq!(get_test_names(&input).unwrap(), vec!["tests::test_1"]);
}

#[test]
fn names_from_tokens_strips_the_first_prefix_only() {
    let tokens = strings(&["test test ::x", "test b::a", "test b::a", "a::b"]);
    assert_eq!(names_from_tokens(&tokens), vec!["a::b", "b::a", "test ::x"]);
}

#[test]
fn extract_test_output_break_end() {
    let test_name = String::from("tests::test_1");
    let lines = vec![
        String::from("what"),
        String::from("---- tests::test_1 stdout ----"),
        String::from("Hello "),
        String::from("World"),
    ];
    assert_eq!(get_test_output(&test_name, &lines).unwrap(), "Hello World");
}

#[test]
fn extract_test_output_break_next_test() {
    let test_name = String::from("tests::test_1");
    let lines = vec![
        String::from("what"),
        String::from("---- tests::test_1 stdout ----"),
        String::from("Hello "),
        String::from("World"),
        String::from("---- tests::test_2 stdout ----"),
    ];
    assert_eq!(get_test_output(&test_name, &lines).unwrap(), "Hello World");
}

#[test]
fn extract_test_output_break_failures() {
    let test_name = String::from("tests::test_1");
    let lines = vec![
        String::from("what"),
        String::from("---- tests::test_1 stdout ----"),
        String::from("Hello "),
        String::from("World"),
        String::from("failures:"),
    ];
    assert_eq!(get_test_output(&test_name, &lines).unwrap(), "Hello World");
}

#[test]
fn extract_test_output_break_successes() {
    let test_name = String::from("tests::test_1");
    let lines = vec![
        String::from("what"),
        String::from("---- tests::test_1 stdout ----"),
        String::from("Hello "),
        String::from("World"),
        String::from(""),
        String::from("successes:"),
    ];
    assert_eq!(get_test_output(&test_name, &lines).unwrap(), "Hello World");
}

#[test]
fn extract_test_output_real() {
    let test_name = String::from("tests::test_1");
    let lines = real_transcript();
    assert_eq!(
        get_test_output(&test_name, &lines).unwrap(),
        "Hello, Earthlings!"
    );
}

#[test]
fn output_of_the_second_test_of_a_transcript() {
    // The block of another test and the headers before the block of the test
    // itself do not end it.
    let lines = real_transcript();
    assert_eq!(
        get_test_output("tests::test_2", &lines).unwrap(),
        "thread 'main' panicked at 'assertion failed: `(left == right)`  left: `1`, right: `2`', src/main.rs:14:9note: run with `RUST_BACKTRACE=1` environment variable to display a backtrace"
    );
}

#[test]
fn output_ends_at_successes_right_behind_one_line() {
    let lines = strings(&["---- tests::test_1 stdout ----", "Hello, Earthlings!", "successes:"]);
    assert_eq!(get_test_output("tests::test_1", &lines).unwrap(), "Hello, Earthlings!");
}

#[test]
fn output_is_empty_without_a_block() {
    let lines = strings(&["test tests::test_1 ... ok", "failures:", "---- tests::test_2 stdout ----", "x"]);
    assert_eq!(get_test_output("tests::test_1", &lines).unwrap(), "");
    assert_eq!(get_test_output("tests::test_1", &[]).unwrap(), "");
}

#[test]
fn output_is_the_same_whatever_ends_the_block() {
    let mut outputs = Vec::new();
    for end in ["---- tests::test_2 stdout ----", "failures:", "successes:"] {
        let lines = strings(&["---- tests::test_1 stdout ----", "a", "b ", end, "c"]);
        outputs.push(get_test_output("tests::test_1", &lines).unwrap());
    }
    let to_the_last_line = strings(&["---- tests::test_1 stdout ----", "a", "b "]);
    outputs.push(get_test_output("tests::test_1", &to_the_last_line).unwrap());
    assert_eq!(outputs, vec!["ab ", "ab ", "ab ", "ab "]);
}

#[test]
fn output_of_an_empty_block() {
    let lines = strings(&["---- tests::test_1 stdout ----", "failures:", "x"]);
    assert_eq!(get_test_output("tests::test_1", &lines).unwrap(), "");
    let lines = strings(&["x", "---- tests::test_1 stdout ----"]);
    assert_eq!(get_test_output("tests::test_1", &lines).unwrap(), "");
}

#[test]
fn output_of_a_name_that_is_no_pattern() {
    let lines = strings(&["---- a[b::c stdout ----", "x"]);
    assert_eq!(
        get_test_output("a[b::c", &lines),
        Err(ReferendumError::TestResultExtractionFailure())
    );
}

#[test]
fn output_reads_the_name_as_a_pattern() {
    // `^` in a pattern stands for the beginning of the line, so no line shows
    // this name.
    let lines = strings(&["---- a^b::c stdout ----", "x"]);
    assert_eq!(get_test_output("a^b::c", &lines).unwrap(), "");
    // The marker may stand anywhere in its line.
    let lines = strings(&["before ---- a::b stdout ---- behind", "x", "say failures: no", "y"]);
    assert_eq!(get_test_output("a::b", &lines).unwrap(), "x");
}

#[test]
fn output_block_by_kinds() {
    let (start, end, other) = (LineKind::Start, LineKind::End, LineKind::Other);
    let lines = strings(&["0", "1", "2", "3", "4", "5", "6"]);
    assert_eq!(output_block(&lines, &vec![other, start, other, other, end, other, other]), "23");
    assert_eq!(output_block(&lines, &vec![end, other, start, other, other, other, other]), "3456");
    assert_eq!(output_block(&lines, &vec![start, other, start, other, end, start, other]), "3");
    assert_eq!(output_block(&lines, &vec![other, end, other, end, other, other, end]), "");
    assert_eq!(output_block(&lines, &vec![other, other, other, other, other, other, start]), "");
    assert_eq!(output_block(&lines, &vec![start, end, start, other, other, other, other]), "");
    assert_eq!(output_block(&[], &vec![]), "");
}

#[test]
fn get_test_result_normal() {
    let test_name = "testing::test_name";
    let lines = ["test testing::test_name ... ok".to_string()];

    assert!(get_test_result(&test_name, &lines).unwrap());
}

#[test]
fn get_test_result_test_panics() {
    let test_name = "testing::test_name";
    let lines = ["test testing::test_name - should panic ... ok".to_string()];

    assert!(get_test_result(&test_name, &lines).unwrap());
}

#[test]
fn get_test_result_failed() {
    let lines = strings(&["test a::b ... FAILED", "test a::c - should panic ... FAILED", "test a::d ... ok"]);
    assert_eq!(get_test_result("a::b", &lines), Ok(false));
    assert_eq!(get_test_result("a::c", &lines), Ok(false));
    assert_eq!(get_test_result("a::d", &lines), Ok(true));
}

#[test]
fn get_test_result_without_a_result_line() {
    let lines = strings(&["test a::b ... ok", "test a::c"]);
    assert_eq!(
        get_test_result("a::c", &lines),
        Err(ReferendumError::TestResultExtractionFailure())
    );
    assert_eq!(
        get_test_result("a::b", &[]),
        Err(ReferendumError::TestResultExtractionFailure())
    );
}

#[test]
fn get_test_result_plain_lines_come_first() {
    // A plain result line is found before that of a test meant to panic,
    // wherever the two stand.
    let lines = strings(&["test a::b - should panic ... FAILED", "test a::b ... ok"]);
    assert_eq!(get_test_result("a::b", &lines), Ok(true));
}

#[test]
fn result_from_lines_takes_the_first_line_with_the_name() {
    let lines = strings(&["a::b1 ... FAILED", "a::b ... ok", "a::b ... FAILED"]);
    assert_eq!(result_from_lines("a::b", &lines), Ok(false));
    assert_eq!(result_from_lines("a::b ", &lines), Ok(true));
    assert_eq!(
        result_from_lines("a::c", &lines),
        Err(ReferendumError::TestResultExtractionFailure())
    );
    assert_eq!(
        result_from_lines("a::b", &vec![]),
        Err(ReferendumError::TestResultExtractionFailure())
    );
}

#[test]
fn result_from_lines_looks_for_ok_anywhere() {
    let lines = strings(&["tokens::look ... FAILED"]);
    assert_eq!(result_from_lines("tokens::look", &lines), Ok(true));
    assert_eq!(result_from_lines("", &strings(&["x ... FAILED"])), Ok(false));
}

#[test]
fn parse_single_passing_test() {
    let lines = parse_test_output("test tests::test_1 ... ok");
    assert_eq!(get_test_names(&lines).unwrap(), vec!["tests::test_1"]);
    assert_eq!(get_test_result("tests::test_1", &lines), Ok(true));
    assert_eq!(get_test_output("tests::test_1", &lines).unwrap(), "");
    let tests = parse_transcript("stable", &lines).unwrap();
    assert_eq!(tests.len(), 1);
    assert_eq!(tests[0].name, "tests::test_1");
    assert_eq!(tests[0].toolkit, "stable");
    assert!(tests[0].result);
    assert_eq!(tests[0].output, "");
    assert_eq!(tests[0].hash, fasthash::sea::hash64(b"true"));
}

#[test]
fn parse_real_transcript() {
    let tests = parse_transcript("nightly", &real_transcript()).unwrap();
    assert_eq!(tests.len(), 2);
    assert_eq!(tests[0].name, "tests::test_1");
    assert!(tests[0].result);
    assert_eq!(tests[0].output, "Hello, Earthlings!");
    assert_eq!(tests[0].hash, fasthash::sea::hash64(b"trueHello, Earthlings!"));
    assert_eq!(tests[1].name, "tests::test_2");
    assert_eq!(tests[1].toolkit, "nightly");
    assert!(!tests[1].result);
    assert!(tests[1].output.starts_with("thread 'main' panicked"));
    assert_eq!(
        tests[1].hash,
        fasthash::sea::hash64(format!("false{}", tests[1].output).as_bytes())
    );
}

#[test]
fn parse_fails_for_a_name_without_a_result() {
    let lines = strings(&["test a::b ... ok", "test a::c"]);
    assert_eq!(get_test_names(&lines).unwrap(), vec!["a::b", "a::c"]);
    assert!(matches!(
        parse_transcript("stable", &lines),
        Err(ReferendumError::TestResultExtractionFailure())
    ));
}

#[test]
fn parse_of_no_tests_is_no_failure() {
    assert_eq!(parse_transcript("stable", &strings(&["running 0 tests"])).unwrap().len(), 0);
}

fn run(toolkit: &str, transcript: &str, success: bool) -> HarnessRun {
    HarnessRun { toolkit: toolkit.to_string(), transcript: transcript.to_string(), success }
}

#[test]
fn get_tests_gathers_run_by_run() {
    let runs = vec![
        run("stable", "test a::b ... ok\ntest a::a ... FAILED\n", true),
        run("nightly", "test a::b ... ok\n\n---- a::b stdout ----\nhi\n\nsuccesses:\n", true),
    ];
    let tests = get_tests(&runs).unwrap();
    let seen: Vec<(&str, &str, bool, &str)> = tests
        .iter()
        .map(|t| (t.toolkit.as_str(), t.name.as_str(), t.result, t.output.as_str()))
        .collect();
    assert_eq!(
        seen,
        vec![
            ("stable", "a::a", false, ""),
            ("stable", "a::b", true, ""),
            ("nightly", "a::b", true, "hi"),
        ]
    );
    assert_ne!(tests[1].hash, tests[2].hash);
    assert_ne!(tests[0].hash, tests[1].hash);
}

#[test]
fn get_tests_fails_with_the_first_failure() {
    let good = "test a::b ... ok";
    let unreadable = "test a::b";
    assert!(matches!(
        get_tests(&vec![run("x", good, true), run("y", good, false)]),
        Err(ReferendumError::TestRunFailure())
    ));
    assert!(matches!(
        get_tests(&vec![run("x", unreadable, true), run("y", good, false)]),
        Err(ReferendumError::TestResultExtractionFailure())
    ));
    assert!(matches!(
        get_tests(&vec![run("x", unreadable, false), run("y", unreadable, true)]),
        Err(ReferendumError::TestRunFailure())
    ));
    assert_eq!(get_tests(&vec![]).unwrap().len(), 0);
}
