use referendum::{
    generate_consensus_map, generate_test_output_output, generate_test_result_output,
    get_consensus_results, get_dissenting_results, get_no_consensus_results, vote, Test,
};

#[test]
fn test_output_generation() {
    let output = generate_test_output_output(&"test_name", &"this is the output", Some("tester"));
    let expected = "\n\t---- test test_name @ tester stdout ----\n\tthis is the output\n";
    assert_eq!(output, expected);
}

#[test]
fn test_output_generation_no_output() {
    let output = generate_test_output_output(&"test_name", &"", Some("tester"));
    let expected = "\n\t---- test test_name @ tester stdout ----\n\t\n";
    assert_eq!(output, expected);
}

#[test]
fn test_output_generation_without_toolkit() {
    let output = generate_test_output_output("test_name", "out", None);
    assert_eq!(output, "\n\t---- test test_name stdout ----\n\tout\n");
}

#[test]
fn test_pass_result_generation() {
    let output = generate_test_result_output(&"test_name", true, Some("tester"));
    let expected = "test test_name @ tester ... ok";
    assert_eq!(output, expected);
}

#[test]
fn test_failure_result_generation() {
    let output = generate_test_result_output(&"test_name", false, Some("tester"));
    let expected = "test test_name @ tester ... FAILED";
    assert_eq!(output, expected);
}

#[test]
fn test_result_generation_without_toolkit() {
    assert_eq!(generate_test_result_output("test_name", true, None), "test test_name  ... ok");
    assert_eq!(generate_test_result_output("", false, None), "test   ... FAILED");
}

#[test]
fn generation_keeps_other_characters() {
    assert_eq!(
        generate_test_result_output("gr\u{fc}n::\u{1f980}", true, Some("\u{e9}t\u{e9}")),
        "test gr\u{fc}n::\u{1f980} @ \u{e9}t\u{e9} ... ok"
    );
    assert_eq!(
        generate_test_output_output("n", "\u{4e2d}\u{6587}\n\u{0}", Some("k")),
        "\n\t---- test n @ k stdout ----\n\t\u{4e2d}\u{6587}\n\u{0}\n"
    );
}

#[test]
fn consensus_result_normal_generation() {
    let test_1 = Test {
        name: "test_name".to_string(),
        toolkit: "nightly_1".to_string(),
        result: true,
        output: "this is the output".to_string(),
        hash: 42,
    };
    let test_2 = Test {
        name: "test_name".to_string(),
        toolkit: "nightly_2".to_string(),
        result: true,
        output: "this is the output".to_string(),
        hash: 44,
    };
    let test_3 = Test {
        name: "test_name".to_string(),
        toolkit: "nightly_3".to_string(),
        result: true,
        output: "this is the output".to_string(),
        hash: 42,
    };
    let tests = vec![test_1, test_2, test_3];
    let map = generate_consensus_map(&tests);
    assert_eq!(get_consensus_results(&map),
        "Consensus Test Results...\ntest test_name @ consensus ... ok\n\t---- test test_name @ consensus stdout ----\n\tthis is the output\n\n");
}

#[test]
fn consensus_results_in_the_order_of_the_names() {
    let tests = vec![
        Test { name: "b".to_string(), toolkit: "x".to_string(), result: false, output: "".to_string(), hash: 1 },
        Test { name: "a".to_string(), toolkit: "x".to_string(), result: true, output: "out".to_string(), hash: 2 },
    ];
    let map = generate_consensus_map(&tests);
    assert_eq!(
        get_consensus_results(&map),
        "Consensus Test Results...\ntest b @ consensus ... FAILED\ntest a @ consensus ... ok\n\t---- test a @ consensus stdout ----\n\tout\n\n"
    );
    assert_eq!(
        get_consensus_results(&generate_consensus_map(&vec![])),
        "Consensus Test Results...\n"
    );
}

#[test]
fn dissenting_result_normal_generation() {
    let test_1 = Test {
        name: "test_name".to_string(),
        toolkit: "nightly_1".to_string(),
        result: true,
        output: "this is the output".to_string(),
        hash: 42,
    };
    let test_2 = Test {
        name: "test_name".to_string(),
        toolkit: "nightly_2".to_string(),
        result: true,
        output: "this is the output".to_string(),
        hash: 44,
    };
    let test_3 = Test {
        name: "test_name".to_string(),
        toolkit: "nightly_3".to_string(),
        result: true,
        output: "this is the output".to_string(),
        hash: 42,
    };
    let test_4 = test_2.clone();
    let tests = vec![test_1, test_2, test_3];
    let map = generate_consensus_map(&tests);
    assert_eq!(get_dissenting_results(vec![test_4], &map),
        "Dissenting Test Results...\ntest test_name @ consensus ... ok\ntest test_name @ nightly_2 ... ok\n\t---- test test_name @ consensus stdout ----\n\tthis is the output\n\n\t---- test test_name @ nightly_2 stdout ----\n\tthis is the output\n\n");
}

#[test]
fn dissenting_results_of_a_vote() {
    let tests = vec![
        Test { name: "t".to_string(), toolkit: "a".to_string(), result: true, output: "".to_string(), hash: 42 },
        Test { name: "t".to_string(), toolkit: "b".to_string(), result: true, output: "".to_string(), hash: 42 },
        Test { name: "t".to_string(), toolkit: "c".to_string(), result: false, output: "boom".to_string(), hash: 12 },
    ];
    let votes = vote(tests).unwrap();
    let map = generate_consensus_map(&votes.matches);
    assert_eq!(
        get_dissenting_results(votes.non_matches, &map),
        "Dissenting Test Results...\ntest t @ consensus ... ok\ntest t @ c ... FAILED\n\t---- test t @ consensus stdout ----\n\t\n\n\t---- test t @ c stdout ----\n\tboom\n\n"
    );
    assert_eq!(get_dissenting_results(vec![], &map), "Dissenting Test Results...\n");
}

#[test]
fn no_consensus_result_normal_generation() {
    let test_1 = Test {
        name: "test_name".to_string(),
        toolkit: "nightly_1".to_string(),
        result: true,
        output: "this is the output".to_string(),
        hash: 12,
    };
    let test_2 = Test {
        name: "test_name".to_string(),
        toolkit: "nightly_2".to_string(),
        result: true,
        output: "this is the output".to_string(),
        hash: 44,
    };
    let tests = vec![test_1, test_2];
    assert_eq!(get_no_consensus_results(tests),
        "No Consensus Results...\ntest test_name @ nightly_1 ... ok\n\t---- test test_name @ nightly_1 stdout ----\n\tthis is the output\n\ntest test_name @ nightly_2 ... ok\n\t---- test test_name @ nightly_2 stdout ----\n\tthis is the output\n\n");
}

#[test]
fn no_consensus_results_of_nothing() {
    assert_eq!(get_no_consensus_results(vec![]), "No Consensus Results...\n");
}
