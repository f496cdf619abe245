use assemble_logs::filter::{
    after_query, at_or_after, filter_queries, has_answer, is_included, is_true, passes, Counters,
    Outcome,
};

fn said(output: &str) -> Outcome {
    Ok(output.to_string())
}

fn failed(message: &str) -> Outcome {
    Err(message.to_string())
}

#[test]
fn only_the_word_true_is_a_yes() {
    assert!(is_true("true"));
    assert!(!is_true("false"));
    assert!(!is_true("True"));
    assert!(!is_true("TRUE"));
    assert!(!is_true(" true"));
    assert!(!is_true("true\n"));
    assert!(!is_true(""));
    assert!(!is_true("1"));
    assert!(!is_true("truee"));
    assert!(!is_true("tru"));
}

#[test]
fn white_space_around_the_answer_does_not_count() {
    assert!(passes("true"));
    assert!(passes("true\n"));
    assert!(passes("  true \r\n"));
    assert!(passes("\ttrue\u{a0}"));
    assert!(!passes("false\n"));
    assert!(!passes("t rue"));
    assert!(!passes("True\n"));
    assert!(!passes("null\n"));
    assert!(!passes("\"true\"\n"));
    assert!(!passes(""));
    assert!(!passes("\n"));
}

#[test]
fn a_record_is_shown_if_every_query_says_yes() {
    assert!(is_included(&vec![said("true\n")]));
    assert!(is_included(&vec![said("true\n"), said("true\n")]));
    assert!(!is_included(&vec![said("false\n")]));
    assert!(!is_included(&vec![said("true\n"), said("false\n")]));
    assert!(!is_included(&vec![said("false\n"), said("true\n")]));
    assert!(!is_included(&vec![said("false\n"), said("false\n")]));
}

#[test]
fn a_record_is_shown_if_there_is_no_query() {
    assert!(is_included(&vec![]));
}

#[test]
fn a_query_that_fails_keeps_the_record_back() {
    assert!(!is_included(&vec![failed("jq: error")]));
    assert!(!is_included(&vec![said("true\n"), failed("true")]));
    assert!(!is_included(&vec![failed("true"), said("true\n")]));
}

#[test]
fn has_answer_tells_whether_a_query_ran() {
    assert!(!has_answer(&vec![]));
    assert!(!has_answer(&vec![failed("no")]));
    assert!(has_answer(&vec![said("false\n")]));
    assert!(has_answer(&vec![failed("no"), said("true\n")]));
}

#[test]
fn counters_count_records() {
    let mut counters = Counters::new();
    assert_eq!(counters, Counters { evaluated: 0, included: 0 });
    assert!(counters.tally(&vec![]));
    assert_eq!(counters, Counters { evaluated: 0, included: 1 });
    assert!(counters.tally(&vec![said("true\n"), said("true\n")]));
    assert_eq!(counters, Counters { evaluated: 1, included: 2 });
    assert!(!counters.tally(&vec![said("true\n"), said("false\n")]));
    assert_eq!(counters, Counters { evaluated: 2, included: 2 });
    assert!(!counters.tally(&vec![failed("broken")]));
    assert_eq!(counters, Counters { evaluated: 2, included: 2 });
    assert!(!counters.tally(&vec![failed("broken"), said("true\n")]));
    assert_eq!(counters, Counters { evaluated: 3, included: 2 });
}

#[test]
fn the_summary_tells_how_many_records_were_shown() {
    assert_eq!(Counters::new().summary(), "END OUTPUT - n_lines=0");
    assert_eq!(
        Counters { evaluated: 7, included: 1234567890123 }.summary(),
        "END OUTPUT - n_lines=1234567890123"
    );
    assert_eq!(
        Counters { evaluated: 0, included: u64::MAX }.summary(),
        "END OUTPUT - n_lines=18446744073709551615"
    );
}

#[test]
fn the_query_for_a_bound_compares_the_timestamp() {
    assert_eq!(after_query("2022-03-30T16"), ".ts >= \"2022-03-30T16\"");
    assert_eq!(after_query(""), ".ts >= \"\"");
    assert_eq!(after_query("a\"b\\c\n"), ".ts >= \"a\\\"b\\\\c\\n\"");
    assert_eq!(at_or_after("\"2022\""), ".ts >= \"2022\"");
    assert_eq!(at_or_after(""), ".ts >= ");
}

#[test]
fn the_query_for_the_bound_is_run_before_the_callers_own() {
    assert_eq!(filter_queries(None, None), Vec::<String>::new());
    assert_eq!(filter_queries(None, Some(".level == \"ERRO\"")), vec![".level == \"ERRO\""]);
    assert_eq!(filter_queries(Some("2022-03"), None), vec![".ts >= \"2022-03\""]);
    assert_eq!(
        filter_queries(Some("2022-03"), Some(".tag == \"db\"")),
        vec![".ts >= \"2022-03\"", ".tag == \"db\""]
    );
}
