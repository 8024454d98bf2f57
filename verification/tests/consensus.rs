use dnsglobe::consensus::summarize;
use dnsglobe::model::{QueryResult, RowState};

fn records(values: &[&str]) -> RowState {
    RowState::Done {
        result: QueryResult::Records {
            values: values.iter().map(|v| v.to_string()).collect(),
            min_ttl: 60,
        },
        elapsed_ms: 1,
    }
}

fn no_records() -> RowState {
    RowState::Done { result: QueryResult::NoRecords("NXDOMAIN".to_string()), elapsed_ms: 1 }
}

fn error() -> RowState {
    RowState::Done { result: QueryResult::Error("refused".to_string()), elapsed_ms: 1 }
}

#[test]
fn answers_that_share_a_record_are_one_group() {
    let s = summarize(&[records(&["a", "b"]), records(&["c", "d"]), records(&["b", "c"])]);
    assert_eq!((s.groups, s.agree, s.ok), (1, 3, 3));
    assert_eq!(s.majority_rows, vec![true, true, true]);
    assert_eq!(s.majority_values, vec!["a", "b", "c", "d"]);
}

#[test]
fn the_largest_group_is_the_majority() {
    let s = summarize(&[
        records(&["x"]),
        records(&["a"]),
        error(),
        records(&["a", "a", "b"]),
        no_records(),
        RowState::Pending,
        RowState::Idle,
    ]);
    assert_eq!((s.ok, s.responding, s.errors, s.groups, s.agree), (3, 4, 1, 2, 2));
    assert_eq!(s.majority_rows, vec![false, true, false, true, false, false, false]);
    assert_eq!(s.majority_values, vec!["a", "b"]);
}

#[test]
fn of_equally_large_groups_the_first_is_the_majority() {
    let s = summarize(&[records(&["y"]), records(&["x"]), records(&["x"]), records(&["y"])]);
    assert_eq!((s.groups, s.agree), (2, 2));
    assert_eq!(s.majority_rows, vec![true, false, false, true]);
}

#[test]
fn without_records_there_is_no_group() {
    let s = summarize(&[no_records(), error(), RowState::Pending]);
    assert_eq!((s.ok, s.responding, s.errors, s.groups, s.agree), (0, 1, 1, 0, 0));
    assert_eq!(s.majority_rows, vec![false, false, false]);
    assert!(s.majority_values.is_empty());
    assert_eq!(summarize(&[]).responding, 0);
}

#[test]
fn an_answer_without_values_is_its_own_group() {
    let s = summarize(&[records(&[]), records(&[])]);
    assert_eq!((s.ok, s.groups, s.agree), (2, 2, 1));
}
