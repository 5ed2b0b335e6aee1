use valicore::summary::{any_failed, format_summary, status_str, LimitOp};

#[test]
fn summary_counts_passed_and_failed_steps() {
    let groups = vec![vec![false, true, false], vec![], vec![true]];
    assert_eq!(format_summary(&groups), "2/4 passed, 2 failed");
    assert_eq!(format_summary(&vec![]), "0/0 passed, 0 failed");
    assert_eq!(format_summary(&vec![vec![false; 12]]), "12/12 passed, 0 failed");
}

#[test]
fn group_status_fails_when_any_step_fails() {
    assert!(!any_failed(&vec![]));
    assert!(!any_failed(&vec![false, false]));
    assert!(any_failed(&vec![false, true]));
    assert_eq!(status_str(true), "failed");
    assert_eq!(status_str(false), "passed");
}

#[test]
fn limit_operators() {
    assert_eq!(LimitOp::parse("eq"), LimitOp::Eq);
    assert_eq!(LimitOp::parse("ne"), LimitOp::Ne);
    assert_eq!(LimitOp::parse("lt"), LimitOp::Lt);
    assert_eq!(LimitOp::parse("le"), LimitOp::Le);
    assert_eq!(LimitOp::parse("gt"), LimitOp::Gt);
    assert_eq!(LimitOp::parse("ge"), LimitOp::Ge);
    assert_eq!(LimitOp::parse("within"), LimitOp::Within);
    assert_eq!(LimitOp::parse("outside"), LimitOp::Outside);
    assert_eq!(LimitOp::parse("EQ"), LimitOp::Unknown);
    assert_eq!(LimitOp::parse("between"), LimitOp::Unknown);
}

use valicore::step::StepRun;

#[test]
fn step_queries_repeat_times_with_default_command() {
    let mut run = StepRun::new(None, 3);
    let mut sent = Vec::new();
    while let Some(q) = run.next_query() {
        sent.push(q);
        run.on_verdict(false);
    }
    assert_eq!(sent, vec!["*IDN?", "*IDN?", "*IDN?"]);
    assert!(!run.failed());
    assert!(run.error().is_none());
    assert!(run.next_query().is_none());
}

#[test]
fn step_fails_on_verdict_connect_or_query_error() {
    let mut run = StepRun::new(Some("MEAS:VOLT:DC?"), 2);
    assert_eq!(run.next_query().unwrap(), "MEAS:VOLT:DC?");
    run.on_verdict(true);
    run.on_verdict(false);
    assert!(run.failed());
    assert!(run.error().is_none());
    assert_eq!(run.next_query().unwrap(), "MEAS:VOLT:DC?");
    assert!(run.next_query().is_none());

    let mut run = StepRun::new(Some("X?"), 5);
    run.on_connect_failed("instrument 'dmm' not defined in campaign".to_string());
    assert!(run.failed());
    assert_eq!(run.error().unwrap(), "instrument 'dmm' not defined in campaign");
    assert!(run.next_query().is_none());

    let mut run = StepRun::new(Some("X?"), 5);
    assert!(run.next_query().is_some());
    run.on_query_failed("query error: timeout".to_string());
    assert!(run.failed());
    assert!(run.next_query().is_none());

    let mut run = StepRun::new(None, 0);
    assert!(run.next_query().is_none());
    assert!(!run.failed());
}
