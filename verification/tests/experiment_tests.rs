use esoteric_webb::experiment::{Ledger, Outcome};

#[test]
fn check_bool_pass_accumulates() {
    let mut ledger = Ledger::new();
    ledger.check_bool("test pass", true);
    assert!(ledger.checks().iter().any(|r| r.outcome == Outcome::Pass && r.label == "test pass"));
}

#[test]
fn check_bool_fail_accumulates() {
    let mut ledger = Ledger::new();
    ledger.check_bool("test fail", false);
    assert!(ledger.checks().iter().any(|r| r.outcome == Outcome::Fail));
}

#[test]
fn check_skip_accumulates() {
    let mut ledger = Ledger::new();
    ledger.check_skip("primal unavailable");
    assert!(ledger.checks().iter().any(|r| r.outcome == Outcome::Skip));
}

#[test]
fn finish_returns_zero_on_all_pass() {
    let mut ledger = Ledger::new();
    ledger.check_bool("a", true);
    ledger.check_bool("b", true);
    ledger.check_skip("c");
    assert_eq!(ledger.finish(), 0);
}

#[test]
fn finish_returns_one_on_failure() {
    let mut ledger = Ledger::new();
    ledger.check_bool("pass", true);
    ledger.check_bool("fail", false);
    assert_eq!(ledger.finish(), 1);
}

#[test]
fn finish_fails_on_empty_suite() {
    let ledger = Ledger::new();
    assert_eq!(ledger.finish(), 1);
}

#[test]
fn section_does_not_count_as_check() {
    let mut ledger = Ledger::new();
    ledger.section("graph tests");
    ledger.check_bool("edge count", true);
    let (pass, fail, skip) = ledger.tally();
    assert_eq!(pass, 1);
    assert_eq!(fail, 0);
    assert_eq!(skip, 0);
}

#[test]
fn checks_carry_the_current_section() {
    let mut ledger = Ledger::new();
    ledger.check_bool("before", true);
    ledger.section("graph tests");
    ledger.check_bool("inside", false);
    let checks = ledger.checks();
    assert_eq!(checks.len(), 2);
    assert_eq!(checks[0].section, None);
    assert_eq!(checks[1].section.as_deref(), Some("graph tests"));
    assert_eq!(checks[1].outcome, Outcome::Fail);
}
