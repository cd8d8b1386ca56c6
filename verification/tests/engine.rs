use typescript_tools::configuration_file::reconcile;
use typescript_tools::configuration_file::Outcome;
use typescript_tools::opts::Action;

#[test]
fn reconcile_leaves_equal_artifacts_alone() {
    assert_eq!(reconcile(true, Action::Lint), Outcome::Unchanged);
    assert_eq!(reconcile(true, Action::Modify), Outcome::Unchanged);
}

#[test]
fn reconcile_reports_under_lint_and_writes_under_modify() {
    assert_eq!(reconcile(false, Action::Lint), Outcome::OutOfDate);
    assert_eq!(reconcile(false, Action::Modify), Outcome::Write);
}

#[test]
fn write_flag_selects_the_action() {
    assert_eq!(Action::from_write_flag(true), Action::Modify);
    assert_eq!(Action::from_write_flag(false), Action::Lint);
}
