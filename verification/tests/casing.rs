//! Tests of the string comparisons behind lookup and dispatch.

use erbauer::casing::{eq_exact, eq_ignore_case};

#[test]
fn exact_comparison_distinguishes_case() {
    assert!(eq_exact("build", "build"));
    assert!(!eq_exact("build", "Build"));
    assert!(!eq_exact("build", "buil"));
    assert!(!eq_exact("build", "builds"));
    assert!(eq_exact("", ""));
}

#[test]
fn case_insensitive_comparison_folds_ascii_letters() {
    assert!(eq_ignore_case("Build", "bUILD"));
    assert!(eq_ignore_case("MAIN", "main"));
    assert!(eq_ignore_case("v2-Release", "V2-rELEASE"));
    assert!(!eq_ignore_case("build", "built"));
    assert!(!eq_ignore_case("main", "main "));
    assert!(eq_ignore_case("", ""));
}
