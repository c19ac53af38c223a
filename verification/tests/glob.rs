use deft::glob::matches_any;

#[test]
fn star_stays_within_a_segment() {
    assert!(deft::glob::matches("*.c", "foo.c"));
    assert!(!deft::glob::matches("*.c", "sub/foo.c"));
    assert!(deft::glob::matches("src/*.cpp", "src/main.cpp"));
    assert!(!deft::glob::matches("src/*.cpp", "src/deep/main.cpp"));
}

#[test]
fn question_matches_exactly_one_char() {
    assert!(deft::glob::matches("v?.c", "v1.c"));
    assert!(!deft::glob::matches("v?.c", "v10.c"));
}

#[test]
fn double_star_spans_zero_or_more_segments() {
    assert!(deft::glob::matches("tests/**", "tests"));
    assert!(deft::glob::matches("tests/**", "tests/a.c"));
    assert!(deft::glob::matches("tests/**", "tests/unit/deep/b.c"));
    assert!(!deft::glob::matches("tests/**", "src/a.c"));
}

#[test]
fn leading_double_star_matches_at_any_depth() {
    assert!(deft::glob::matches("**/*_test.c", "a_test.c"));
    assert!(deft::glob::matches("**/*_test.c", "src/util/parser_test.c"));
    assert!(!deft::glob::matches("**/*_test.c", "src/parser.c"));
}

#[test]
fn double_star_in_the_middle() {
    assert!(deft::glob::matches("src/**/gen.cc", "src/gen.cc"));
    assert!(deft::glob::matches("src/**/gen.cc", "src/a/b/gen.cc"));
    assert!(!deft::glob::matches("src/**/gen.cc", "other/gen.cc"));
}

#[test]
fn matches_any_is_an_or_over_patterns() {
    let pats = vec!["tests/**".to_string(), "**/*.pb.cc".to_string()];
    assert!(matches_any(&pats, "tests/x.c"));
    assert!(matches_any(&pats, "proto/msg.pb.cc"));
    assert!(!matches_any(&pats, "src/lib.cpp"));
    assert!(!matches_any(&[], "anything"));
}

#[test]
fn separators_collapse_and_literal_segments_must_match_exactly() {
    assert!(deft::glob::matches("src//a.c", "src/a.c"));
    assert!(!deft::glob::matches("src/a.c", "src/a.cc"));
    assert!(deft::glob::matches("*", "anything"));
    assert!(!deft::glob::matches("*", "a/b"));
}
