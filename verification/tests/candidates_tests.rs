use std::collections::HashSet;

use drankdozijn::candidates::candidates;

fn candidate_set(path: &str) -> HashSet<String> {
    candidates(path).into_iter().collect()
}

#[test]
fn tests_candidates_without_number() {
    let mut expected = HashSet::new();
    expected.insert("homepage/drankdozijn/drankdozijn-enjoyislay-de-dd-lagavulin.jpg".to_string());

    assert_eq!(
        candidate_set("homepage/drankdozijn/drankdozijn-enjoyislay-de-lagavulin.jpg"),
        expected
    );
}

#[test]
fn tests_candidates_with_single_digit_number() {
    let mut expected = HashSet::new();

    expected.insert("homepage/drankdozijn/drankdozijn-enjoyislay-de-dd-lagavulin8.jpg".to_string());
    expected.insert("homepage/drankdozijn/drankdozijn-enjoyislay-de-dd-lagavulin.jpg".to_string());

    assert_eq!(
        candidate_set("homepage/drankdozijn/drankdozijn-enjoyislay-de-lagavulin8.jpg"),
        expected,
    );
}

#[test]
fn tests_candidates_with_multi_digit_number() {
    let mut expected = HashSet::new();

    expected.insert(
        "homepage/drankdozijn/drankdozijn-enjoyislay-de-dd-lagavulin12.jpg".to_string(),
    );
    expected.insert("homepage/drankdozijn/drankdozijn-enjoyislay-de-dd-lagavulin.jpg".to_string());

    assert_eq!(
        candidate_set("homepage/drankdozijn/drankdozijn-enjoyislay-de-lagavulin12.jpg"),
        expected
    );
}

#[test]
fn tests_candidates_with_dash_and_number() {
    let mut expected = HashSet::new();

    expected.insert(
        "homepage/drankdozijn/drankdozijn-enjoyislay-de-dd-lagavulin-8.jpg".to_string(),
    );
    expected.insert("homepage/drankdozijn/drankdozijn-enjoyislay-de-dd-lagavulin.jpg".to_string());

    assert_eq!(
        candidate_set("homepage/drankdozijn/drankdozijn-enjoyislay-de-lagavulin-8.jpg"),
        expected,
    );
}

#[test]
fn tests_candidates_with_dash_after_number() {
    let mut expected = HashSet::new();

    expected.insert(
        "homepage/drankdozijn/drankdozijn-enjoyislay-de-dd-lagavulin-8-.jpg".to_string(),
    );
    expected.insert("homepage/drankdozijn/drankdozijn-enjoyislay-de-dd-lagavulin.jpg".to_string());

    assert_eq!(
        candidate_set("homepage/drankdozijn/drankdozijn-enjoyislay-de-lagavulin-8-.jpg"),
        expected,
    );
}

#[test]
fn candidates_filename_ending_in_marker() {
    let mut expected = HashSet::new();
    expected.insert("homepage/drankdozijn/drankdozijn-enjoyislay-de-dd-.jpg".to_string());

    assert_eq!(
        candidate_set("homepage/drankdozijn/drankdozijn-enjoyislay-de-.jpg"),
        expected
    );
}

#[test]
fn candidates_without_marker_pass_through() {
    let mut expected = HashSet::new();
    expected.insert("homepage/foo/bar.jpg".to_string());

    assert_eq!(candidate_set("homepage/foo/bar.jpg"), expected);
}

#[test]
fn candidates_simple_before_normalized() {
    let got = candidates("homepage/drankdozijn/drankdozijn-enjoyislay-de-lagavulin8.jpg");
    assert_eq!(
        got,
        vec![
            "homepage/drankdozijn/drankdozijn-enjoyislay-de-dd-lagavulin8.jpg".to_string(),
            "homepage/drankdozijn/drankdozijn-enjoyislay-de-dd-lagavulin.jpg".to_string(),
        ]
    );
}

#[test]
fn candidates_idempotent_on_normalized_form() {
    let got = candidates("homepage/drankdozijn/drankdozijn-enjoyislay-de-lagavulin8.jpg");
    assert_eq!(got.len(), 2);
    // The normalized candidate's pre-extension form generates itself.
    let again = candidates("homepage/drankdozijn/drankdozijn-enjoyislay-de-lagavulin.jpg");
    assert_eq!(
        again,
        vec!["homepage/drankdozijn/drankdozijn-enjoyislay-de-dd-lagavulin.jpg".to_string()]
    );
}

#[test]
fn candidates_extend_every_marker_occurrence() {
    let got = candidates("a-de-b/x-de-y.jpg");
    assert_eq!(
        got,
        vec![
            "a-de-dd-b/x-de-dd-y.jpg".to_string(),
            // The filename's title run swallows the dot, so nothing is
            // stripped and both candidates coincide; a digit changes that.
        ]
    );
}
