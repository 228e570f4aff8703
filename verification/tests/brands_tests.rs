use drankdozijn::brands::brand_list;
use drankdozijn::brands::normalize_brand;

#[test]
fn brand_normalization_lowercases_and_hyphenates() {
    assert_eq!(normalize_brand("Ben Nevis"), "ben-nevis".to_string());
    assert_eq!(normalize_brand("Lagavulin"), "lagavulin".to_string());
    assert_eq!(normalize_brand(""), "".to_string());
}

#[test]
fn brand_list_deduplicates_and_sorts() {
    let raws = vec![
        "Lagavulin".to_string(),
        "lagavulin".to_string(),
        "Ben Nevis".to_string(),
    ];
    let got = brand_list(&raws);
    assert_eq!(got, vec!["ben-nevis".to_string(), "lagavulin".to_string()]);
}

#[test]
fn brand_list_of_nothing_is_empty() {
    let got = brand_list(&Vec::new());
    assert!(got.is_empty());
}

#[test]
fn brand_list_keeps_distinct_brands() {
    let raws = vec![
        "Talisker".to_string(),
        "Oban".to_string(),
        "Talisker".to_string(),
        "Arran".to_string(),
    ];
    let got = brand_list(&raws);
    assert_eq!(
        got,
        vec!["arran".to_string(), "oban".to_string(), "talisker".to_string()]
    );
}
