use drankdozijn::deal::Banner;
use drankdozijn::deal::Discovery;
use drankdozijn::deal::DiscoveryError;
use drankdozijn::deal::HomeResponse;
use drankdozijn::template::derive_template;
use drankdozijn::template::substitute;

const CDN: &str = "https://res.cloudinary.com/boozeboodcdn/image/upload/";

fn home_of(paths: &[&str]) -> HomeResponse {
    HomeResponse {
        banners: paths
            .iter()
            .map(|p| Banner { imgsrc: p.to_string() })
            .collect(),
    }
}

#[test]
fn template_is_derived_from_the_sample() {
    let got = derive_template("homepage/drankdozijn/drankdozijn-enjoyislay-de-lagavulin8.jpg");
    assert_eq!(
        got,
        Some("homepage/drankdozijn/drankdozijn-enjoyislay-de-{}.jpg".to_string())
    );
}

#[test]
fn template_derivation_fails_without_the_shape() {
    assert_eq!(derive_template("homepage/foo/bar.png"), None);
    assert_eq!(derive_template("nomarker.jpg"), None);
    assert_eq!(derive_template(""), None);
}

#[test]
fn substitution_fills_the_placeholder() {
    assert_eq!(
        substitute("homepage/drankdozijn/drankdozijn-enjoyislay-de-{}.jpg", "ben-nevis"),
        "homepage/drankdozijn/drankdozijn-enjoyislay-de-ben-nevis.jpg".to_string()
    );
    assert_eq!(substitute("no-placeholder.jpg", "x"), "no-placeholder.jpg".to_string());
}

#[test]
fn empty_feed_aborts_before_any_probe() {
    let home = home_of(&[]);
    let r = Discovery::new(&home, true);
    assert!(matches!(r, Err(DiscoveryError::EmptyFeed)));
}

#[test]
fn banner_sweep_probes_every_candidate_in_feed_order() {
    let home = home_of(&[
        "homepage/drankdozijn/drankdozijn-enjoyislay-de-lagavulin8.jpg",
        "homepage/drankdozijn/drankdozijn-other-de-talisker.jpg",
    ]);
    let mut d = Discovery::new(&home, false).ok().unwrap();
    let mut probed: Vec<String> = Vec::new();
    while let Some(url) = d.next_probe() {
        probed.push(url);
        d.record_probe(false);
    }
    assert_eq!(
        probed,
        vec![
            format!("{}homepage/drankdozijn/drankdozijn-enjoyislay-de-dd-lagavulin8.jpg", CDN),
            format!("{}homepage/drankdozijn/drankdozijn-enjoyislay-de-dd-lagavulin.jpg", CDN),
            format!("{}homepage/drankdozijn/drankdozijn-other-de-dd-talisker.jpg", CDN),
        ]
    );
    assert!(d.needs_brands());
    assert!(!d.finished());
}

#[test]
fn early_stop_success_skips_the_brand_sweep() {
    let home = home_of(&["homepage/drankdozijn/drankdozijn-enjoyislay-de-lagavulin8.jpg"]);
    let mut d = Discovery::new(&home, true).ok().unwrap();
    let first = d.next_probe();
    assert!(first.is_some());
    d.record_probe(true);
    assert!(d.finished());
    assert!(!d.needs_brands());
    assert!(d.next_probe().is_none());
    assert!(d.found);
}

#[test]
fn exhausted_run_walks_both_phases() {
    let home = home_of(&["homepage/drankdozijn/drankdozijn-enjoyislay-de-lagavulin8.jpg"]);
    let mut d = Discovery::new(&home, true).ok().unwrap();
    while let Some(_url) = d.next_probe() {
        d.record_probe(false);
    }
    assert!(d.needs_brands());
    let raws = vec![
        "Lagavulin".to_string(),
        "lagavulin".to_string(),
        "Ben Nevis".to_string(),
    ];
    d.supply_brands(&raws);
    let mut probed: Vec<String> = Vec::new();
    while let Some(url) = d.next_probe() {
        probed.push(url);
        d.record_probe(false);
    }
    assert!(d.finished());
    assert!(!d.found);
    assert_eq!(
        probed,
        vec![
            // `ben-nevis` also yields a normalized candidate: the
            // hyphen after the title run is stripped.
            format!("{}homepage/drankdozijn/drankdozijn-enjoyislay-de-dd-ben-nevis.jpg", CDN),
            format!("{}homepage/drankdozijn/drankdozijn-enjoyislay-de-dd-bennevis.jpg", CDN),
            format!("{}homepage/drankdozijn/drankdozijn-enjoyislay-de-dd-lagavulin.jpg", CDN),
        ]
    );
}

#[test]
fn unmatched_sample_is_kept_as_the_template() {
    let home = home_of(&["homepage/foo/bar.png"]);
    let d = Discovery::new(&home, false).ok().unwrap();
    assert!(!d.template_matched);
    assert_eq!(d.template, "homepage/foo/bar.png".to_string());
}
