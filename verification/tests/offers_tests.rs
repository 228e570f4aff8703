use drankdozijn::offers::select_offers;
use drankdozijn::offers::Whiskey;
use drankdozijn::offers::WhiskeyFeature;
use drankdozijn::offers::WhiskeyFeatureValue;

fn feature(alias: &str, description: &str, value: &str) -> WhiskeyFeature {
    WhiskeyFeature {
        alias: alias.to_string(),
        description: description.to_string(),
        value: WhiskeyFeatureValue { description: value.to_string() },
    }
}

fn whiskey(alias: &str, price_cents: u32, sale_price_cents: u32, brand: &str) -> Whiskey {
    Whiskey {
        availability: "in stock".to_string(),
        alias: alias.to_string(),
        description: alias.to_string(),
        price_cents,
        sale_price_cents,
        features: vec![
            feature("merk", "Merk", brand),
            feature("land", "Land", "Schotland"),
            feature("categorie", "Categorie", "single malt"),
            feature("alcohol", "Alcoholpercentage", "43"),
        ],
    }
}

#[test]
fn features_are_found_by_alias() {
    let w = whiskey("lagavulin-16", 7999, 6999, "Lagavulin");
    assert_eq!(w.brand(), Some("Lagavulin".to_string()));
    assert_eq!(w.country(), Some("Schotland".to_string()));
    assert_eq!(w.categorie(), Some("single malt".to_string()));
    assert_eq!(w.percentage(), Some("43".to_string()));
    assert_eq!(w.feature("missing"), None);
}

#[test]
fn feature_takes_the_first_matching_alias() {
    let mut w = whiskey("a", 100, 0, "First");
    w.features.push(feature("merk", "Merk", "Second"));
    assert_eq!(w.brand(), Some("First".to_string()));
}

#[test]
fn discount_is_the_sale_reduction_in_cents() {
    let on_sale = whiskey("a", 7999, 6999, "X");
    assert_eq!(on_sale.discount(), 1000);
    assert_eq!(on_sale.price(), 6999);

    let regular = whiskey("b", 7999, 0, "X");
    assert_eq!(regular.discount(), 0);
    assert_eq!(regular.price(), 7999);
}

#[test]
fn url_points_at_the_article() {
    let w = whiskey("lagavulin-16-jahre", 7999, 0, "Lagavulin");
    assert_eq!(
        w.url(),
        "https://drankdozijn.de/artikel/lagavulin-16-jahre".to_string()
    );
}

#[test]
fn select_offers_filters_and_sorts_by_discount() {
    let ws = vec![
        whiskey("small-cut", 4000, 3500, "A"),
        whiskey("no-sale", 4500, 0, "B"),
        whiskey("big-cut", 4800, 3300, "C"),
        whiskey("too-dear", 9900, 8000, "D"),
        whiskey("mid-cut", 4700, 3700, "E"),
    ];
    // At most 50 EUR list price, at least 5 EUR discount.
    let got = select_offers(ws, 50, 5);
    let aliases: Vec<String> = got.iter().map(|w| w.alias.clone()).collect();
    assert_eq!(
        aliases,
        vec!["big-cut".to_string(), "mid-cut".to_string(), "small-cut".to_string()]
    );
}

#[test]
fn select_offers_keeps_the_boundary_cases() {
    let ws = vec![
        whiskey("exactly-at-price", 5000, 4500, "A"),
        whiskey("exactly-at-discount", 4000, 3500, "B"),
        whiskey("one-cent-short", 4000, 3501, "C"),
    ];
    let got = select_offers(ws, 50, 5);
    let aliases: Vec<String> = got.iter().map(|w| w.alias.clone()).collect();
    assert_eq!(
        aliases,
        vec!["exactly-at-price".to_string(), "exactly-at-discount".to_string()]
    );
}
