use fijit::bike_discount::{
    check_variants, stock_label, variant_line, BikeDiscountScraper, Variant, IN_STOCK_CLASS,
    IN_STOCK_MESSAGE, TARGET_SIZE,
};
use fijit::fijjit::scraper::ScrapeResult;
use fijit::scraper::Scraper;

fn variant(text: &str, class: &str) -> Variant {
    Variant { text: text.to_owned(), class: class.to_owned() }
}

#[test]
fn stock_label_in_stock() {
    assert_eq!(
        stock_label("nele-product-detail-configurator-option nele-stock-info dropdown-item --stock-1"),
        "✓ in stock"
    );
}

#[test]
fn stock_label_backordered() {
    assert_eq!(
        stock_label("nele-product-detail-configurator-option nele-stock-info dropdown-item --stock-4"),
        "~ 6+ weeks"
    );
}

#[test]
fn stock_label_unavailable() {
    assert_eq!(stock_label("nele-stock-info --stock-99"), "✗ unavailable");
}

#[test]
fn no_alert_when_target_backordered() {
    let variants = vec![variant("58 cm", "nele-stock-info --stock-4")];
    let target = variants.iter().find(|v| v.text == TARGET_SIZE);
    assert!(matches!(target, Some(v) if !v.class.contains(IN_STOCK_CLASS)));
    assert!(matches!(check_variants(&variants), ScrapeResult::NoChange));
}

#[test]
fn alert_when_target_in_stock() {
    let variants = vec![variant("58 cm", "nele-stock-info --stock-1")];
    let target = variants.iter().find(|v| v.text == TARGET_SIZE);
    assert!(matches!(target, Some(v) if v.class.contains(IN_STOCK_CLASS)));
    match check_variants(&variants) {
        ScrapeResult::Alert(m) => {
            assert_eq!(m, IN_STOCK_MESSAGE);
            assert!(m.starts_with("🚲 *58 cm Cube Editor Pro"));
        }
        _ => panic!("expected an alert"),
    }
}

#[test]
fn only_the_first_target_variant_counts() {
    let variants = vec![
        variant("54 cm", "nele-stock-info --stock-1"),
        variant("58 cm", "nele-stock-info --stock-4"),
        variant("58 cm", "nele-stock-info --stock-1"),
    ];
    assert!(matches!(check_variants(&variants), ScrapeResult::NoChange));
    assert!(matches!(check_variants(&Vec::new()), ScrapeResult::NoChange));
}

#[test]
fn variant_lines_are_padded() {
    assert_eq!(variant_line(&variant("54 cm", "x --stock-4")), "  54 cm    ~ 6+ weeks");
    assert_eq!(variant_line(&variant("extra-long", "x")), "  extra-long ✗ unavailable");
}

#[test]
fn scraper_identity_and_arguments() {
    let s = BikeDiscountScraper::new("/opt/obscura");
    assert_eq!(s.name(), "bike-discount");
    assert_eq!(s.description(), "Watches bike-discount.de for Cube Editor Pro 58cm availability");
    assert_eq!(s.binary(), "/opt/obscura");
    let args = s.check_args();
    assert_eq!(args[0], "fetch");
    assert_eq!(args[1], "https://www.bike-discount.de/en/cube-editor-pro-oatgrey-n-grey");
    assert_eq!(&args[2..5], &["--stealth", "--wait", "8"]);
    assert!(args[6].contains("nele-stock-info"));
    assert_eq!(args[7], "--quiet");
}
