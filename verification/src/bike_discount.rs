//! A hand-written scraper: watches bike-discount.de for a frame size coming
//! into stock.
use vstd::prelude::*;
use crate::cli::{pad_right, push_padded};
use crate::fijjit::scraper::ScrapeResult;
use crate::obscura::{eval_arguments, ObscuraRunner};
use crate::scraper::Scraper;
use crate::text::{push_str_chars, seq_contains, str_contains, str_eq, strings_view};

verus! {

/// The product page.
pub const URL: &'static str = "https://www.bike-discount.de/en/cube-editor-pro-oatgrey-n-grey";

/// The frame size to watch.
pub const TARGET_SIZE: &'static str = "58 cm";

/// The class marking a variant as in stock.
pub const IN_STOCK_CLASS: &'static str = "--stock-1";

/// The script that lists the size variants with their stock classes.
pub const EVAL: &'static str = "JSON.stringify(
  Array.from(document.querySelectorAll('.nele-product-detail-configurator-option.nele-stock-info'))
  .map(el => ({text: el.textContent.trim().split('\\n')[0].trim(), class: el.className}))
)";

/// The alert sent when the target size is in stock.
pub const IN_STOCK_MESSAGE: &'static str = "🚲 *58 cm Cube Editor Pro oatgrey'n'grey is IN STOCK!*\n<https://www.bike-discount.de/en/cube-editor-pro-oatgrey-n-grey|Buy it now on bike-discount.de>";

/// One size variant as listed on the page.
pub struct Variant {
    /// Size label, e.g. `"58 cm"`.
    pub text: String,
    /// The variant's class attribute.
    pub class: String,
}

/// Watches bike-discount.de for Cube Editor Pro 58cm availability.
pub struct BikeDiscountScraper {
    runner: ObscuraRunner,
}

impl BikeDiscountScraper {
    /// A scraper that runs the Obscura binary at `obscura_path`.
    pub fn new(obscura_path: &str) -> (r: BikeDiscountScraper)
        ensures
            r.runner().binary@ == obscura_path@,
    {
        BikeDiscountScraper { runner: ObscuraRunner::new(obscura_path) }
    }

    /// The runner this scraper uses.
    pub closed spec fn runner(&self) -> ObscuraRunner {
        self.runner
    }

    /// The Obscura binary path.
    pub fn binary(&self) -> (r: &str)
        ensures
            r@ == self.runner().binary@,
    {
        self.runner.binary.as_str()
    }

    /// The Obscura arguments of a check: the product page, the variant script,
    /// an 8 second wait.
    pub fn check_args(&self) -> (r: Vec<String>)
        ensures
            strings_view(r@) == eval_arguments(URL@, EVAL@, 8),
    {
        self.runner.eval_args(URL, EVAL, 8)
    }
}

/// The stock label for a variant's class.
pub open spec fn stock_label_spec(class: Seq<char>) -> Seq<char> {
    if seq_contains(class, "--stock-1"@) {
        "✓ in stock"@
    } else if seq_contains(class, "--stock-4"@) {
        "~ 6+ weeks"@
    } else {
        "✗ unavailable"@
    }
}

/// A human-readable stock status for a variant's class.
pub fn stock_label(class: &str) -> (r: &'static str)
    ensures
        r@ == stock_label_spec(class@),
{
    if str_contains(class, "--stock-1") {
        "✓ in stock"
    } else if str_contains(class, "--stock-4") {
        "~ 6+ weeks"
    } else {
        "✗ unavailable"
    }
}

/// The status line printed for a variant: two spaces, the size padded to 8,
/// a space, the stock label.
pub fn variant_line(v: &Variant) -> (r: String)
    ensures
        r@ == "  "@ + pad_right(v.text@, 8) + " "@ + stock_label_spec(v.class@),
{
    let label = stock_label(v.class.as_str());
    let mut out = String::new();
    push_str_chars(&mut out, "  ");
    push_padded(&mut out, v.text.as_str(), 8);
    push_str_chars(&mut out, " ");
    push_str_chars(&mut out, label);
    out
}

/// The first variant of the target size, if any.
pub open spec fn target_variant(vs: Seq<Variant>) -> Option<Variant>
    decreases vs.len(),
{
    if vs.len() == 0 {
        None
    } else if vs[0].text@ == TARGET_SIZE@ {
        Some(vs[0])
    } else {
        target_variant(vs.drop_first())
    }
}

/// Whether the check alerts for these variants: the first variant of the
/// target size exists and is in stock.
pub open spec fn in_stock(vs: Seq<Variant>) -> bool {
    match target_variant(vs) {
        Some(v) => seq_contains(v.class@, IN_STOCK_CLASS@),
        None => false,
    }
}

/// What a check reports for the variants read from the page.
pub fn check_variants(variants: &Vec<Variant>) -> (r: ScrapeResult)
    ensures
        in_stock(variants@) ==> (r matches ScrapeResult::Alert(m) && m@ == IN_STOCK_MESSAGE@),
        !in_stock(variants@) ==> r is NoChange,
{
    let mut i: usize = 0;
    assert(variants@.skip(0) =~= variants@);
    while i < variants.len()
        invariant
            i <= variants@.len(),
            target_variant(variants@) == target_variant(variants@.skip(i as int)),
        decreases variants@.len() - i,
    {
        assert(variants@.skip(i as int)[0] == variants@[i as int]);
        if str_eq(variants[i].text.as_str(), TARGET_SIZE) {
            if str_contains(variants[i].class.as_str(), IN_STOCK_CLASS) {
                return ScrapeResult::Alert(IN_STOCK_MESSAGE.to_owned());
            }
            return ScrapeResult::NoChange;
        }
        assert(variants@.skip(i as int).drop_first() =~= variants@.skip(i + 1));
        i += 1;
    }
    assert(variants@.skip(i as int) =~= Seq::<Variant>::empty());
    ScrapeResult::NoChange
}

impl Scraper for BikeDiscountScraper {
    open spec fn spec_name(&self) -> Seq<char> {
        "bike-discount"@
    }

    fn name(&self) -> (r: &str) {
        "bike-discount"
    }

    fn description(&self) -> (r: &str)
        ensures
            r@ == "Watches bike-discount.de for Cube Editor Pro 58cm availability"@,
    {
        "Watches bike-discount.de for Cube Editor Pro 58cm availability"
    }
}

} // verus!
