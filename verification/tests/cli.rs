use fijit::cli::{
    find_scraper, list_row, on_error_text, resolve_obscura, schedule_entry, scheduled_crontab,
    unscheduled_crontab, CliError,
};
use fijit::bike_discount::BikeDiscountScraper;
use fijit::scraper::Scraper;

#[test]
fn obscura_flag_wins_over_path() {
    assert_eq!(resolve_obscura(Some("/x/obscura"), Some("/usr/bin/obscura".into())).unwrap(), "/x/obscura");
    assert_eq!(resolve_obscura(None, Some("/usr/bin/obscura".into())).unwrap(), "/usr/bin/obscura");
    let err = resolve_obscura(None, None).unwrap_err();
    assert!(matches!(err, CliError::ObscuraNotFound));
    assert_eq!(err.message("fijit"), "obscura not found on $PATH; pass --obscura <path>");
}

#[test]
fn scrapers_are_found_by_name() {
    let scrapers = vec![BikeDiscountScraper::new("/a"), BikeDiscountScraper::new("/b")];
    let found = find_scraper(&scrapers, "bike-discount").ok().unwrap();
    assert_eq!(found.binary(), "/a");
    let err = find_scraper(&scrapers, "nope").err().unwrap();
    assert_eq!(err.message("fijit"), "unknown scraper 'nope' (try `fijit list`)");
    assert_eq!(scrapers[1].name(), "bike-discount");
}

#[test]
fn error_message_template_is_filled() {
    assert_eq!(
        on_error_text("⚠️ *{name} scraper failed*: {error}", "shop", "timeout"),
        "⚠️ *shop scraper failed*: timeout"
    );
}

#[test]
fn list_rows_are_aligned() {
    assert_eq!(
        list_row("bike-discount", Some("*/30 * * * *"), "Watches", "-"),
        "bike-discount        */30 * * * * Watches"
    );
    assert_eq!(list_row("a", None, "d", "-"), "a                    -            d");
}

#[test]
fn schedule_writes_tag_and_entry() {
    let (entry, log) = schedule_entry("shop", "*/30 * * * *", "/home/u", "/usr/bin/fijit", "/usr/bin/obscura");
    assert_eq!(log, "/var/log/fijit/shop.log");
    assert_eq!(
        entry,
        "*/30 * * * *\tcd /home/u && /usr/bin/fijit --obscura /usr/bin/obscura run shop >> /var/log/fijit/shop.log 2>&1"
    );
    let existing = "MAILTO=me\n# fijit:shop\nold fijit run shop\n0 1 * * * backup\n\n";
    assert_eq!(
        scheduled_crontab(existing, "fijit", "shop", &entry),
        format!("MAILTO=me\n0 1 * * * backup\n# fijit:shop\n{entry}\n")
    );
}

#[test]
fn unschedule_drops_tagged_lines() {
    let existing = "MAILTO=me\n# fijit:shop\n* * * * * fijit run shop\n# fijit:other\n";
    assert_eq!(unscheduled_crontab(existing, "fijit", "shop"), "MAILTO=me\n# fijit:other\n");
    assert_eq!(unscheduled_crontab("", "fijit", "shop"), "\n");
}

#[test]
fn rescheduling_replaces_the_entry_and_unscheduling_removes_it() {
    let (entry, _) = schedule_entry("shop", "0 * * * *", "/d", "/usr/bin/fijit", "/o");
    let once = scheduled_crontab("", "fijit", "shop", &entry);
    assert_eq!(once, format!("\n# fijit:shop\n{entry}\n"));
    // The entry written under the tag line goes with it.
    let twice = scheduled_crontab(&once, "fijit", "shop", &entry);
    assert_eq!(twice, once);
    let lines: Vec<&str> = twice.lines().collect();
    assert_eq!(lines[lines.len() - 2], "# fijit:shop");
    assert_eq!(lines[lines.len() - 1], entry);
    assert_eq!(unscheduled_crontab(&twice, "fijit", "shop"), "\n");
}

#[test]
fn unscheduling_after_scheduling_gives_the_crontab_back() {
    let c0 = "MAILTO=me\n0 1 * * * backup\n";
    let (entry, _) = schedule_entry("shop", "*/5 * * * *", "/d", "/usr/bin/fijit", "/o");
    let scheduled = scheduled_crontab(c0, "fijit", "shop", &entry);
    assert_eq!(unscheduled_crontab(&scheduled, "fijit", "shop"), c0);
    assert_eq!(unscheduled_crontab(c0, "fijit", "shop"), c0);
}

#[test]
fn a_hand_written_line_under_the_tag_is_kept() {
    let existing = "# fijit:shop\n0 2 * * * backup\nMAILTO=me\n";
    assert_eq!(unscheduled_crontab(existing, "fijit", "shop"), "0 2 * * * backup\nMAILTO=me\n");
}

#[test]
fn carriage_returns_inside_lines_come_back() {
    let c0 = "A=1\rB=2\n0 1 * * * backup\n";
    let (entry, _) = schedule_entry("shop", "*/5 * * * *", "/d", "/usr/bin/fijit", "/o");
    let scheduled = scheduled_crontab(c0, "fijit", "shop", &entry);
    assert_eq!(scheduled_crontab(&scheduled, "fijit", "shop", &entry), scheduled);
    assert_eq!(unscheduled_crontab(&scheduled, "fijit", "shop"), c0);
}
