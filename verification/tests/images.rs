use clear_docker_images::calendar::Date;
use clear_docker_images::date::{parse_date, DateWindow};
use clear_docker_images::images::{
    deserialize_creation_date, filter, parse_imgs, process_imgs, record_ids, sum_sizes,
    window_holds,
    FilterConfig, ImageRecord,
};
use clear_docker_images::size::SizeFault;

fn record(id: &str, tags: &[&str], created_at: i64, size: &str) -> ImageRecord {
    ImageRecord {
        id: id.to_string(),
        repository_tags: tags.iter().map(|tag| tag.to_string()).collect(),
        created_at,
        size: size.to_string(),
    }
}

fn excluding(tags: &[&str]) -> FilterConfig {
    FilterConfig::new(None, tags.iter().map(|tag| tag.to_string()).collect())
}

fn ids(records: &Vec<ImageRecord>) -> Vec<String> {
    record_ids(records)
}

const CUTOFF: DateWindow = DateWindow { start: 1_000, stop: None };

#[test]
fn a_new_configuration_guards_the_tools_own_images() {
    let config = FilterConfig::new(Some("busybox".to_string()), vec!["keep".to_string()]);
    assert_eq!(config.repository, Some("busybox".to_string()));
    assert_eq!(config.excluded_tags, vec!["keep".to_string()]);
    assert_eq!(
        config.self_image_guard,
        vec![
            "ghcr.io/datahearth/clear-docker-images".to_string(),
            "datahearth/clear-docker-images".to_string()
        ]
    );
}

#[test]
fn the_cutoff_itself_is_stale() {
    assert!(window_holds(999, &CUTOFF));
    assert!(window_holds(1_000, &CUTOFF));
    assert!(!window_holds(1_001, &CUTOFF));
    assert!(window_holds(i64::MIN, &CUTOFF));
}

#[test]
fn a_range_includes_both_ends_in_either_order() {
    for window in [
        DateWindow { start: 10, stop: Some(20) },
        DateWindow { start: 20, stop: Some(10) },
    ] {
        assert!(!window_holds(9, &window));
        assert!(window_holds(10, &window));
        assert!(window_holds(15, &window));
        assert!(window_holds(20, &window));
        assert!(!window_holds(21, &window));
    }
    let instant = DateWindow { start: 10, stop: Some(10) };
    assert!(window_holds(10, &instant));
    assert!(!window_holds(11, &instant));
}

#[test]
fn filtering_parts_the_records_and_keeps_their_order() {
    let records = vec![
        record("a", &["app:1"], 500, "1MB"),
        record("b", &["app:2"], 1_500, "1MB"),
        record("c", &["app:keep"], 500, "1MB"),
        record("d", &[], 1_000, "1MB"),
        record("e", &["other:1"], 2_000, "1MB"),
        record("f", &["other:2"], 0, "1MB"),
    ];
    let (keep, delete) = filter(records, &CUTOFF, &excluding(&["keep"]));
    assert_eq!(ids(&keep), ["b", "c", "e"]);
    assert_eq!(ids(&delete), ["a", "d", "f"]);
}

#[test]
fn records_given_twice_come_out_twice() {
    let records = vec![
        record("a", &["app:1"], 500, "1MB"),
        record("a", &["app:1"], 500, "1MB"),
        record("b", &["app:1"], 5_000, "1MB"),
        record("b", &["app:1"], 5_000, "1MB"),
    ];
    let (keep, delete) = filter(records, &CUTOFF, &excluding(&[]));
    assert_eq!(ids(&keep), ["b", "b"]);
    assert_eq!(ids(&delete), ["a", "a"]);
}

#[test]
fn nothing_in_nothing_out() {
    let (keep, delete) = filter(Vec::new(), &CUTOFF, &excluding(&["x"]));
    assert!(keep.is_empty());
    assert!(delete.is_empty());
}

#[test]
fn an_excluded_text_anywhere_in_a_name_protects() {
    let records = vec![
        record("a", &["repo/app:v1.2.0"], 0, "1MB"),
        record("b", &["repo/app:v1.3.0"], 0, "1MB"),
        record("c", &["repo/app:v2.0", "repo/app:1.2"], 0, "1MB"),
        record("d", &["1.", "2"], 0, "1MB"),
    ];
    let (keep, delete) = filter(records, &CUTOFF, &excluding(&["1.2"]));
    assert_eq!(ids(&keep), ["a", "c"]);
    assert_eq!(ids(&delete), ["b", "d"]);
}

#[test]
fn exclusion_is_case_sensitive() {
    let records = vec![record("a", &["app:Release"], 0, "1MB")];
    let (keep, delete) = filter(records, &CUTOFF, &excluding(&["release"]));
    assert!(keep.is_empty());
    assert_eq!(ids(&delete), ["a"]);
}

#[test]
fn an_empty_exclusion_protects_every_named_image() {
    let records = vec![record("a", &["app:1"], 0, "1MB"), record("b", &[], 0, "1MB")];
    let (keep, delete) = filter(records, &CUTOFF, &excluding(&[""]));
    assert_eq!(ids(&keep), ["a"]);
    assert_eq!(ids(&delete), ["b"]);
}

#[test]
fn the_tools_own_images_are_never_removed() {
    let records = vec![
        record("a", &["ghcr.io/datahearth/clear-docker-images:latest"], 0, "1MB"),
        record("b", &["datahearth/clear-docker-images:1.0"], 0, "1MB"),
        record("c", &["registry.local:5000/datahearth/clear-docker-images"], 0, "1MB"),
        record("d", &["datahearth/clear-docker-image"], 0, "1MB"),
    ];
    let (keep, delete) = filter(records, &CUTOFF, &excluding(&[]));
    assert_eq!(ids(&keep), ["a", "b", "c"]);
    assert_eq!(ids(&delete), ["d"]);
}

#[test]
fn a_guard_of_ones_own_replaces_the_default() {
    let config = FilterConfig {
        repository: None,
        excluded_tags: Vec::new(),
        self_image_guard: vec!["acme/cleaner".to_string()],
    };
    let records = vec![
        record("a", &["acme/cleaner:2"], 0, "1MB"),
        record("b", &["datahearth/clear-docker-images:1.0"], 0, "1MB"),
    ];
    let (keep, delete) = filter(records, &CUTOFF, &config);
    assert_eq!(ids(&keep), ["a"]);
    assert_eq!(ids(&delete), ["b"]);
}

#[test]
fn dangling_images_are_removed_when_stale() {
    let records = vec![record("a", &[], 0, "1MB"), record("b", &[], 2_000, "1MB")];
    let (keep, delete) = filter(records, &CUTOFF, &excluding(&["anything"]));
    assert_eq!(ids(&keep), ["b"]);
    assert_eq!(ids(&delete), ["a"]);
}

#[test]
fn an_image_of_three_days_ago_is_removed_by_default() {
    let today = Date { year: 2023, month: 6, day: 10 };
    let window = parse_date(None, today).unwrap();
    let created = deserialize_creation_date("2023-06-07 12:00:00 +0000 UTC").unwrap();
    let records = vec![record("sha256:1", &["latest"], created, "500MB")];
    let (keep, delete) = filter(records, &window, &excluding(&[]));
    assert!(keep.is_empty());
    assert_eq!(ids(&delete), ["sha256:1"]);
    assert_eq!(sum_sizes(&delete).unwrap(), 500_000_000);

    let records = vec![record("sha256:1", &["latest"], created, "500MB")];
    let (found, reclaimed) = process_imgs(records, Vec::new(), window).unwrap();
    assert_eq!(found, ["sha256:1"]);
    assert_eq!(reclaimed, 500_000_000);
}

#[test]
fn an_image_with_an_excluded_tag_is_kept() {
    let today = Date { year: 2023, month: 6, day: 10 };
    let window = parse_date(None, today).unwrap();
    let created = deserialize_creation_date("2023-06-07 12:00:00 +0000 UTC").unwrap();
    let records = vec![record("sha256:1", &["release"], created, "500MB")];
    let (keep, delete) = filter(records, &window, &excluding(&["release"]));
    assert_eq!(ids(&keep), ["sha256:1"]);
    assert!(delete.is_empty());
    assert_eq!(sum_sizes(&delete).unwrap(), 0);

    let records = vec![record("sha256:1", &["release"], created, "500MB")];
    let (found, reclaimed) = process_imgs(records, vec!["release".to_string()], window).unwrap();
    assert!(found.is_empty());
    assert_eq!(reclaimed, 0);
}

#[test]
fn a_range_of_january_holds_the_fifteenth_but_not_february() {
    let today = Date { year: 2023, month: 6, day: 10 };
    let window = parse_date(Some("2023-01-01|2023-01-31".to_string()), today).unwrap();
    let inside = deserialize_creation_date("2023-01-15 00:00:00 +0000 UTC").unwrap();
    let outside = deserialize_creation_date("2023-02-01 00:00:00 +0000 UTC").unwrap();
    let records = vec![
        record("january", &["app:1"], inside, "10MB"),
        record("february", &["app:2"], outside, "10MB"),
    ];
    let (keep, delete) = filter(records, &window, &excluding(&[]));
    assert_eq!(ids(&keep), ["february"]);
    assert_eq!(ids(&delete), ["january"]);
}

#[test]
fn the_day_of_creation_is_read_in_its_own_time_zone() {
    let today = Date { year: 2023, month: 6, day: 10 };
    let window = parse_date(Some("2023-01-01".to_string()), today).unwrap();
    let before = deserialize_creation_date("2023-01-01 00:30:00 +0100 CET").unwrap();
    let after = deserialize_creation_date("2022-12-31 23:30:00 -0100 AZOT").unwrap();
    assert_eq!(before, 1_672_531_200 - 1_800);
    assert_eq!(after, 1_672_531_200 + 1_800);
    assert!(window_holds(before, &window));
    assert!(!window_holds(after, &window));
}

#[test]
fn creation_dates_that_cannot_be_read() {
    let error = deserialize_creation_date("3 days ago").unwrap_err();
    assert_eq!(error.input, "3 days ago");
}

#[test]
fn sizes_add_up() {
    let records = vec![
        record("a", &[], 0, "500MB"),
        record("b", &[], 0, "1.5GB"),
        record("c", &[], 0, "250KB"),
    ];
    assert_eq!(sum_sizes(&records).unwrap(), 2_000_250_000);
    assert_eq!(sum_sizes(&Vec::new()).unwrap(), 0);
}

#[test]
fn sums_do_not_overflow_64_bits() {
    let records = vec![
        record("a", &[], 0, "18446744073.709551615GB"),
        record("b", &[], 0, "18446744073.709551615GB"),
    ];
    assert_eq!(sum_sizes(&records).unwrap(), 2 * (u64::MAX as u128));
}

#[test]
fn the_first_size_that_cannot_be_read_ends_the_sum() {
    let records = vec![
        record("a", &[], 0, "500MB"),
        record("b", &[], 0, "12TB"),
        record("c", &[], 0, "x2MB"),
    ];
    let error = sum_sizes(&records).unwrap_err();
    assert_eq!(error.fault, SizeFault::UnknownUnit);
    assert_eq!(error.input, "12TB");
}

#[test]
fn only_the_sizes_of_stale_images_are_read() {
    let records = vec![
        record("a", &["app:1"], 0, "500MB"),
        record("b", &["app:2"], 5_000, "not a size"),
        record("c", &["app:keep"], 0, "neither"),
        record("d", &[], 0, "2GB"),
    ];
    let (found, reclaimed) = process_imgs(records, vec!["keep".to_string()], CUTOFF).unwrap();
    assert_eq!(found, ["a", "d"]);
    assert_eq!(reclaimed, 2_500_000_000);
}

#[test]
fn a_stale_image_without_a_size_fails_the_run() {
    let records = vec![
        record("a", &["app:1"], 0, "500MB"),
        record("b", &["app:2"], 0, "5 MB"),
    ];
    let error = process_imgs(records, Vec::new(), CUTOFF).unwrap_err();
    assert_eq!(error.fault, SizeFault::InvalidMagnitude);
    assert_eq!(error.input, "5 MB");
}

#[test]
fn a_listing_is_parted_at_its_line_feeds() {
    assert_eq!(parse_imgs("a\nb\n"), ["a", "b"]);
    assert_eq!(parse_imgs("{\"ID\":\"1\"}\n"), ["{\"ID\":\"1\"}"]);
    assert_eq!(parse_imgs("\n\n"), ["", ""]);
    assert_eq!(parse_imgs("a\r\nb\n"), ["a\r", "b"]);
    assert_eq!(parse_imgs("\u{e9}t\u{e9}\n\u{65e5}\n"), ["\u{e9}t\u{e9}", "\u{65e5}"]);
}

#[test]
fn what_follows_the_last_line_feed_is_no_image() {
    assert!(parse_imgs("").is_empty());
    assert!(parse_imgs("a").is_empty());
    assert_eq!(parse_imgs("a\nb"), ["a"]);
}
