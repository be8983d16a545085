use does_it_build::dates::{
    format_nightly_date, guess_more_recent_nightlies, parse_nightly_date, CatalogError,
    NightlyDate,
};
use does_it_build::db::{BuildMode, FinishedNightly};
use does_it_build::nightlies::{known_nightlies, nightlies_from_manifest, Nightlies, NightlyCache};

#[test]
fn manifest_parse() {
    let test_manifest = "static.rust-lang.org/dist/2024-08-22/channel-rust-nightly.toml
static.rust-lang.org/dist/2024-08-22/channel-rust-1.81.0-beta.toml
static.rust-lang.org/dist/2024-08-22/channel-rust-1.81.0-beta.6.toml
static.rust-lang.org/dist/2024-08-23/channel-rust-nightly.toml";

    let nightlies = nightlies_from_manifest(&test_manifest);
    assert_eq!(nightlies, vec!["2024-08-22", "2024-08-23"]);
}

#[test]
fn guess() {
    let nightlies = guess_more_recent_nightlies("2024-08-28").unwrap();
    assert_eq!(
        nightlies,
        [
            "2024-08-29",
            "2024-08-30",
            "2024-08-31",
            "2024-09-01",
            "2024-09-02",
            "2024-09-03",
            "2024-09-04",
            "2024-09-05",
        ]
    );
}

#[test]
fn manifest_parse_single_nightly_among_beta_lines() {
    let manifest = "static.rust-lang.org/dist/2024-08-22/channel-rust-1.81.0-beta.toml\n\
static.rust-lang.org/dist/2024-08-22/channel-rust-nightly.toml\n\
static.rust-lang.org/dist/2024-08-22/channel-rust-beta.toml\n";
    assert_eq!(nightlies_from_manifest(manifest), vec!["2024-08-22"]);
}

#[test]
fn manifest_parse_crlf_and_empty() {
    let manifest = "static.rust-lang.org/dist/2024-01-02/channel-rust-nightly.toml\r\n\r\nnoise\n";
    assert_eq!(nightlies_from_manifest(manifest), vec!["2024-01-02"]);
    assert!(nightlies_from_manifest("").is_empty());
    assert!(nightlies_from_manifest("static.rust-lang.org/dist/channel-rust-nightly.toml").is_empty());
}

#[test]
fn known_nightlies_filters_and_sorts() {
    let manifest = "static.rust-lang.org/dist/2024-03-01/channel-rust-nightly.toml
static.rust-lang.org/dist/2022-12-31/channel-rust-nightly.toml
static.rust-lang.org/dist/2023-01-01/channel-rust-nightly.toml
static.rust-lang.org/dist/2023-05-07/channel-rust-nightly.toml";
    assert_eq!(known_nightlies(manifest).unwrap(), vec!["2023-01-01", "2023-05-07", "2024-03-01"]);
}

#[test]
fn known_nightlies_empty_is_error() {
    assert_eq!(known_nightlies("nothing here").unwrap_err(), CatalogError::NoNightlies);
    let old_only = "static.rust-lang.org/dist/2022-01-01/channel-rust-nightly.toml";
    assert_eq!(known_nightlies(old_only).unwrap_err(), CatalogError::NoNightlies);
}

#[test]
fn guess_crosses_year_and_leap_day() {
    let nightlies = guess_more_recent_nightlies("2023-12-30").unwrap();
    assert_eq!(nightlies[0], "2023-12-31");
    assert_eq!(nightlies[1], "2024-01-01");
    assert_eq!(nightlies.len(), 8);
    let leap = guess_more_recent_nightlies("2024-02-28").unwrap();
    assert_eq!(leap[0], "2024-02-29");
    assert_eq!(leap[1], "2024-03-01");
    let common = guess_more_recent_nightlies("2023-02-28").unwrap();
    assert_eq!(common[0], "2023-03-01");
}

#[test]
fn guess_stops_at_last_representable_day() {
    let nightlies = guess_more_recent_nightlies("9999-12-29").unwrap();
    assert_eq!(nightlies, vec!["9999-12-30", "9999-12-31"]);
}

#[test]
fn guess_rejects_invalid_date() {
    assert_eq!(guess_more_recent_nightlies("2024-02-30"), Err(CatalogError::InvalidDate));
    assert_eq!(guess_more_recent_nightlies("2024-8-28"), Err(CatalogError::InvalidDate));
    assert_eq!(guess_more_recent_nightlies("not a date"), Err(CatalogError::InvalidDate));
}

#[test]
fn date_parse_and_format() {
    let d = parse_nightly_date("2024-08-28").unwrap();
    assert_eq!(d, NightlyDate { year: 2024, month: 8, day: 28 });
    assert_eq!(format_nightly_date(NightlyDate { year: 7, month: 1, day: 9 }), "0007-01-09");
    assert!(parse_nightly_date("2023-02-29").is_none());
    assert!(parse_nightly_date("2024-13-01").is_none());
}

fn finished(nightly: &str, mode: BuildMode) -> FinishedNightly {
    FinishedNightly { nightly: nightly.to_string(), mode }
}

#[test]
fn selection_order() {
    let nightlies =
        Nightlies::assemble(vec!["2024-08-22".to_string(), "2024-08-23".to_string()], vec![]);
    let mut done = Vec::new();
    assert_eq!(
        nightlies.select_latest_to_build(&done),
        Some(("2024-08-23".to_string(), BuildMode::Core))
    );
    done.push(finished("2024-08-23", BuildMode::Core));
    assert_eq!(
        nightlies.select_latest_to_build(&done),
        Some(("2024-08-23".to_string(), BuildMode::MiriStd))
    );
    done.push(finished("2024-08-23", BuildMode::MiriStd));
    assert_eq!(
        nightlies.select_latest_to_build(&done),
        Some(("2024-08-22".to_string(), BuildMode::Core))
    );
    done.push(finished("2024-08-22", BuildMode::Core));
    done.push(finished("2024-08-22", BuildMode::MiriStd));
    assert_eq!(nightlies.select_latest_to_build(&done), None);
}

#[test]
fn selection_on_empty_catalog() {
    let nightlies = Nightlies::from_newest_first(vec![]);
    assert_eq!(nightlies.select_latest_to_build(&[]), None);
}

#[test]
fn assemble_puts_probed_newest_first() {
    let nightlies = Nightlies::assemble(
        vec!["2024-08-20".to_string(), "2024-08-21".to_string()],
        vec!["2024-08-22".to_string(), "2024-08-23".to_string()],
    );
    assert_eq!(nightlies.all(), &vec!["2024-08-23", "2024-08-22", "2024-08-21", "2024-08-20"]);
}

#[test]
fn cache_remembers_confirmed_nightlies() {
    let mut cache = NightlyCache::default();
    assert!(!cache.contains("2024-08-29"));
    assert!(!cache.record_probe("2024-08-29", 404));
    assert!(!cache.contains("2024-08-29"));
    assert!(cache.record_probe("2024-08-29", 200));
    assert!(cache.contains("2024-08-29"));
    assert!(!cache.contains("2024-08-30"));
}
