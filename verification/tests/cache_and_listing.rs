use cvm::cache::{
    cache_entry_is_stale, decimal_u64, parse_duration_arg, source_downloads, trim_str,
    DEFAULT_CACHE_TTL_SECS,
};
use cvm::listing::{
    archive_name, list_line, pick_cache_archive, profile_name_of, sort_cache_entries,
    sort_profiles_by_name, sort_versions, text_is_less, CacheEntry, ProfileEntry,
};
use cvm::platform::{default_names_version, default_version_text, last_used_record, parse_last_used};
use cvm::{Tool, Version};

fn v(text: &str) -> Version {
    Version::parse(text).unwrap()
}

fn cache_entry(tool: Tool, version: &str, dir: &str) -> CacheEntry {
    CacheEntry {
        tool,
        version: v(version),
        dir: dir.to_string(),
        path: format!("{dir}/a.tar.xz"),
        bytes: 1,
        last_used: 0,
    }
}

#[test]
fn durations_take_seconds_minutes_hours_and_days() {
    assert_eq!(parse_duration_arg("14d"), Ok(1_209_600));
    assert_eq!(parse_duration_arg("14d"), Ok(DEFAULT_CACHE_TTL_SECS));
    assert_eq!(parse_duration_arg("30"), Ok(30));
    assert_eq!(parse_duration_arg("30s"), Ok(30));
    assert_eq!(parse_duration_arg("5m"), Ok(300));
    assert_eq!(parse_duration_arg("2h"), Ok(7200));
    assert_eq!(parse_duration_arg(" 10s \n"), Ok(10));
    assert_eq!(parse_duration_arg("0d"), Ok(0));
    assert_eq!(parse_duration_arg("18446744073709551615"), Ok(u64::MAX));
}

#[test]
fn duration_errors_quote_the_input() {
    assert_eq!(parse_duration_arg("").unwrap_err(), "invalid duration: ");
    assert_eq!(parse_duration_arg("d").unwrap_err(), "invalid duration: d");
    assert_eq!(parse_duration_arg("-5").unwrap_err(), "invalid duration: -5");
    assert_eq!(parse_duration_arg("1.5h").unwrap_err(), "invalid duration: 1.5h");
    assert_eq!(parse_duration_arg("1w").unwrap_err(), "unsupported duration unit: 1w");
    assert_eq!(parse_duration_arg("1dd").unwrap_err(), "unsupported duration unit: 1dd");
    assert_eq!(parse_duration_arg(" 7x").unwrap_err(), "unsupported duration unit:  7x");
    assert_eq!(
        parse_duration_arg("18446744073709551616").unwrap_err(),
        "duration is too large: 18446744073709551616"
    );
    assert_eq!(
        parse_duration_arg("18446744073709551615d").unwrap_err(),
        "duration is too large: 18446744073709551615d"
    );
}

#[test]
fn stale_means_older_than_the_limit() {
    assert!(!cache_entry_is_stale(100, 50, 50));
    assert!(cache_entry_is_stale(101, 50, 50));
    assert!(!cache_entry_is_stale(10, 50, 0));
    assert!(cache_entry_is_stale(u64::MAX, 0, u64::MAX - 1));
}

#[test]
fn text_helpers_trim_and_read_numbers() {
    assert_eq!(trim_str("  a b \t"), "a b");
    assert_eq!(trim_str(" \n "), "");
    assert_eq!(decimal_u64("0042"), Some(42));
    assert_eq!(decimal_u64("18446744073709551616"), None);
}

#[test]
fn last_used_records_round_trip() {
    assert_eq!(last_used_record(1_700_000_000), "1700000000\n");
    assert_eq!(parse_last_used(&last_used_record(0)), Some(0));
    assert_eq!(parse_last_used(&last_used_record(u64::MAX)), Some(u64::MAX));
    assert_eq!(parse_last_used(" +12 "), Some(12));
    assert_eq!(parse_last_used("+"), None);
    assert_eq!(parse_last_used("-1"), None);
    assert_eq!(parse_last_used(""), None);
    assert_eq!(parse_last_used("18446744073709551616"), None);
    assert_eq!(default_version_text("  21.1.8\n"), "21.1.8");
}

#[test]
fn cache_listing_puts_gcc_first_then_newest_versions() {
    let entries = vec![
        cache_entry(Tool::Llvm, "20.1.8", "l20"),
        cache_entry(Tool::Gcc, "14.2.0", "g14"),
        cache_entry(Tool::Llvm, "21.1.8", "l21"),
        cache_entry(Tool::Gcc, "15.1.0", "g15"),
        cache_entry(Tool::Llvm, "21.1.8", "l21b"),
    ];
    let dirs: Vec<String> = sort_cache_entries(entries).into_iter().map(|e| e.dir).collect();
    assert_eq!(dirs, vec!["g15", "g14", "l21", "l21b", "l20"]);
    assert!(sort_cache_entries(vec![]).is_empty());
}

#[test]
fn profiles_are_toml_files_listed_by_name() {
    assert_eq!(profile_name_of("default.toml"), Some("default".to_string()));
    assert_eq!(profile_name_of("a.b.toml"), Some("a.b".to_string()));
    assert_eq!(profile_name_of("default.TOML"), None);
    assert_eq!(profile_name_of(".toml"), None);
    assert_eq!(profile_name_of("toml"), None);
    assert_eq!(profile_name_of("notes.txt"), None);

    let entry = |name: &str, path: &str| ProfileEntry { name: name.to_string(), path: path.to_string() };
    let sorted = sort_profiles_by_name(vec![
        entry("kernel", "p1"),
        entry("Default", "p2"),
        entry("default", "p3"),
        entry("kernel", "p4"),
    ]);
    let got: Vec<(String, String)> = sorted.into_iter().map(|e| (e.name, e.path)).collect();
    assert_eq!(
        got,
        vec![
            ("Default".to_string(), "p2".to_string()),
            ("default".to_string(), "p3".to_string()),
            ("kernel".to_string(), "p1".to_string()),
            ("kernel".to_string(), "p4".to_string()),
        ]
    );
    assert!(text_is_less("abc", "abd"));
    assert!(text_is_less("ab", "abc"));
    assert!(!text_is_less("abc", "abc"));
    assert!(!text_is_less("b", "abc"));
}

#[test]
fn cache_archive_is_the_first_tar_xz_by_name() {
    assert!(archive_name("gcc-15.1.0.tar.xz"));
    assert!(!archive_name("gcc-15.1.0.tar.xz.sig"));
    assert!(!archive_name(".last-used"));
    let files = vec![
        (".last-used".to_string(), 11u64),
        ("llvm-project-21.1.8.src.tar.xz".to_string(), 100),
        ("llvm-project-21.1.8.src.tar.xz.sig".to_string(), 5),
        ("b.tar.xz".to_string(), 7),
    ];
    assert_eq!(pick_cache_archive(&files), Some(3));
    assert_eq!(pick_cache_archive(&vec![(".last-used".to_string(), 1)]), None);
    assert_eq!(pick_cache_archive(&vec![]), None);
}

#[test]
fn installed_versions_are_listed_oldest_first_with_the_default_marked() {
    let sorted = sort_versions(vec![v("21.1.8"), v("9.0.1"), v("21.1.0-rc1"), v("21.1.0"), v("9.0.1")]);
    assert_eq!(sorted, vec![v("9.0.1"), v("9.0.1"), v("21.1.0-rc1"), v("21.1.0"), v("21.1.8")]);
    assert!(sort_versions(vec![]).is_empty());
    assert_eq!(list_line(&v("21.1.8"), Some("21.1.8")), "  default -> 21.1.8");
    assert_eq!(list_line(&v("21.1.8"), Some("21.1.0")), "  21.1.8");
    assert_eq!(list_line(&v("15.1.0-rc1"), None), "  15.1.0-rc1");
}

#[test]
fn a_recorded_default_reads_back_as_its_version() {
    for text in ["21.1.8", "15.1.0-rc2", "0.0.0"] {
        let version = v(text);
        let recorded = default_version_text(&format!("{}\n", version.to_string()));
        assert_eq!(Version::parse(&recorded).unwrap(), version);
        assert!(default_names_version(&recorded, &version));
    }
    assert!(!default_names_version("21.1.8", &v("21.1.0")));
    assert!(!default_names_version("021.1.8", &v("21.1.8")));
}

#[test]
fn printed_durations_read_back() {
    for (n, unit, seconds) in [(0u64, "", 0u64), (45, "s", 45), (15, "m", 900), (12, "h", 43_200), (14, "d", 1_209_600)] {
        assert_eq!(parse_duration_arg(&format!("{n}{unit}")), Ok(seconds));
    }
    assert_eq!(parse_duration_arg(&format!("{}d", u64::MAX / 86_400)), Ok((u64::MAX / 86_400) * 86_400));
}

#[test]
fn source_packages_download_only_what_the_cache_lacks() {
    assert_eq!(source_downloads(true, true), (false, false));
    assert_eq!(source_downloads(true, false), (false, true));
    assert_eq!(source_downloads(false, true), (true, true));
    assert_eq!(source_downloads(false, false), (true, true));
}
