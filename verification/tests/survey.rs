use ballast_survey::classify::{new_entry, DirFacts, EntryKind, SurveyEntry};
use ballast_survey::cloudaware::{AdoptedBinary, BinNameOverrides, InstallFacts, ReapSafety};
use ballast_survey::emit::{build_output, kept_bytes_fit, order_entries};
use ballast_survey::size::{SizeResult, SizeTally};
use ballast_survey::walk::WalkQueue;
use ballast_survey::timestamp::{age_in_days, parse_rfc3339, Timestamp};
use ballast_survey::{survey_from_entries, SurveyOptions};

const DAY: i64 = 86_400;

fn ts(secs: i64) -> Timestamp {
    Timestamp { secs, nanos: 0 }
}

fn entry(path: &str, kind: EntryKind, bytes: u64) -> SurveyEntry {
    let size = SizeResult { bytes, entries: 1, mtime: ts(0) };
    new_entry(path.to_string(), kind, &size, &ts(0))
}

#[test]
fn test_sorted_and_summary() {
    let entries = vec![
        entry("/f/proj_b/node_modules", EntryKind::NodeModules, 1),
        entry("/f/proj_a/target", EntryKind::RustTarget, 2048),
    ];
    let output = build_output(entries, 0, ts(0));
    let entries = &output.entries;
    assert!(entries.len() >= 2, "expected at least 2 entries");
    for window in entries.windows(2) {
        assert!(
            window[0].bytes >= window[1].bytes,
            "entries not sorted: {} < {}",
            window[0].bytes,
            window[1].bytes,
        );
    }
    let expected_sum: u64 = entries.iter().map(|e| e.bytes).sum();
    assert_eq!(
        output.summary.reclaimable_bytes,
        expected_sum,
        "summary.reclaimable_bytes should equal sum of entry bytes"
    );
    assert_eq!(entries[0].path, "/f/proj_a/target");
    assert_eq!(output.summary.reclaimable_bytes, 2049);
    assert_eq!(output.summary.entry_count, 2);
}

#[test]
fn test_min_size_filter() {
    let without = build_output(vec![entry("/f/proj/target", EntryKind::RustTarget, 1024)], 0, ts(0));
    assert!(!without.entries.is_empty(), "expected entries without min-size filter");
    let min_100m: u64 = 100 * 1024 * 1024;
    let with_floor = build_output(vec![entry("/f/proj/target", EntryKind::RustTarget, 1024)], min_100m, ts(0));
    assert!(
        with_floor.entries.is_empty(),
        "expected no entries above 100M floor for tiny fixture, got: {:?}",
        with_floor.entries.iter().map(|e| (e.bytes, &e.path)).collect::<Vec<_>>()
    );
    assert_eq!(with_floor.summary.reclaimable_bytes, 0);
}

#[test]
fn floor_keeps_entries_at_exactly_the_floor() {
    let out = build_output(
        vec![
            entry("/a", EntryKind::Venv, 99),
            entry("/b", EntryKind::Venv, 100),
            entry("/c", EntryKind::Venv, 101),
        ],
        100,
        ts(5),
    );
    let paths: Vec<&str> = out.entries.iter().map(|e| e.path.as_str()).collect();
    assert_eq!(paths, vec!["/c", "/b"]);
    assert_eq!(out.summary.reclaimable_bytes, 201);
    assert_eq!(out.summary.scanned_at, ts(5));
}

#[test]
fn equal_sizes_keep_walk_order() {
    let out = order_entries(
        vec![
            entry("/1", EntryKind::Pycache, 5),
            entry("/2", EntryKind::Pycache, 7),
            entry("/3", EntryKind::Pycache, 5),
            entry("/4", EntryKind::Pycache, 7),
            entry("/5", EntryKind::Pycache, 1),
        ],
        0,
    );
    let paths: Vec<&str> = out.iter().map(|e| e.path.as_str()).collect();
    assert_eq!(paths, vec!["/2", "/4", "/1", "/3", "/5"]);
}

#[test]
fn overflowing_total_is_detected() {
    let entries = vec![entry("/a", EntryKind::Venv, u64::MAX), entry("/b", EntryKind::Venv, 1)];
    assert!(!kept_bytes_fit(&entries, 0));
    assert!(kept_bytes_fit(&entries, 2));
}

#[test]
fn test_summary_reclaimable_bytes_equals_entry_sum() {
    let output = build_output(
        vec![
            entry("/m/rust_proj/target", EntryKind::RustTarget, 3),
            entry("/m/node_proj/node_modules", EntryKind::NodeModules, 1),
        ],
        0,
        ts(0),
    );
    let expected: u64 = output.entries.iter().map(|e| e.bytes).sum();
    assert_eq!(output.summary.reclaimable_bytes, expected, "summary.reclaimable_bytes must equal sum of entry bytes");
}

#[test]
fn test_survey_still_returns_both_kinds() {
    let entries = vec![
        entry("/m/rust_proj/target", EntryKind::RustTarget, 3),
        entry("/m/node_proj/node_modules", EntryKind::NodeModules, 1),
    ];
    let facts = vec![Some(InstallFacts { adopted: None, probed: None, cloud_built: false }), None];
    let output = survey_from_entries(entries, &facts, 0, ts(0), &SurveyOptions::default());
    assert!(output.entries.len() >= 2, "should find at least 2 entries (rust + node)");
    assert!(output.entries.iter().any(|e| e.kind == EntryKind::RustTarget), "should have a RustTarget entry");
    assert!(output.entries.iter().any(|e| e.kind == EntryKind::NodeModules), "should have a NodeModules entry");
}

#[test]
fn test_no_cloudaware_omits_cloud_info() {
    let opts = SurveyOptions { no_cloudaware: true, ..Default::default() };
    let output = survey_from_entries(vec![entry("/f/crate_a/target", EntryKind::RustTarget, 7)], &vec![], 0, ts(0), &opts);
    assert!(!output.entries.is_empty(), "should have at least one entry");
    for e in &output.entries {
        assert!(e.cloud_info.is_none(), "cloud_info must be None when --no-cloudaware is set, got: {:?}", e.cloud_info);
    }
}

#[test]
fn test_cloudaware_enabled_populates_cloud_info_for_rust_targets() {
    let opts = SurveyOptions::default();
    let facts = vec![Some(InstallFacts { adopted: None, probed: None, cloud_built: false })];
    let output = survey_from_entries(vec![entry("/f/crate_a/target", EntryKind::RustTarget, 7)], &facts, 0, ts(0), &opts);
    let rust_entries: Vec<_> = output.entries.iter().filter(|e| e.kind == EntryKind::RustTarget).collect();
    assert!(!rust_entries.is_empty(), "should have at least one RustTarget entry");
    for e in rust_entries {
        assert!(
            e.cloud_info.is_some(),
            "RustTarget entry should have cloud_info when cloud-aware is enabled: {:?}",
            e.path
        );
    }
}

#[test]
fn test_entries_sortable_by_reap_safety() {
    let entries = vec![
        entry("/r/crate_a/target", EntryKind::RustTarget, 1),
        entry("/r/crate_b/target", EntryKind::RustTarget, 2),
    ];
    let facts = vec![
        Some(InstallFacts {
            adopted: Some(AdoptedBinary { path: "/bin/crate_a".to_string(), mtime: Some(ts(10)) }),
            probed: None,
            cloud_built: false,
        }),
        Some(InstallFacts { adopted: None, probed: None, cloud_built: false }),
    ];
    let output = survey_from_entries(entries, &facts, 0, ts(100), &SurveyOptions::default());
    let mut ranks: Vec<u8> = output
        .entries
        .iter()
        .filter_map(|e| e.cloud_info.as_ref())
        .map(|ci| ci.reap_safety.rank())
        .collect();
    assert_eq!(ranks, vec![ReapSafety::StaleUninstalled.rank(), ReapSafety::Fossil.rank()]);
    let mut sorted_ranks = ranks.clone();
    sorted_ranks.sort();
    ranks.sort();
    assert_eq!(ranks, sorted_ranks, "ranks should be sortable");
}

#[test]
fn overrides_default_is_empty() {
    let opts = SurveyOptions::default();
    assert!(!opts.no_cloudaware);
    let _ = BinNameOverrides::new();
    assert_eq!(opts.bin_name_overrides.get("anything"), None);
}

#[test]
fn test_deterministic_age() {
    // The fixture: <root>/proj/Cargo.toml and <root>/proj/target/artifact, the
    // artifact's mtime at epoch + 10 days; `target/` itself was created now,
    // long after its only file. now = epoch + 40 days.
    let root = "/tmp/fixture".to_string();
    let now = ts(40 * DAY);
    let created = ts(1_781_611_200);
    let mut queue = WalkQueue::new(root.clone());
    let mut entries: Vec<SurveyEntry> = Vec::new();
    let mut listing = vec![vec![dir_facts(&root, "proj", false)], vec![file_facts("/tmp/fixture/proj", "Cargo.toml"), dir_facts("/tmp/fixture/proj", "target", true)]]
        .into_iter();
    while let Some(_dir) = queue.next_dir() {
        let children = listing.next().unwrap_or_default();
        for (index, kind) in queue.absorb(&children) {
            let mut tally = SizeTally::new();
            tally.add(false, 4096, Some(created));
            tally.add(true, 7, Some(ts(10 * DAY)));
            entries.push(queue.settle(&children[index], kind, &tally.finish(), &now).expect("reported"));
        }
    }
    let output = survey_from_entries(entries, &vec![], 0, now, &SurveyOptions { no_cloudaware: true, bin_name_overrides: BinNameOverrides::new() });
    assert!(!output.entries.is_empty(), "expected at least one entry in fixture");
    for entry in &output.entries {
        assert!((entry.age_days - 30).abs() <= 1, "expected age_days ~30, got {} for {:?}", entry.age_days, entry.path);
    }
    assert_eq!(output.entries[0].age_days, 30);
    assert_eq!(output.entries[0].mtime, ts(10 * DAY));
    assert_eq!(output.entries[0].crate_name, "proj");
    assert_eq!(output.entries[0].path, "/tmp/fixture/proj/target");
}

fn dir_facts(parent: &str, name: &str, parent_has_cargo_toml: bool) -> DirFacts {
    DirFacts {
        name: name.to_string(),
        path: format!("{}/{}", parent, name),
        is_dir_entry: true,
        is_dir: true,
        parent_has_cargo_toml,
        has_rustc_info: false,
        has_cargo_ok: false,
        parent_is_user_cache: false,
    }
}

fn file_facts(parent: &str, name: &str) -> DirFacts {
    DirFacts { is_dir_entry: false, is_dir: false, ..dir_facts(parent, name, false) }
}

#[test]
fn newest_file_sets_the_mtime() {
    let mut tally = SizeTally::new();
    tally.add(false, 4096, Some(ts(50 * DAY)));
    tally.add(true, 3, Some(ts(5 * DAY)));
    tally.add(true, 4, Some(ts(7 * DAY)));
    tally.add(true, 5, None);
    tally.add(false, 4096, Some(ts(90 * DAY)));
    let r = tally.finish();
    assert_eq!(r.bytes, 12);
    assert_eq!(r.entries, 5);
    assert_eq!(r.mtime, ts(7 * DAY));
    let mut only_dirs = SizeTally::new();
    only_dirs.add(false, 4096, Some(ts(50 * DAY)));
    assert_eq!(only_dirs.finish().mtime, ts(0));
}

#[test]
fn age_rounds_toward_zero() {
    assert_eq!(age_in_days(&ts(DAY - 1), &ts(0)), 0);
    assert_eq!(age_in_days(&ts(DAY), &ts(0)), 1);
    assert_eq!(age_in_days(&ts(0), &ts(DAY - 1)), 0);
    assert_eq!(age_in_days(&ts(0), &ts(DAY + 1)), -1);
    assert_eq!(age_in_days(&Timestamp { secs: DAY, nanos: 0 }, &Timestamp { secs: 0, nanos: 1 }), 0);
    assert_eq!(age_in_days(&ts(i64::MAX), &ts(i64::MIN)), 213_503_982_334_601);
}

#[test]
fn root_children_are_owned_by_root() {
    let e = entry("/target", EntryKind::RustTarget, 1);
    assert_eq!(e.crate_name, "<root>");
    let e = entry("relative_target", EntryKind::RustTarget, 1);
    assert_eq!(e.crate_name, "<root>");
}

#[test]
fn report_order_is_deterministic() {
    let make = || {
        vec![
            entry("/x", EntryKind::Venv, 3),
            entry("/y", EntryKind::Venv, 3),
            entry("/z", EntryKind::Venv, 9),
        ]
    };
    let a: Vec<String> = order_entries(make(), 0).into_iter().map(|e| e.path).collect();
    let b: Vec<String> = order_entries(make(), 0).into_iter().map(|e| e.path).collect();
    assert_eq!(a, b);
    assert_eq!(a, vec!["/z", "/x", "/y"]);
}

fn report_keys(out: &ballast_survey::Output) -> Vec<(String, u64, i64)> {
    out.entries.iter().map(|e| (e.path.clone(), e.bytes, e.age_days)).collect()
}

fn plain_opts() -> SurveyOptions {
    SurveyOptions { no_cloudaware: true, bin_name_overrides: BinNameOverrides::new() }
}

fn mixed_entries() -> Vec<SurveyEntry> {
    vec![
        entry("/r/a/node_modules", EntryKind::NodeModules, 300),
        entry("/r/b/.venv", EntryKind::Venv, 50),
        entry("/r/c/__pycache__", EntryKind::Pycache, 300),
        entry("/r/d/node_modules", EntryKind::NodeModules, 7),
        entry("/r/e/.venv", EntryKind::Venv, 120),
    ]
}

#[test]
fn same_inputs_give_the_same_report() {
    let a = survey_from_entries(mixed_entries(), &vec![], 10, ts(5 * DAY), &plain_opts());
    let b = survey_from_entries(mixed_entries(), &vec![], 10, ts(5 * DAY), &plain_opts());
    assert_eq!(report_keys(&a), report_keys(&b));
    assert_eq!(a.summary.reclaimable_bytes, b.summary.reclaimable_bytes);
    assert_eq!(a.summary.entry_count, b.summary.entry_count);
    assert_eq!(a.summary.scanned_at, b.summary.scanned_at);
}

#[test]
fn raising_the_floor_drops_only_the_smallest() {
    let low = survey_from_entries(mixed_entries(), &vec![], 0, ts(0), &plain_opts());
    let high = survey_from_entries(mixed_entries(), &vec![], 100, ts(0), &plain_opts());
    let low_keys = report_keys(&low);
    let high_keys = report_keys(&high);
    assert_eq!(low_keys.len(), 5);
    assert_eq!(high_keys.len(), 3);
    assert_eq!(&low_keys[..3], &high_keys[..]);
    assert!(low_keys[3..].iter().all(|k| k.1 < 100));
    assert_eq!(high_keys[0].0, "/r/a/node_modules");
    assert_eq!(high_keys[1].0, "/r/c/__pycache__");
    assert_eq!(high.summary.reclaimable_bytes, 720);
}

#[test]
fn now_reads_as_rfc3339() {
    assert_eq!(parse_rfc3339("2026-06-16T12:00:00Z"), Some(ts(1_781_611_200)));
    assert_eq!(parse_rfc3339("2026-06-16T14:00:00+02:00"), Some(ts(1_781_611_200)));
    assert_eq!(
        parse_rfc3339("1970-01-11T00:00:00.5Z"),
        Some(Timestamp { secs: 10 * DAY, nanos: 500_000_000 })
    );
    assert_eq!(parse_rfc3339("2026-06-16"), None);
    assert_eq!(parse_rfc3339("yesterday"), None);
}
