use ballast_survey::classify::{EntryKind, SurveyEntry};
use ballast_survey::cloudaware::{
    adopt_paths_from_output, annotate_entries, bin_name_for, classify_entry, detect_cloud_built,
    find_adopted_path, install_query, manifest_cloud_flag, AdoptedBinary, BinNameOverrides,
    InstallFacts, InstallSource, ProbedBinary, ReapSafety, yaml_manifest_says_cloud,
};
use ballast_survey::timestamp::Timestamp;

const DAY: i64 = 86_400;
const NOW: i64 = 1_781_611_200;

fn ts(secs: i64) -> Timestamp {
    Timestamp { secs, nanos: 0 }
}

fn adopted(path: &str, secs: i64) -> Option<AdoptedBinary> {
    Some(AdoptedBinary { path: path.to_string(), mtime: Some(ts(secs)) })
}

fn facts(adopted: Option<AdoptedBinary>, probed: Option<ProbedBinary>, cloud_built: bool) -> InstallFacts {
    InstallFacts { adopted, probed, cloud_built }
}

fn rust_target(path: &str, crate_name: &str, mtime: i64) -> SurveyEntry {
    SurveyEntry {
        path: path.to_string(),
        kind: EntryKind::RustTarget,
        bytes: 10,
        entries: 2,
        mtime: ts(mtime),
        age_days: 0,
        crate_name: crate_name.to_string(),
        cloud_info: None,
    }
}

#[test]
fn test_reap_safety_rank_ordering() {
    // Fossil < StaleInstalled < StaleUninstalled < Recent
    assert!(
        ReapSafety::Fossil.rank() < ReapSafety::StaleInstalled.rank(),
        "Fossil should have lower rank than StaleInstalled"
    );
    assert!(
        ReapSafety::StaleInstalled.rank() < ReapSafety::StaleUninstalled.rank(),
        "StaleInstalled should have lower rank than StaleUninstalled"
    );
    assert!(
        ReapSafety::StaleUninstalled.rank() < ReapSafety::Recent.rank(),
        "StaleUninstalled should have lower rank than Recent"
    );
}

#[test]
fn rank_values_are_exact() {
    assert_eq!(ReapSafety::Fossil.rank(), 0);
    assert_eq!(ReapSafety::StaleInstalled.rank(), 1);
    assert_eq!(ReapSafety::StaleUninstalled.rank(), 2);
    assert_eq!(ReapSafety::Recent.rank(), 3);
}

#[test]
fn test_fossil_when_installed_binary_newer_than_target() {
    // Target last built 20 days ago; the adopt-listed binary is 1 day old.
    let f = facts(adopted("/bin/dir/myapp", NOW - DAY), None, false);
    let info = classify_entry(&f, &ts(NOW - 20 * DAY));
    assert!(info.fossil, "entry should be fossil when installed binary is newer");
    assert_eq!(info.reap_safety, ReapSafety::Fossil, "reap_safety should be Fossil");
    assert!(info.installed_bin.is_some(), "installed_bin should be set");
    assert!(info.installed_newer_than_target, "installed_newer_than_target should be true");
    assert_eq!(info.installed_bin.as_deref(), Some("/bin/dir/myapp"));
    assert_eq!(info.installed_mtime, Some(ts(NOW - DAY)));
}

#[test]
fn test_not_fossil_when_no_installed_binary() {
    let f = facts(None, None, false);
    let info = classify_entry(&f, &ts(NOW - 20 * DAY));
    assert!(!info.fossil, "entry should NOT be fossil when no installed binary");
    assert_eq!(
        info.reap_safety,
        ReapSafety::StaleUninstalled,
        "reap_safety should be StaleUninstalled when no binary found"
    );
}

#[test]
fn test_no_installed_binary_is_stale_uninstalled() {
    let f = facts(None, None, false);
    let info = classify_entry(&f, &ts(NOW - 30 * DAY));
    assert!(!info.fossil, "fossil must be false when no binary installed");
    assert!(!info.installed_newer_than_target, "installed_newer must be false");
    assert!(info.installed_bin.is_none(), "installed_bin must be None");
    assert_eq!(
        info.reap_safety,
        ReapSafety::StaleUninstalled,
        "reap_safety must be stale-uninstalled when no binary exists"
    );
}

#[test]
fn older_installed_binary_is_stale_installed() {
    let f = facts(adopted("/b/myapp", NOW - 30 * DAY), None, false);
    let info = classify_entry(&f, &ts(NOW - 20 * DAY));
    assert!(!info.fossil);
    assert!(!info.installed_newer_than_target);
    assert_eq!(info.reap_safety, ReapSafety::StaleInstalled);
}

#[test]
fn same_second_binary_is_not_newer_than_later_nanos() {
    let f = facts(adopted("/b/app", NOW), None, false);
    let info = classify_entry(&f, &Timestamp { secs: NOW, nanos: 5 });
    assert!(!info.installed_newer_than_target);
    assert_eq!(info.reap_safety, ReapSafety::StaleInstalled);
}

#[test]
fn adopted_binary_without_mtime_is_stale_installed() {
    let f = facts(Some(AdoptedBinary { path: "/b/app".to_string(), mtime: None }), None, false);
    let info = classify_entry(&f, &ts(NOW));
    assert_eq!(info.install_source, InstallSource::Adopt);
    assert_eq!(info.installed_mtime, None);
    assert_eq!(info.reap_safety, ReapSafety::StaleInstalled);
}

#[test]
fn test_bin_name_override_resolves_fossil() {
    let mut overrides = BinNameOverrides::new();
    overrides.insert("alpha".to_owned(), "a".to_owned());
    let bin = bin_name_for("alpha", &overrides);
    assert_eq!(bin, "a");
    let listing = Some(vec!["/tmp/bins/a".to_string()]);
    let found = find_adopted_path(&listing, &bin);
    assert_eq!(found.as_deref(), Some("/tmp/bins/a"));
    let f = facts(adopted(&found.unwrap(), NOW - 3600), None, false);
    let info = classify_entry(&f, &ts(NOW - 10 * DAY));
    assert!(info.fossil, "fossil must be true when bin_name override maps crate to newer binary");
    assert_eq!(info.reap_safety, ReapSafety::Fossil, "reap_safety must be Fossil");
    assert!(info.installed_newer_than_target, "installed_newer_than_target must be true");
}

#[test]
fn test_without_override_crate_name_used() {
    let overrides = BinNameOverrides::new();
    let bin = bin_name_for("alpha", &overrides);
    assert_eq!(bin, "alpha");
    let listing = Some(vec!["/tmp/bins/a".to_string()]);
    assert_eq!(find_adopted_path(&listing, &bin), None);
    let info = classify_entry(&facts(None, None, false), &ts(NOW - 10 * DAY));
    assert!(!info.fossil, "without override, 'alpha' crate should not match binary 'a'");
}

#[test]
fn override_insert_replaces_and_get_reads_back() {
    let mut o = BinNameOverrides::new();
    assert_eq!(o.get("x"), None);
    o.insert("x".to_owned(), "one".to_owned());
    o.insert("y".to_owned(), "two".to_owned());
    o.insert("x".to_owned(), "three".to_owned());
    assert_eq!(o.get("x").as_deref(), Some("three"));
    assert_eq!(o.get("y").as_deref(), Some("two"));
    assert_eq!(o.get("z"), None);
}

#[test]
fn adopt_search_takes_first_match_by_file_name() {
    let listing = Some(vec![
        "/opt/pkg/tool-extra".to_string(),
        "/usr/local/bin/tool".to_string(),
        "/home/u/.local/bin/tool".to_string(),
    ]);
    assert_eq!(find_adopted_path(&listing, "tool").as_deref(), Some("/usr/local/bin/tool"));
    assert_eq!(find_adopted_path(&None, "tool"), None);
}

#[test]
fn test_fossil_true_without_cloud_marker() {
    let f = facts(adopted("/b/mypkg", NOW - 7200), None, false);
    let info = classify_entry(&f, &ts(NOW - 15 * DAY));
    assert!(
        info.fossil,
        "fossil must be true from mtime proof alone (cloud_built is {:?} but not required)",
        info.cloud_built
    );
    assert!(info.installed_newer_than_target, "installed_newer_than_target must be true");
}

#[test]
fn test_cloud_built_set_from_marker_file() {
    let cloud = detect_cloud_built(true, &vec![None, None], &None, &None);
    let f = facts(adopted("/b/mypkg", NOW - 7200), None, cloud);
    let info = classify_entry(&f, &ts(NOW - 15 * DAY));
    assert!(info.cloud_built, "cloud_built should be true from .autobuilder_cloud marker");
    assert!(info.fossil, "fossil must be true when binary is newer");
}

#[test]
fn test_cloud_built_set_from_autobuilder_json() {
    let cloud = detect_cloud_built(false, &vec![Some("{\"cloud\": true}".to_string()), None], &None, &None);
    let f = facts(adopted("/b/jsonpkg", NOW - 3600), None, cloud);
    let info = classify_entry(&f, &ts(NOW - 10 * DAY));
    assert!(info.cloud_built, "cloud_built should be true from autobuilder.json with cloud: true");
}

#[test]
fn cloud_detection_cases() {
    assert!(!detect_cloud_built(false, &vec![None, None], &None, &None));
    assert!(!detect_cloud_built(false, &vec![Some("{\"cloud\": false}".to_string())], &None, &None));
    assert!(!detect_cloud_built(false, &vec![Some("{\"cloud\": \"true\"}".to_string())], &None, &None));
    assert!(!detect_cloud_built(false, &vec![Some("not json".to_string())], &None, &None));
    assert!(detect_cloud_built(false, &vec![None, Some("{\"cloud\":true,\"x\":1}".to_string())], &None, &None));
    assert!(detect_cloud_built(false, &vec![], &None, &Some("1".to_string())));
    assert!(detect_cloud_built(false, &vec![], &None, &Some("true".to_string())));
    assert!(!detect_cloud_built(false, &vec![], &None, &Some("0".to_string())));
    assert!(!detect_cloud_built(false, &vec![], &None, &Some("TRUE".to_string())));
}

#[test]
fn manifest_flag_reads_json() {
    assert!(manifest_cloud_flag("{\"cloud\": true}"));
    assert!(!manifest_cloud_flag("[{\"cloud\": true}]"));
    assert!(!manifest_cloud_flag("{\"cloudy\": true}"));
    assert!(!manifest_cloud_flag("{\"cloud\": true"));
}

#[test]
fn test_adopt_source_when_adopt_paths_provided() {
    let f = facts(adopted("/b/pkg", NOW - 3600), None, false);
    let info = classify_entry(&f, &ts(NOW - 10 * DAY));
    assert_eq!(
        info.install_source,
        InstallSource::Adopt,
        "install_source should be Adopt when adopt_paths resolves the binary"
    );
}

#[test]
fn test_no_adopt_falls_back_to_probe() {
    let f = facts(None, None, false);
    let info = classify_entry(&f, &ts(NOW - 10 * DAY));
    assert_eq!(info.install_source, InstallSource::Probe, "install_source should be Probe when adopt is absent");
}

#[test]
fn probe_result_used_when_adopt_did_not_resolve() {
    let probed = Some(ProbedBinary { path: "/home/u/.local/bin/pkg".to_string(), mtime: ts(NOW) });
    let info = classify_entry(&facts(None, probed, false), &ts(NOW - DAY));
    assert_eq!(info.install_source, InstallSource::Probe);
    assert_eq!(info.installed_bin.as_deref(), Some("/home/u/.local/bin/pkg"));
    assert!(info.fossil);
}

#[test]
fn adopted_binary_wins_over_probe() {
    let probed = Some(ProbedBinary { path: "/p/pkg".to_string(), mtime: ts(NOW) });
    let info = classify_entry(&facts(adopted("/a/pkg", NOW - 40 * DAY), probed, false), &ts(NOW - DAY));
    assert_eq!(info.install_source, InstallSource::Adopt);
    assert_eq!(info.installed_bin.as_deref(), Some("/a/pkg"));
    assert_eq!(info.reap_safety, ReapSafety::StaleInstalled);
}

#[test]
fn adopt_listing_parsing() {
    let out = br#"[{"path": "/usr/local/bin/a", "name": "a"}, {"name": "x"}, {"path": 3}, {"path": "/b/c"}]"#;
    assert_eq!(
        adopt_paths_from_output(true, out),
        Some(vec!["/usr/local/bin/a".to_string(), "/b/c".to_string()])
    );
    assert_eq!(adopt_paths_from_output(false, out), None);
    assert_eq!(adopt_paths_from_output(true, b"[]"), None);
    assert_eq!(adopt_paths_from_output(true, br#"{"path": "/x"}"#), None);
    assert_eq!(adopt_paths_from_output(true, b"[{\"path\": \"/x\xff\"}]"), None);
    assert_eq!(adopt_paths_from_output(true, b"garbage"), None);
}

#[test]
fn install_query_only_for_rust_targets() {
    let mut overrides = BinNameOverrides::new();
    overrides.insert("wintermute-brain".to_owned(), "wmd".to_owned());
    let listing = Some(vec!["/x/wmd".to_string()]);
    let e = rust_target("/w/wintermute-brain/target", "wintermute-brain", NOW);
    let q = install_query(&e, &overrides, &listing).expect("rust target");
    assert_eq!(q.crate_dir, "/w/wintermute-brain");
    assert_eq!(q.bin_name, "wmd");
    assert_eq!(q.adopt_candidate.as_deref(), Some("/x/wmd"));
    let mut node = rust_target("/w/web/node_modules", "web", NOW);
    node.kind = EntryKind::NodeModules;
    assert!(install_query(&node, &overrides, &listing).is_none());
}

#[test]
fn annotate_touches_only_rust_targets() {
    let mut node = rust_target("/w/web/node_modules", "web", NOW);
    node.kind = EntryKind::NodeModules;
    let mut entries = vec![rust_target("/w/a/target", "a", NOW - DAY), node];
    let f = vec![Some(facts(adopted("/b/a", NOW), None, true)), None];
    annotate_entries(&mut entries, &f);
    let info = entries[0].cloud_info.as_ref().expect("annotated");
    assert!(info.fossil);
    assert!(info.cloud_built);
    assert_eq!(info.reap_safety, ReapSafety::Fossil);
    assert!(entries[1].cloud_info.is_none());
    assert_eq!(entries[1].path, "/w/web/node_modules");
}

#[test]
fn probe_location() {
    assert_eq!(ballast_survey::cloudaware::local_bin_candidate("/home/u", "wmd"), "/home/u/.local/bin/wmd");
}

#[test]
fn cloud_built_from_yaml_manifest() {
    let yaml = |t: &str| Some(t.to_string());
    assert!(detect_cloud_built(false, &vec![None, None], &yaml("cloud: true\n"), &None));
    assert!(detect_cloud_built(false, &vec![], &yaml("name: x\ncloud:   True   # routed\n"), &None));
    assert!(detect_cloud_built(false, &vec![], &yaml("cloud:\tTRUE"), &None));
    assert!(!detect_cloud_built(false, &vec![], &yaml("cloud: false\n"), &None));
    assert!(!detect_cloud_built(false, &vec![], &yaml("cloud:true\n"), &None));
    assert!(!detect_cloud_built(false, &vec![], &yaml("  cloud: true\n"), &None));
    assert!(!detect_cloud_built(false, &vec![], &yaml("cloud: truest\n"), &None));
    assert!(!detect_cloud_built(false, &vec![], &yaml("xcloud: true\n"), &None));
    assert!(yaml_manifest_says_cloud("a: 1\r\ncloud: true\r\n"));
    assert!(!yaml_manifest_says_cloud(""));
}

#[test]
fn annotating_twice_changes_nothing() {
    let mut node = rust_target("/w/web/node_modules", "web", NOW);
    node.kind = EntryKind::NodeModules;
    let mut entries = vec![rust_target("/w/a/target", "a", NOW - DAY), node, rust_target("/w/b/target", "b", NOW)];
    let f = vec![Some(facts(adopted("/b/a", NOW), None, true)), None, Some(facts(None, None, false))];
    annotate_entries(&mut entries, &f);
    let once = format!("{:?}", entries);
    annotate_entries(&mut entries, &f);
    assert_eq!(format!("{:?}", entries), once);
    assert_eq!(entries[2].cloud_info.as_ref().expect("annotated").reap_safety, ReapSafety::StaleUninstalled);
}
