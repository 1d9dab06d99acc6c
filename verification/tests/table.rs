use ballast_survey::classify::{new_entry, EntryKind};
use ballast_survey::cloudaware::{classify_entry, InstallFacts};
use ballast_survey::emit::build_output;
use ballast_survey::size::SizeResult;
use ballast_survey::table::{decimal, render_table};
use ballast_survey::timestamp::Timestamp;

#[test]
fn table_follows_documented_layout() {
    let now = Timestamp { secs: 1_781_611_200, nanos: 0 };
    let sized = |bytes: u64| SizeResult { bytes, entries: 3, mtime: Timestamp { secs: 0, nanos: 0 } };
    let mut t = new_entry("/tmp/demo/proj/target".to_string(), EntryKind::RustTarget, &sized(5_000_000), &now);
    t.cloud_info = Some(classify_entry(&InstallFacts { adopted: None, probed: None, cloud_built: false }, &t.mtime));
    let w = new_entry("/tmp/demo/web/node_modules".to_string(), EntryKind::NodeModules, &sized(2_000_000), &now);
    let v = new_entry("/tmp/demo/py/.venv".to_string(), EntryKind::Venv, &sized(1_000_000), &now);
    let out = build_output(vec![v, t, w], 0, now);
    let lines = render_table(&out);
    assert_eq!(lines.len(), 5);
    assert_eq!(lines[0], "ballast-survey  reclaimable: 7.63 MiB  entries: 3  scanned: 2026-06-16T12:00:00Z");
    assert_eq!(
        lines[1],
        "PATH                                          SIZE       KIND               REAP_SAFETY  CRATE"
    );
    assert_eq!(
        lines[2],
        "/tmp/demo/proj/target                     4.77 MiB RustTarget        StaleUninstalled  proj"
    );
    assert_eq!(
        lines[3],
        "/tmp/demo/web/node_modules                1.91 MiB NodeModules                      -  web"
    );
    assert_eq!(
        lines[4],
        "/tmp/demo/py/.venv                      976.56 KiB Venv                             -  py"
    );
}

#[test]
fn decimal_digits() {
    assert_eq!(decimal(0), "0");
    assert_eq!(decimal(7), "7");
    assert_eq!(decimal(1234567890), "1234567890");
    assert_eq!(decimal(u64::MAX), "18446744073709551615");
}
