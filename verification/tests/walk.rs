use ballast_survey::classify::{
    classify_dir_name, is_cargo_cache, is_rust_target, is_user_cache, measured_entry, parent_name, DirFacts, EntryKind,
    CACHE_CHILD_FLOOR,
};
use ballast_survey::size::SizeResult;
use ballast_survey::size::SizeTally;
use ballast_survey::timestamp::Timestamp;
use ballast_survey::walk::{plan_child, ChildStep, WalkQueue};

fn dir(parent: &str, name: &str) -> DirFacts {
    DirFacts {
        name: name.to_string(),
        path: format!("{}/{}", parent, name),
        is_dir_entry: true,
        is_dir: true,
        parent_has_cargo_toml: false,
        has_rustc_info: false,
        has_cargo_ok: false,
        parent_is_user_cache: false,
    }
}

#[test]
fn classification_by_name() {
    assert_eq!(classify_dir_name(&dir("/p", "node_modules")), Some(EntryKind::NodeModules));
    assert_eq!(classify_dir_name(&dir("/p", ".venv")), Some(EntryKind::Venv));
    assert_eq!(classify_dir_name(&dir("/p", "__pycache__")), Some(EntryKind::Pycache));
    assert_eq!(classify_dir_name(&dir("/p", "src")), None);
    assert_eq!(classify_dir_name(&dir("/p", "venv")), None);
}

#[test]
fn target_needs_rust_markers() {
    let mut t = dir("/p", "target");
    assert!(!is_rust_target(&t));
    assert_eq!(classify_dir_name(&t), None);
    t.parent_has_cargo_toml = true;
    assert_eq!(classify_dir_name(&t), Some(EntryKind::RustTarget));
    let mut t = dir("/p", "target");
    t.has_rustc_info = true;
    assert!(is_rust_target(&t));
    let mut t = dir("/p", "target");
    t.has_cargo_ok = true;
    assert_eq!(classify_dir_name(&t), Some(EntryKind::RustTarget));
}

#[test]
fn cargo_caches_by_path() {
    let c = dir("/home/u/.cargo/registry/cache", "index.crates.io-6f17d22bba15001f");
    assert!(is_cargo_cache(&c));
    assert_eq!(classify_dir_name(&c), Some(EntryKind::CargoCache));
    let g = dir("/home/u/.cargo/git/checkouts", "serde-abc");
    assert_eq!(classify_dir_name(&g), Some(EntryKind::CargoCache));
    let mut not_dir = dir("/home/u/.cargo/git/checkouts", "x");
    not_dir.is_dir = false;
    assert_eq!(classify_dir_name(&not_dir), None);
    let other = dir("/home/u/.cargo/registry", "src");
    assert_eq!(classify_dir_name(&other), None);
    // A `target` without markers is not checked for being a cargo cache.
    let t = dir("/home/u/.cargo/registry/cache", "target");
    assert_eq!(classify_dir_name(&t), None);
}

#[test]
fn plan_skips_files() {
    let mut f = dir("/p", "node_modules");
    f.is_dir_entry = false;
    assert_eq!(plan_child(&f), ChildStep::Skip);
    assert_eq!(plan_child(&dir("/p", "node_modules")), ChildStep::Measure(EntryKind::NodeModules));
    assert_eq!(plan_child(&dir("/p", "lib")), ChildStep::Descend);
}

#[test]
fn test_no_double_counting() {
    // root/proj/{Cargo.toml, target/{file.txt, node_modules/pkg/index.js}}
    let mut q = WalkQueue::new("/root".to_string());
    let mut measured: Vec<(String, EntryKind)> = Vec::new();
    let mut listed: Vec<String> = Vec::new();
    while let Some(d) = q.next_dir() {
        listed.push(d.clone());
        let children = match d.as_str() {
            "/root" => vec![dir("/root", "proj")],
            "/root/proj" => {
                let mut t = dir("/root/proj", "target");
                t.parent_has_cargo_toml = true;
                vec![t]
            }
            "/root/proj/target" => vec![dir("/root/proj/target", "node_modules")],
            _ => vec![],
        };
        for (i, k) in q.absorb(&children) {
            measured.push((children[i].path.clone(), k));
        }
    }
    let targets: Vec<_> = measured.iter().filter(|(p, _)| p.ends_with("/target")).collect();
    assert_eq!(targets.len(), 1, "expected exactly 1 target/ entry, got {}: {:?}", targets.len(), targets);
    let nodes: Vec<_> = measured.iter().filter(|(p, _)| p.ends_with("/node_modules")).collect();
    assert_eq!(nodes.len(), 0, "nested node_modules should not be a separate entry, found: {:?}", nodes);
    assert_eq!(listed, vec!["/root".to_string(), "/root/proj".to_string()]);
}

#[test]
fn walk_is_breadth_first() {
    let mut q = WalkQueue::new("/r".to_string());
    let mut order = Vec::new();
    while let Some(d) = q.next_dir() {
        order.push(d.clone());
        let children = match d.as_str() {
            "/r" => vec![dir("/r", "a"), dir("/r", "b"), dir("/r", ".venv")],
            "/r/a" => vec![dir("/r/a", "c")],
            _ => vec![],
        };
        let m = q.absorb(&children);
        if d == "/r" {
            assert_eq!(m, vec![(2, EntryKind::Venv)]);
        }
    }
    assert_eq!(order, vec!["/r", "/r/a", "/r/b", "/r/a/c"]);
}

#[test]
fn parent_names() {
    assert_eq!(parent_name("/tmp/demo/proj/target"), "proj");
    assert_eq!(parent_name("/target"), "<root>");
    assert_eq!(parent_name("/"), "<root>");
    assert_eq!(parent_name("a/b/"), "a");
}

#[test]
fn tally_sums_files_and_keeps_newest() {
    let mut t = SizeTally::new();
    assert!(t.can_add(true, 10));
    t.add(false, 4096, Some(Timestamp { secs: 5, nanos: 0 }));
    t.add(true, 10, Some(Timestamp { secs: 9, nanos: 3 }));
    t.add(true, 20, None);
    t.add(true, 30, Some(Timestamp { secs: 9, nanos: 1 }));
    let r = t.finish();
    assert_eq!(r.bytes, 60);
    assert_eq!(r.entries, 4);
    assert_eq!(r.mtime, Timestamp { secs: 9, nanos: 3 });
    let empty = SizeTally::new().finish();
    assert_eq!(empty.mtime, Timestamp { secs: 0, nanos: 0 });
    assert_eq!(empty.bytes, 0);
    let mut full = SizeTally::new();
    full.add(true, u64::MAX, None);
    assert!(!full.can_add(true, 1));
    assert!(full.can_add(false, 1));
}

fn cache_child(name: &str) -> DirFacts {
    let mut d = dir("/home/u/.cache", name);
    d.parent_is_user_cache = true;
    d
}

#[test]
fn user_cache_children_are_candidates() {
    assert_eq!(classify_dir_name(&cache_child("pip")), Some(EntryKind::CacheChild));
    // A name rule still decides first.
    assert_eq!(classify_dir_name(&cache_child("node_modules")), Some(EntryKind::NodeModules));
    let mut t = cache_child("target");
    assert_eq!(classify_dir_name(&t), Some(EntryKind::CacheChild));
    t.has_cargo_ok = true;
    assert_eq!(classify_dir_name(&t), Some(EntryKind::RustTarget));
    // Outside ~/.cache the same name is descended into.
    assert_eq!(classify_dir_name(&dir("/home/u/.config", "pip")), None);
    assert_eq!(plan_child(&cache_child("pip")), ChildStep::Measure(EntryKind::CacheChild));
}

#[test]
fn user_cache_is_home_dot_cache() {
    let home = Some("/home/u".to_string());
    assert!(is_user_cache("/home/u/.cache", &home));
    assert!(is_user_cache("/home/u/.cache", &Some("/home/u/".to_string())));
    assert!(!is_user_cache("/home/u/.cache/pip", &home));
    assert!(!is_user_cache("/home/v/.cache", &home));
    assert!(!is_user_cache("/home/u/.cache", &None));
    assert!(is_user_cache("/.cache", &Some("/".to_string())));
}

#[test]
fn cache_children_need_the_floor() {
    let now = Timestamp { secs: 0, nanos: 0 };
    let size = |bytes: u64| SizeResult { bytes, entries: 3, mtime: now };
    let small = measured_entry("/home/u/.cache/pip".to_string(), EntryKind::CacheChild, &size(CACHE_CHILD_FLOOR - 1), &now);
    assert!(small.is_none());
    let big = measured_entry("/home/u/.cache/pip".to_string(), EntryKind::CacheChild, &size(CACHE_CHILD_FLOOR), &now)
        .expect("at the floor");
    assert_eq!(big.kind, EntryKind::CacheChild);
    assert_eq!(big.bytes, 104_857_600);
    assert_eq!(big.crate_name, ".cache");
    // Other kinds are reported whatever their size.
    let tiny = measured_entry("/p/node_modules".to_string(), EntryKind::NodeModules, &size(0), &now);
    assert!(tiny.is_some());
}

#[test]
fn small_cache_children_are_walked_into() {
    // ~/.cache holds pip (small, with a __pycache__ inside) and huge (over the floor).
    let now = Timestamp { secs: 0, nanos: 0 };
    let sized = |bytes: u64| SizeResult { bytes, entries: 2, mtime: now };
    let mut q = WalkQueue::new("/home/u/.cache".to_string());
    let mut order = Vec::new();
    let mut reported = Vec::new();
    while let Some(d) = q.next_dir() {
        order.push(d.clone());
        let children = match d.as_str() {
            "/home/u/.cache" => vec![cache_child("pip"), cache_child("huge")],
            "/home/u/.cache/pip" => vec![dir("/home/u/.cache/pip", "__pycache__")],
            _ => vec![],
        };
        for (i, k) in q.absorb(&children) {
            let size = if children[i].name == "huge" { sized(CACHE_CHILD_FLOOR) } else { sized(10) };
            if let Some(e) = q.settle(&children[i], k, &size, &now) {
                reported.push((e.path, e.kind));
            }
        }
    }
    assert_eq!(order, vec!["/home/u/.cache", "/home/u/.cache/pip"]);
    assert_eq!(
        reported,
        vec![
            ("/home/u/.cache/huge".to_string(), EntryKind::CacheChild),
            ("/home/u/.cache/pip/__pycache__".to_string(), EntryKind::Pycache),
        ]
    );
}
