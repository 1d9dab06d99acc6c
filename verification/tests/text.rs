use ballast_survey::text::{contains, text_eq, trim_bounds};

#[test]
fn substring_search() {
    assert!(contains("/home/u/.cargo/registry/cache/x", "/.cargo/registry/cache"));
    assert!(!contains("/home/u/.cargo/registry", "/.cargo/registry/cache"));
    assert!(contains("abc", ""));
    assert!(contains("h\u{e9}llo", "\u{e9}l"));
    assert!(!contains("", "a"));
}

#[test]
fn equality_and_trim() {
    assert!(text_eq("target", "target"));
    assert!(!text_eq("target", "targets"));
    assert!(!text_eq("Target", "target"));
    assert_eq!(trim_bounds("  ab c \t"), (2, 6));
    assert_eq!(trim_bounds("\u{3000}x\u{a0}"), (1, 2));
    assert_eq!(trim_bounds("   "), (3, 3));
}
