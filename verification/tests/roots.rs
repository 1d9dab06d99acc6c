use ballast_survey::roots::{expand_root, expand_roots, RootError};

#[test]
fn tilde_expansion() {
    let home = Some("/home/u".to_string());
    assert_eq!(expand_root("~/wintermute", &home).as_deref(), Some("/home/u/wintermute"));
    assert_eq!(expand_root("~", &home).as_deref(), Some("/home/u"));
    assert_eq!(expand_root("/srv/data", &home).as_deref(), Some("/srv/data"));
    assert_eq!(expand_root("~user/x", &home).as_deref(), Some("~user/x"));
    assert_eq!(expand_root("~//etc", &home).as_deref(), Some("/etc"));
    assert_eq!(expand_root("~/x", &None), None);
    assert_eq!(expand_root("/x", &None).as_deref(), Some("/x"));
}

#[test]
fn expand_roots_reports_first_failure() {
    let raws = vec!["/a".to_string(), "~".to_string(), "~/b".to_string()];
    assert_eq!(expand_roots(&raws, &None), Err(RootError::NoHomeDir { index: 1 }));
    assert_eq!(
        expand_roots(&raws, &Some("/h".to_string())),
        Ok(vec!["/a".to_string(), "/h".to_string(), "/h/b".to_string()])
    );
}
