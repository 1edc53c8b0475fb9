use cottdaw::archive::{
    join_path, parent_path, path_starts_with, safe_join, sanitize_zip_entry_name, validate_archive_path,
    ParentCheck,
};
use cottdaw::project::{migrated_version, ProjectError, PROJECT_VERSION};

fn invalid_text(r: Result<(), ProjectError>) -> String {
    match r {
        Err(ProjectError::Invalid(s)) => s,
        other => panic!("expected Invalid, got {other:?}"),
    }
}

#[test]
fn rejects_parent_traversal() {
    assert!(validate_archive_path("../secret").is_err());
    assert!(sanitize_zip_entry_name("../../etc/passwd").is_err());
    assert!(sanitize_zip_entry_name("/etc/passwd").is_err());
}

#[test]
fn accepts_normal_asset_paths() {
    validate_archive_path("assets/beep.wav").unwrap();
    sanitize_zip_entry_name("assets/beep.wav").unwrap();
    sanitize_zip_entry_name("project.json").unwrap();
}

#[test]
fn validation_messages_name_the_fault() {
    assert_eq!(invalid_text(validate_archive_path("")), "empty archive path");
    assert_eq!(
        invalid_text(validate_archive_path("/abs/x")),
        "absolute path not allowed in archive: /abs/x"
    );
    assert_eq!(
        invalid_text(validate_archive_path("assets/../x")),
        "parent traversal not allowed in archive path: assets/../x"
    );
    assert_eq!(invalid_text(validate_archive_path("./.")), "invalid archive path: ./.");
    assert!(validate_archive_path("./assets//a.wav").is_ok());
    assert!(validate_archive_path("a..b/c").is_ok());
}

#[test]
fn sanitize_trims_and_turns_backslashes() {
    assert_eq!(sanitize_zip_entry_name("assets\\beep.wav/").unwrap(), "assets/beep.wav");
    assert_eq!(sanitize_zip_entry_name("dir/").unwrap(), "dir");
    match sanitize_zip_entry_name("C:\\evil") {
        Err(ProjectError::Invalid(s)) => assert_eq!(s, "absolute path not allowed in archive: C:\\evil"),
        other => panic!("unexpected {other:?}"),
    }
    match sanitize_zip_entry_name("") {
        Err(ProjectError::Invalid(s)) => assert_eq!(s, "empty zip entry name"),
        other => panic!("unexpected {other:?}"),
    }
    match sanitize_zip_entry_name("\\") {
        Err(ProjectError::Invalid(s)) => assert_eq!(s, "absolute path not allowed in archive: \\"),
        other => panic!("unexpected {other:?}"),
    }
    match sanitize_zip_entry_name("a\\..\\b") {
        Err(ProjectError::Invalid(s)) => assert_eq!(s, "parent traversal not allowed in archive path: a/../b"),
        other => panic!("unexpected {other:?}"),
    }
}

#[test]
fn paths_join_and_split_like_std() {
    assert_eq!(join_path("/w", "assets/a.wav"), "/w/assets/a.wav");
    assert_eq!(join_path("/w/", "a"), "/w/a");
    assert_eq!(join_path("", "a"), "a");
    assert_eq!(parent_path("/w/assets/a.wav"), Some("/w/assets".to_string()));
    assert_eq!(parent_path("/a"), Some("/".to_string()));
    assert_eq!(parent_path("a"), Some(String::new()));
    assert_eq!(parent_path("a//b/"), Some("a".to_string()));
    assert_eq!(parent_path("/w/./x"), Some("/w".to_string()));
    assert_eq!(parent_path("/"), None);
    assert_eq!(parent_path(""), None);
    for p in ["/w/assets/a.wav", "/a", "a", "a//b/", "/w/./x", "/", "", "./a", "..", "/w/x/."] {
        let ours = parent_path(p);
        let std = std::path::Path::new(p).parent().map(|q| q.to_str().unwrap().to_string());
        assert_eq!(ours, std, "parent of {p:?}");
    }
    assert!(path_starts_with("/w/assets", "/w"));
    assert!(path_starts_with("/w", "/w/"));
    assert!(!path_starts_with("/wx", "/w"));
    assert!(!path_starts_with("/w", "/w/assets"));
    for (p, b) in [("/w/assets", "/w"), ("/wx", "/w"), ("a/b", "a"), ("./a", "a"), ("/w//x", "/w/x"), ("/", "/")] {
        assert_eq!(path_starts_with(p, b), std::path::Path::new(p).starts_with(b), "{p:?} / {b:?}");
    }
}

#[test]
fn safe_join_keeps_paths_inside_the_workspace() {
    assert_eq!(safe_join("/w", "assets/a.wav", "/w", ParentCheck::Missing).unwrap(), "/w/assets/a.wav");
    assert_eq!(
        safe_join("/w", "assets/a.wav", "/real/w", ParentCheck::Resolved("/real/w/assets".to_string())).unwrap(),
        "/w/assets/a.wav"
    );
    match safe_join("/w", "assets/a.wav", "/real/w", ParentCheck::Resolved("/elsewhere".to_string())) {
        Err(ProjectError::Invalid(s)) => assert_eq!(s, "archive path escapes workspace: assets/a.wav"),
        other => panic!("unexpected {other:?}"),
    }
    match safe_join("/w", "assets/a.wav", "/w", ParentCheck::Failed("denied".to_string())) {
        Err(ProjectError::Invalid(s)) => assert_eq!(s, "failed to resolve archive path assets/a.wav: denied"),
        other => panic!("unexpected {other:?}"),
    }
    assert!(safe_join("/w", "../x", "/w", ParentCheck::Missing).is_err());
}

#[test]
fn newer_project_versions_are_refused() {
    assert_eq!(migrated_version(1).unwrap(), PROJECT_VERSION);
    assert_eq!(migrated_version(PROJECT_VERSION).unwrap(), PROJECT_VERSION);
    match migrated_version(PROJECT_VERSION + 1) {
        Err(ProjectError::UnsupportedVersion(v)) => assert_eq!(v, PROJECT_VERSION + 1),
        other => panic!("unexpected {other:?}"),
    }
}
