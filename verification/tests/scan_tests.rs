use envault::scan::{scan_env_files, FsEntry};

fn entry(name: &str) -> FsEntry {
    FsEntry {
        name: name.to_string(),
        path: format!("/proj/{}", name),
        modified_secs: None,
    }
}

#[test]
fn scan_keeps_env_prefix_and_sorts_dot_env_first() {
    let entries = vec![
        entry(".env.production"),
        entry("README.md"),
        entry(".env"),
        entry(".env.local"),
        entry("src"),
    ];
    let found = scan_env_files(entries, None);
    let names: Vec<&str> = found.iter().map(|f| f.name.as_str()).collect();
    assert_eq!(names, vec![".env", ".env.local", ".env.production"]);
}

#[test]
fn scan_prefix_is_literal_dot_env() {
    let entries = vec![
        entry("env"),
        entry(".en"),
        entry(".environment"),
        entry("x.env"),
        entry(".env"),
    ];
    let found = scan_env_files(entries, None);
    let names: Vec<&str> = found.iter().map(|f| f.name.as_str()).collect();
    assert_eq!(names, vec![".env", ".environment"]);
}

#[test]
fn scan_marks_exactly_the_active_name() {
    let entries = vec![entry(".env"), entry(".env.local"), entry(".env.production")];
    let found = scan_env_files(entries, Some(".env.local".to_string()));
    assert_eq!(found.len(), 3);
    assert_eq!(found[0].name, ".env");
    assert!(!found[0].is_active);
    assert_eq!(found[1].name, ".env.local");
    assert!(found[1].is_active);
    assert_eq!(found[2].name, ".env.production");
    assert!(!found[2].is_active);
}

#[test]
fn scan_without_active_name_marks_none() {
    let entries = vec![entry(".env"), entry(".env.local")];
    let found = scan_env_files(entries, None);
    assert!(found.iter().all(|f| !f.is_active));
    let entries = vec![entry(".env"), entry(".env.local")];
    let found = scan_env_files(entries, Some(".env.staging".to_string()));
    assert!(found.iter().all(|f| !f.is_active));
}

#[test]
fn scan_of_empty_listing_is_empty() {
    let found = scan_env_files(Vec::new(), Some(".env".to_string()));
    assert!(found.is_empty());
}

#[test]
fn scan_keeps_paths() {
    let entries = vec![entry(".env")];
    let found = scan_env_files(entries, None);
    assert_eq!(found[0].path, "/proj/.env");
}

#[test]
fn scan_formats_modification_time_as_utc() {
    let entries = vec![
        FsEntry {
            name: ".env".to_string(),
            path: "/proj/.env".to_string(),
            modified_secs: Some(0),
        },
        FsEntry {
            name: ".env.local".to_string(),
            path: "/proj/.env.local".to_string(),
            modified_secs: Some(1_000_000_000),
        },
        FsEntry {
            name: ".env.old".to_string(),
            path: "/proj/.env.old".to_string(),
            modified_secs: None,
        },
        FsEntry {
            name: ".env.bad".to_string(),
            path: "/proj/.env.bad".to_string(),
            modified_secs: Some(i64::MIN),
        },
    ];
    let found = scan_env_files(entries, None);
    assert_eq!(found[0].name, ".env");
    assert_eq!(found[0].modified_at.as_deref(), Some("1970-01-01 00:00:00"));
    assert_eq!(found[1].name, ".env.bad");
    assert_eq!(found[1].modified_at, None);
    assert_eq!(found[2].name, ".env.local");
    assert_eq!(found[2].modified_at.as_deref(), Some("2001-09-09 01:46:40"));
    assert_eq!(found[3].name, ".env.old");
    assert_eq!(found[3].modified_at, None);
}
