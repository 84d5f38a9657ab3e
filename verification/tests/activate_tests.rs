use envault::activate::{activate_env, EnvDir};
use envault::commands::get_active_env;
use envault::scan::{scan_env_files, FsEntry};
use envault::store::Database;
use envault::types::EnvError;

const T1: &str = "2024-03-01 08:00:00";
const T2: &str = "2024-03-01 09:00:00";

fn project(db: &mut Database, path: &str) -> i64 {
    db.insert_project("demo", path, "folder", "#737373", T1)
        .unwrap()
        .id
}

fn content_of(dir: &EnvDir, name: &str) -> Option<Vec<u8>> {
    dir.get_content(name)
}

#[test]
fn activating_dot_env_touches_no_file() {
    let mut db = Database::new();
    let id = project(&mut db, "/p/demo");
    let mut dir = EnvDir::new();
    dir.put(".env", b"PORT=1".to_vec());
    dir.put(".env.local", b"PORT=9".to_vec());
    activate_env(&mut db, id, ".env", &mut dir, T2).unwrap();
    assert_eq!(content_of(&dir, ".env"), Some(b"PORT=1".to_vec()));
    assert_eq!(content_of(&dir, ".env.backup"), None);
    assert_eq!(get_active_env(&db, id).unwrap(), Some(".env".to_string()));
    assert_eq!(db.history().len(), 1);
    assert_eq!(db.history()[0].project_id, id);
    assert_eq!(db.history()[0].env_name, ".env");
    assert_eq!(db.history()[0].activated_at, T2);
}

#[test]
fn activating_dot_env_needs_the_file_present() {
    let mut db = Database::new();
    let id = project(&mut db, "/p/demo");
    let mut dir = EnvDir::new();
    dir.put(".env.local", b"PORT=9".to_vec());
    let r = activate_env(&mut db, id, ".env", &mut dir, T2);
    assert!(matches!(r, Err(EnvError::SourceMissing)));
    assert_eq!(get_active_env(&db, id).unwrap(), None);
    assert_eq!(db.history().len(), 0);
}

#[test]
fn activation_backs_up_and_copies() {
    let mut db = Database::new();
    let id = project(&mut db, "/p/demo");
    let mut dir = EnvDir::new();
    dir.put(".env", b"A".to_vec());
    dir.put(".env.production", b"B".to_vec());
    activate_env(&mut db, id, ".env.production", &mut dir, T2).unwrap();
    assert_eq!(content_of(&dir, ".env.backup"), Some(b"A".to_vec()));
    assert_eq!(content_of(&dir, ".env"), Some(b"B".to_vec()));
    assert_eq!(content_of(&dir, ".env.production"), Some(b"B".to_vec()));
    assert_eq!(
        get_active_env(&db, id).unwrap(),
        Some(".env.production".to_string())
    );
    assert_eq!(db.history().len(), 1);
}

#[test]
fn activation_without_existing_target_makes_no_backup() {
    let mut db = Database::new();
    let id = project(&mut db, "/p/demo");
    let mut dir = EnvDir::new();
    dir.put(".env.dev", b"D".to_vec());
    activate_env(&mut db, id, ".env.dev", &mut dir, T2).unwrap();
    assert_eq!(content_of(&dir, ".env"), Some(b"D".to_vec()));
    assert_eq!(content_of(&dir, ".env.backup"), None);
}

#[test]
fn activation_of_missing_source_changes_nothing() {
    let mut db = Database::new();
    let id = project(&mut db, "/p/demo");
    let mut dir = EnvDir::new();
    dir.put(".env", b"A".to_vec());
    let r = activate_env(&mut db, id, ".env.staging", &mut dir, T2);
    assert!(matches!(r, Err(EnvError::SourceMissing)));
    assert_eq!(content_of(&dir, ".env"), Some(b"A".to_vec()));
    assert_eq!(content_of(&dir, ".env.backup"), None);
    assert_eq!(get_active_env(&db, id).unwrap(), None);
    assert_eq!(db.history().len(), 0);
}

#[test]
fn activation_for_unknown_project_fails() {
    let mut db = Database::new();
    let mut dir = EnvDir::new();
    dir.put(".env", b"A".to_vec());
    let r = activate_env(&mut db, 12, ".env", &mut dir, T2);
    assert!(matches!(r, Err(EnvError::ProjectNotFound)));
    assert_eq!(db.history().len(), 0);
}

#[test]
fn scan_then_activate_scenario() {
    let mut db = Database::new();
    let id = project(&mut db, "/p/demo");
    let entries = vec![
        FsEntry {
            name: ".env".to_string(),
            path: "/p/demo/.env".to_string(),
            modified_secs: None,
        },
        FsEntry {
            name: ".env.production".to_string(),
            path: "/p/demo/.env.production".to_string(),
            modified_secs: None,
        },
    ];
    let found = scan_env_files(entries, Some(".env".to_string()));
    assert_eq!(found.len(), 2);
    assert_eq!(found[0].name, ".env");
    assert!(found[0].is_active);
    assert_eq!(found[1].name, ".env.production");
    assert!(!found[1].is_active);

    let mut dir = EnvDir::new();
    dir.put(".env", b"PORT=1".to_vec());
    dir.put(".env.production", b"PORT=2".to_vec());
    activate_env(&mut db, id, ".env.production", &mut dir, T2).unwrap();
    assert_eq!(content_of(&dir, ".env"), Some(b"PORT=2".to_vec()));
    assert_eq!(content_of(&dir, ".env.backup"), Some(b"PORT=1".to_vec()));
    assert_eq!(
        get_active_env(&db, id).unwrap(),
        Some(".env.production".to_string())
    );
}

#[test]
fn env_error_messages_are_descriptive() {
    assert_eq!(EnvError::ProjectNotFound.message(), "Project not found");
    assert_eq!(
        EnvError::SourceMissing.message(),
        "Environment file does not exist"
    );
}
