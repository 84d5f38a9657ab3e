use envault::commands::{add_project, update_project};
use envault::store::Database;
use envault::types::{DatabaseError, Project, UpdateProjectParams};

const T1: &str = "2024-01-01 00:00:00";
const T2: &str = "2024-01-02 12:30:45";

fn assert_projects_equal(a: &Project, b: &Project) {
    assert_eq!(a.id, b.id);
    assert_eq!(a.name, b.name);
    assert_eq!(a.path, b.path);
    assert_eq!(a.icon, b.icon);
    assert_eq!(a.icon_color, b.icon_color);
    assert_eq!(a.active_environment, b.active_environment);
    assert_eq!(a.created_at, b.created_at);
    assert_eq!(a.updated_at, b.updated_at);
}

#[test]
fn insert_then_get_roundtrip() {
    let mut db = Database::new();
    let p = db
        .insert_project("demo", "/home/u/demo", "folder", "#737373", T1)
        .unwrap();
    assert_eq!(p.id, 1);
    assert_eq!(p.name, "demo");
    assert_eq!(p.path, "/home/u/demo");
    assert_eq!(p.icon, "folder");
    assert_eq!(p.icon_color, "#737373");
    assert_eq!(p.active_environment, None);
    assert_eq!(p.created_at, T1);
    assert_eq!(p.updated_at, T1);
    let q = db.get_project(p.id).unwrap();
    assert_projects_equal(&p, &q);
}

#[test]
fn duplicate_path_rejected() {
    let mut db = Database::new();
    let first = db
        .insert_project("a", "/srv/app", "folder", "#737373", T1)
        .unwrap();
    let second = db.insert_project("b", "/srv/app", "folder", "#737373", T2);
    assert!(matches!(second, Err(DatabaseError::Constraint)));
    let still = db.get_project(first.id).unwrap();
    assert_projects_equal(&first, &still);
}

#[test]
fn update_without_fields_keeps_all_but_updated_at() {
    let mut db = Database::new();
    let p = db
        .insert_project("demo", "/home/u/demo", "folder", "#737373", T1)
        .unwrap();
    let params = UpdateProjectParams { id: p.id, name: None, icon: None, icon_color: None };
    let q = update_project(&mut db, params, T2).unwrap();
    assert_eq!(q.id, p.id);
    assert_eq!(q.name, p.name);
    assert_eq!(q.path, p.path);
    assert_eq!(q.icon, p.icon);
    assert_eq!(q.icon_color, p.icon_color);
    assert_eq!(q.active_environment, p.active_environment);
    assert_eq!(q.created_at, p.created_at);
    assert_eq!(q.updated_at, T2);
}

#[test]
fn update_applies_supplied_fields() {
    let mut db = Database::new();
    let p = db
        .insert_project("demo", "/home/u/demo", "folder", "#737373", T1)
        .unwrap();
    let params = UpdateProjectParams {
        id: p.id,
        name: Some("renamed".to_string()),
        icon: Some("rocket".to_string()),
        icon_color: None,
    };
    let q = update_project(&mut db, params, T2).unwrap();
    assert_eq!(q.name, "renamed");
    assert_eq!(q.icon, "rocket");
    assert_eq!(q.icon_color, "#737373");
    assert_eq!(q.updated_at, T2);
}

#[test]
fn update_unknown_id_not_found() {
    let mut db = Database::new();
    let params = UpdateProjectParams { id: 9, name: None, icon: None, icon_color: None };
    assert!(matches!(update_project(&mut db, params, T1), Err(DatabaseError::NotFound)));
}

#[test]
fn delete_unknown_id_not_found() {
    let mut db = Database::new();
    assert!(matches!(db.delete_project(42), Err(DatabaseError::NotFound)));
}

#[test]
fn delete_then_get_not_found_and_history_cascades() {
    let mut db = Database::new();
    let p = db
        .insert_project("demo", "/home/u/demo", "folder", "#737373", T1)
        .unwrap();
    db.add_env_history(p.id, ".env.local", T1).unwrap();
    assert_eq!(db.history().len(), 1);
    db.delete_project(p.id).unwrap();
    assert!(matches!(db.get_project(p.id), Err(DatabaseError::NotFound)));
    assert_eq!(db.history().len(), 0);
}

#[test]
fn listing_is_most_recently_touched_first() {
    let mut db = Database::new();
    let a = db.insert_project("a", "/p/a", "folder", "#737373", T1).unwrap();
    let b = db.insert_project("b", "/p/b", "folder", "#737373", T1).unwrap();
    let listed = db.get_all_projects().unwrap();
    assert_eq!(listed.len(), 2);
    assert_eq!(listed[0].id, b.id);
    assert_eq!(listed[1].id, a.id);
    let params = UpdateProjectParams { id: a.id, name: None, icon: None, icon_color: None };
    update_project(&mut db, params, T2).unwrap();
    let listed = db.get_all_projects().unwrap();
    assert_eq!(listed[0].id, a.id);
    assert_eq!(listed[1].id, b.id);
}

#[test]
fn exhausted_id_space_reports_full() {
    let mut db = Database::new();
    let near_max = Project {
        id: i64::MAX - 1,
        name: "old".to_string(),
        path: "/p/old".to_string(),
        icon: "folder".to_string(),
        icon_color: "#737373".to_string(),
        active_environment: None,
        created_at: T1.to_string(),
        updated_at: T1.to_string(),
    };
    db.load_project(near_max).unwrap();
    let r = db.insert_project("new", "/p/new", "folder", "#737373", T2);
    assert!(matches!(r, Err(DatabaseError::Full)));
}

#[test]
fn load_rejects_colliding_rows() {
    let mut db = Database::new();
    let p = db.insert_project("a", "/p/a", "folder", "#737373", T1).unwrap();
    let same_id = Project {
        id: p.id,
        name: "x".to_string(),
        path: "/p/x".to_string(),
        icon: "folder".to_string(),
        icon_color: "#737373".to_string(),
        active_environment: None,
        created_at: T1.to_string(),
        updated_at: T1.to_string(),
    };
    assert!(matches!(db.load_project(same_id), Err(DatabaseError::Constraint)));
    let same_path = Project {
        id: 77,
        name: "x".to_string(),
        path: "/p/a".to_string(),
        icon: "folder".to_string(),
        icon_color: "#737373".to_string(),
        active_environment: None,
        created_at: T1.to_string(),
        updated_at: T1.to_string(),
    };
    assert!(matches!(db.load_project(same_path), Err(DatabaseError::Constraint)));
}

#[test]
fn history_insert_needs_known_project() {
    let mut db = Database::new();
    assert!(matches!(db.add_env_history(3, ".env", T1), Err(DatabaseError::Constraint)));
}

#[test]
fn add_project_derives_name_from_path() {
    let mut db = Database::new();
    let p = add_project(&mut db, "/home/user/myproj", T1).unwrap();
    assert_eq!(p.name, "myproj");
    assert_eq!(p.path, "/home/user/myproj");
    assert_eq!(p.icon, "folder");
    assert_eq!(p.icon_color, "#737373");
    let q = add_project(&mut db, "/a/b///", T1).unwrap();
    assert_eq!(q.name, "b");
    let r = add_project(&mut db, "///", T1).unwrap();
    assert_eq!(r.name, "Unnamed Project");
    let s = add_project(&mut db, "relative", T1).unwrap();
    assert_eq!(s.name, "relative");
}

#[test]
fn error_messages_are_descriptive() {
    assert_eq!(DatabaseError::NotFound.message(), "Project not found");
    assert_eq!(DatabaseError::Constraint.message(), "Constraint violation");
    assert_eq!(DatabaseError::Full.message(), "Store is full");
}
