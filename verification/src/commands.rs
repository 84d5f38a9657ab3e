//! The command surface over the store: project registration with its
//! defaults, partial update by an options struct, and the active-env read.
//! The caller validates what only the filesystem can tell — that a path
//! exists and is a directory — and supplies the clock reading `now`.

use crate::store::{
    has_id, has_path, history_without, idx_of_id, new_project_v, opt_view, proj_at, unchanged,
    updated_row, Database,
};
use crate::strutil::{name_of_path, project_name_of};
use crate::types::{DatabaseError, Project, UpdateProjectParams};
use vstd::prelude::*;

verus! {

/// Registers the directory at `path` as a project: its name is the path's
/// last segment, its icon fields the defaults `folder` and `#737373`, both
/// timestamps `now`. Refused when the path is already registered, or when
/// the id space is exhausted.
pub fn add_project(db: &mut Database, path: &str, now: &str) -> (r: Result<
    Project,
    DatabaseError,
>)
    requires
        old(db).inv(),
    ensures
        final(db).inv(),
        match r {
            Ok(p) => {
                &&& !has_path(old(db)@.projects, path@)
                &&& old(db)@.next_id < i64::MAX
                &&& p@ == new_project_v(
                    old(db)@.next_id,
                    name_of_path(path@),
                    path@,
                    "folder"@,
                    "#737373"@,
                    now@,
                )
                &&& final(db)@.projects =~= seq![p@] + old(db)@.projects
                &&& final(db)@.history =~= old(db)@.history
                &&& final(db)@.next_id == old(db)@.next_id + 1
            },
            Err(e) => {
                &&& unchanged(old(db)@, final(db)@)
                &&& (e is Constraint <==> has_path(old(db)@.projects, path@))
                &&& (e is Full <==> !has_path(old(db)@.projects, path@) && old(db)@.next_id
                    == i64::MAX)
                &&& (has_path(old(db)@.projects, path@) || old(db)@.next_id == i64::MAX)
            },
        },
{
    let name = project_name_of(path);
    db.insert_project(name.as_str(), path, "folder", "#737373", now)
}

/// Applies a partial update: absent fields keep their stored value,
/// `updated_at` becomes `now`, and the row moves to the front of the
/// listing order; `NotFound` exactly when no row has the id.
pub fn update_project(db: &mut Database, params: UpdateProjectParams, now: &str) -> (r: Result<
    Project,
    DatabaseError,
>)
    requires
        old(db).inv(),
    ensures
        final(db).inv(),
        match r {
            Ok(p) => {
                &&& has_id(old(db)@.projects, params.id as int)
                &&& p@ == updated_row(
                    proj_at(old(db)@.projects, params.id as int),
                    opt_view(params.name),
                    opt_view(params.icon),
                    opt_view(params.icon_color),
                    now@,
                )
                &&& final(db)@.history =~= old(db)@.history
                &&& final(db)@.next_id == old(db)@.next_id
            },
            Err(e) => {
                &&& e is NotFound
                &&& !has_id(old(db)@.projects, params.id as int)
                &&& unchanged(old(db)@, final(db)@)
            },
        },
{
    db.update_project(params.id, params.name, params.icon, params.icon_color, now)
}

/// Every project row, most recently touched first.
pub fn list_projects(db: &Database) -> (r: Result<Vec<Project>, DatabaseError>)
    requires
        db.inv(),
    ensures
        r matches Ok(v) && v@.map_values(|p: Project| p@) =~= db@.projects,
{
    db.get_all_projects()
}

/// Deletes a project row and, cascading, its history rows; `NotFound`
/// exactly when no row has the id.
pub fn delete_project(db: &mut Database, id: i64) -> (r: Result<(), DatabaseError>)
    requires
        old(db).inv(),
    ensures
        final(db).inv(),
        match r {
            Ok(()) => {
                &&& has_id(old(db)@.projects, id as int)
                &&& final(db)@.projects =~= old(db)@.projects.remove(
                    idx_of_id(old(db)@.projects, id as int),
                )
                &&& final(db)@.history =~= history_without(old(db)@.history, id as int)
                &&& final(db)@.next_id == old(db)@.next_id
            },
            Err(e) => {
                &&& e is NotFound
                &&& !has_id(old(db)@.projects, id as int)
                &&& unchanged(old(db)@, final(db)@)
            },
        },
{
    db.delete_project(id)
}

/// The active environment marker of a project; `NotFound` exactly when no
/// row has the id.
pub fn get_active_env(db: &Database, project_id: i64) -> (r: Result<
    Option<String>,
    DatabaseError,
>)
    requires
        db.inv(),
    ensures
        match r {
            Ok(o) => has_id(db@.projects, project_id as int) && opt_view(o) == proj_at(
                db@.projects,
                project_id as int,
            ).active_environment,
            Err(e) => e is NotFound && !has_id(db@.projects, project_id as int),
        },
{
    db.get_active_environment(project_id)
}

} // verus!
