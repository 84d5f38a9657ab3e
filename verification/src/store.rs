//! The project registry: rows of registered projects, an append-only
//! activation history, and the id counter, with the store's invariant —
//! ids unique and below the counter, paths unique.
//!
//! Rows are kept most-recently-touched first, which realises the listing
//! order `updated_at` descending: every mutation stamps `updated_at` and
//! moves the row to the front.

use crate::types::{DatabaseError, Project, ProjectV};
use vstd::prelude::*;

verus! {

/// One activation history row; append-only, removed only when its project
/// is deleted.
#[derive(Debug)]
pub struct HistoryRow {
    pub project_id: i64,
    pub env_name: String,
    pub activated_at: String,
}

/// Mathematical view of a [`HistoryRow`].
pub struct HistoryV {
    pub project_id: int,
    pub env_name: Seq<char>,
    pub activated_at: Seq<char>,
}

impl View for HistoryRow {
    type V = HistoryV;

    open spec fn view(&self) -> HistoryV {
        HistoryV {
            project_id: self.project_id as int,
            env_name: self.env_name@,
            activated_at: self.activated_at@,
        }
    }
}

impl Clone for HistoryRow {
    fn clone(&self) -> (r: Self)
        ensures
            r@ == self@,
    {
        HistoryRow {
            project_id: self.project_id,
            env_name: self.env_name.clone(),
            activated_at: self.activated_at.clone(),
        }
    }
}

/// Mathematical view of the whole store.
pub struct DbModel {
    pub projects: Seq<ProjectV>,
    pub history: Seq<HistoryV>,
    pub next_id: int,
}

/// Some row carries the id.
pub open spec fn has_id(ps: Seq<ProjectV>, id: int) -> bool {
    exists|i: int| 0 <= i < ps.len() && ps[i].id == id
}

/// Some row carries the path.
pub open spec fn has_path(ps: Seq<ProjectV>, path: Seq<char>) -> bool {
    exists|i: int| 0 <= i < ps.len() && ps[i].path == path
}

/// The index of the row carrying the id; meaningful under `has_id`.
pub open spec fn idx_of_id(ps: Seq<ProjectV>, id: int) -> int {
    choose|i: int| 0 <= i < ps.len() && ps[i].id == id
}

/// The row carrying the id; meaningful under `has_id`.
pub open spec fn proj_at(ps: Seq<ProjectV>, id: int) -> ProjectV {
    ps[idx_of_id(ps, id)]
}

/// The store's invariant: unique ids below the counter, unique paths.
pub open spec fn db_inv(m: DbModel) -> bool {
    &&& forall|i: int, j: int|
        0 <= i < j < m.projects.len() ==> m.projects[i].id != m.projects[j].id
    &&& forall|i: int, j: int|
        0 <= i < j < m.projects.len() ==> m.projects[i].path != m.projects[j].path
    &&& forall|i: int|
        0 <= i < m.projects.len() ==> 1 <= #[trigger] m.projects[i].id < m.next_id
    &&& 1 <= m.next_id <= i64::MAX
}

/// The two models agree; used where an operation promises to change nothing.
pub open spec fn unchanged(pre: DbModel, post: DbModel) -> bool {
    post.projects =~= pre.projects && post.history =~= pre.history && post.next_id
        == pre.next_id
}

/// The row a fresh insertion produces.
pub open spec fn new_project_v(
    id: int,
    name: Seq<char>,
    path: Seq<char>,
    icon: Seq<char>,
    icon_color: Seq<char>,
    now: Seq<char>,
) -> ProjectV {
    ProjectV {
        id,
        name,
        path,
        icon,
        icon_color,
        active_environment: None,
        created_at: now,
        updated_at: now,
    }
}

/// A stored field, unless the update supplies a replacement.
pub open spec fn coalesce(cur: Seq<char>, new: Option<Seq<char>>) -> Seq<char> {
    match new {
        Some(s) => s,
        None => cur,
    }
}

/// The row a partial update produces: optional fields coalesced,
/// `updated_at` refreshed, everything else kept.
pub open spec fn updated_row(
    p: ProjectV,
    name: Option<Seq<char>>,
    icon: Option<Seq<char>>,
    icon_color: Option<Seq<char>>,
    now: Seq<char>,
) -> ProjectV {
    ProjectV {
        name: coalesce(p.name, name),
        icon: coalesce(p.icon, icon),
        icon_color: coalesce(p.icon_color, icon_color),
        updated_at: now,
        ..p
    }
}

/// The row an activation marker produces.
pub open spec fn with_active(p: ProjectV, env: Seq<char>, now: Seq<char>) -> ProjectV {
    ProjectV { active_environment: Some(env), updated_at: now, ..p }
}

/// The view of an optional string.
pub open spec fn opt_view(o: Option<String>) -> Option<Seq<char>> {
    match o {
        Some(s) => Some(s@),
        None => None,
    }
}

/// The history with every row of the given project removed.
pub open spec fn history_without(h: Seq<HistoryV>, id: int) -> Seq<HistoryV>
    decreases h.len(),
{
    if h.len() == 0 {
        Seq::empty()
    } else if h.last().project_id == id {
        history_without(h.drop_last(), id)
    } else {
        history_without(h.drop_last(), id).push(h.last())
    }
}

/// A row found at an index is the row `proj_at` names, when ids are unique.
pub proof fn lemma_found_is_proj_at(ps: Seq<ProjectV>, id: int, i: int)
    requires
        forall|x: int, y: int| 0 <= x < y < ps.len() ==> ps[x].id != ps[y].id,
        0 <= i < ps.len(),
        ps[i].id == id,
    ensures
        has_id(ps, id),
        idx_of_id(ps, id) == i,
        proj_at(ps, id) == ps[i],
{
    assert(has_id(ps, id));
    let k = idx_of_id(ps, id);
    if k < i {
        assert(ps[k].id != ps[i].id);
    } else if k > i {
        assert(ps[i].id != ps[k].id);
    }
}

/// Prepending a row with a fresh id and path preserves the invariant.
proof fn lemma_prepend_inv(m: DbModel, p: ProjectV, post: DbModel)
    requires
        db_inv(m),
        p.id == m.next_id,
        m.next_id < i64::MAX,
        !has_path(m.projects, p.path),
        post.projects =~= seq![p] + m.projects,
        post.next_id == m.next_id + 1,
    ensures
        db_inv(post),
{
    let ps = post.projects;
    assert forall|i: int, j: int| 0 <= i < j < ps.len() implies ps[i].id != ps[j].id by {
        if i == 0 {
            assert(ps[j] == m.projects[j - 1]);
            assert(1 <= m.projects[j - 1].id < m.next_id);
        } else {
            assert(ps[i] == m.projects[i - 1]);
            assert(ps[j] == m.projects[j - 1]);
        }
    }
    assert forall|i: int, j: int| 0 <= i < j < ps.len() implies ps[i].path != ps[j].path by {
        if i == 0 {
            assert(ps[j] == m.projects[j - 1]);
            if ps[0].path == ps[j].path {
                assert(has_path(m.projects, p.path));
            }
        } else {
            assert(ps[i] == m.projects[i - 1]);
            assert(ps[j] == m.projects[j - 1]);
        }
    }
    assert forall|i: int| 0 <= i < ps.len() implies 1 <= #[trigger] ps[i].id < post.next_id by {
        if i > 0 {
            assert(ps[i] == m.projects[i - 1]);
            assert(1 <= m.projects[i - 1].id < m.next_id);
        }
    }
}

/// Removing a row preserves the invariant.
proof fn lemma_remove_inv(m: DbModel, i: int, post: DbModel)
    requires
        db_inv(m),
        0 <= i < m.projects.len(),
        post.projects =~= m.projects.remove(i),
        post.next_id == m.next_id,
    ensures
        db_inv(post),
{
    let ps = post.projects;
    assert forall|x: int, y: int| 0 <= x < y < ps.len() implies ps[x].id != ps[y].id by {
        let ox = if x < i { x } else { x + 1 };
        let oy = if y < i { y } else { y + 1 };
        assert(ps[x] == m.projects[ox]);
        assert(ps[y] == m.projects[oy]);
    }
    assert forall|x: int, y: int| 0 <= x < y < ps.len() implies ps[x].path != ps[y].path by {
        let ox = if x < i { x } else { x + 1 };
        let oy = if y < i { y } else { y + 1 };
        assert(ps[x] == m.projects[ox]);
        assert(ps[y] == m.projects[oy]);
    }
    assert forall|x: int| 0 <= x < ps.len() implies 1 <= #[trigger] ps[x].id < post.next_id by {
        let ox = if x < i { x } else { x + 1 };
        assert(ps[x] == m.projects[ox]);
        assert(1 <= m.projects[ox].id < m.next_id);
    }
}

/// Appending a row with a fresh id and path, raising the counter past the
/// id, preserves the invariant.
proof fn lemma_append_inv(m: DbModel, p: ProjectV, post: DbModel)
    requires
        db_inv(m),
        1 <= p.id < i64::MAX,
        !has_id(m.projects, p.id),
        !has_path(m.projects, p.path),
        post.projects =~= m.projects.push(p),
        post.next_id == (if p.id + 1 > m.next_id {
            p.id + 1
        } else {
            m.next_id
        }),
    ensures
        db_inv(post),
{
    let ps = post.projects;
    let n = m.projects.len() as int;
    assert forall|i: int, j: int| 0 <= i < j < ps.len() implies ps[i].id != ps[j].id by {
        if j == n {
            assert(ps[i] == m.projects[i]);
            if ps[i].id == p.id {
                assert(has_id(m.projects, p.id));
            }
        } else {
            assert(ps[i] == m.projects[i]);
            assert(ps[j] == m.projects[j]);
        }
    }
    assert forall|i: int, j: int| 0 <= i < j < ps.len() implies ps[i].path != ps[j].path by {
        if j == n {
            assert(ps[i] == m.projects[i]);
            if ps[i].path == p.path {
                assert(has_path(m.projects, p.path));
            }
        } else {
            assert(ps[i] == m.projects[i]);
            assert(ps[j] == m.projects[j]);
        }
    }
    assert forall|i: int| 0 <= i < ps.len() implies 1 <= #[trigger] ps[i].id < post.next_id by {
        if i < n {
            assert(ps[i] == m.projects[i]);
            assert(1 <= m.projects[i].id < m.next_id);
        }
    }
}

/// Replacing a row by one with the same id and path, at the front,
/// preserves the invariant.
proof fn lemma_replace_front_inv(m: DbModel, i: int, q: ProjectV, post: DbModel)
    requires
        db_inv(m),
        0 <= i < m.projects.len(),
        q.id == m.projects[i].id,
        q.path == m.projects[i].path,
        post.projects =~= seq![q] + m.projects.remove(i),
        post.next_id == m.next_id,
    ensures
        db_inv(post),
{
    let ps = post.projects;
    let pre = m.projects;
    assert forall|x: int, y: int| 0 <= x < y < ps.len() implies ps[x].id != ps[y].id by {
        if x == 0 {
            let oy = if y - 1 < i { y - 1 } else { y };
            assert(ps[y] == pre[oy]);
            if oy < i {
                assert(pre[oy].id != pre[i].id);
            } else {
                assert(pre[i].id != pre[oy].id);
            }
        } else {
            let ox = if x - 1 < i { x - 1 } else { x };
            let oy = if y - 1 < i { y - 1 } else { y };
            assert(ps[x] == pre[ox]);
            assert(ps[y] == pre[oy]);
        }
    }
    assert forall|x: int, y: int| 0 <= x < y < ps.len() implies ps[x].path != ps[y].path by {
        if x == 0 {
            let oy = if y - 1 < i { y - 1 } else { y };
            assert(ps[y] == pre[oy]);
            if oy < i {
                assert(pre[oy].path != pre[i].path);
            } else {
                assert(pre[i].path != pre[oy].path);
            }
        } else {
            let ox = if x - 1 < i { x - 1 } else { x };
            let oy = if y - 1 < i { y - 1 } else { y };
            assert(ps[x] == pre[ox]);
            assert(ps[y] == pre[oy]);
        }
    }
    assert forall|x: int| 0 <= x < ps.len() implies 1 <= #[trigger] ps[x].id < post.next_id by {
        if x == 0 {
            assert(1 <= pre[i].id < m.next_id);
        } else {
            let ox = if x - 1 < i { x - 1 } else { x };
            assert(ps[x] == pre[ox]);
            assert(1 <= pre[ox].id < m.next_id);
        }
    }
}

/// The store: project rows, activation history, and the id counter.
pub struct Database {
    projects: Vec<Project>,
    history: Vec<HistoryRow>,
    next_id: i64,
}

impl View for Database {
    type V = DbModel;

    closed spec fn view(&self) -> DbModel {
        DbModel {
            projects: self.projects@.map_values(|p: Project| p@),
            history: self.history@.map_values(|h: HistoryRow| h@),
            next_id: self.next_id as int,
        }
    }
}

impl Database {
    /// The store's invariant, stated over its view.
    pub open spec fn inv(&self) -> bool {
        db_inv(self@)
    }

    /// An empty store; ids start at 1.
    pub fn new() -> (r: Database)
        ensures
            r.inv(),
            r@.projects =~= Seq::<ProjectV>::empty(),
            r@.history =~= Seq::<HistoryV>::empty(),
            r@.next_id == 1,
    {
        Database { projects: Vec::new(), history: Vec::new(), next_id: 1 }
    }

    /// The index of the row with the given id, if any.
    fn find_by_id(&self, id: i64) -> (r: Option<usize>)
        ensures
            match r {
                Some(i) => i < self.projects.len() && self@.projects[i as int].id == id as int,
                None => !has_id(self@.projects, id as int),
            },
    {
        let mut i: usize = 0;
        while i < self.projects.len()
            invariant
                i <= self.projects.len(),
                self@.projects.len() == self.projects.len(),
                forall|j: int| 0 <= j < i ==> self@.projects[j].id != id as int,
            decreases self.projects.len() - i,
        {
            if self.projects[i].id == id {
                return Some(i);
            }
            i += 1;
        }
        None
    }

    /// The index of the row with the given path, if any.
    fn find_by_path(&self, path: &str) -> (r: Option<usize>)
        ensures
            match r {
                Some(i) => i < self.projects.len() && self@.projects[i as int].path == path@,
                None => !has_path(self@.projects, path@),
            },
    {
        let mut i: usize = 0;
        while i < self.projects.len()
            invariant
                i <= self.projects.len(),
                self@.projects.len() == self.projects.len(),
                forall|j: int| 0 <= j < i ==> self@.projects[j].path != path@,
            decreases self.projects.len() - i,
        {
            if crate::strutil::str_eq(self.projects[i].path.as_str(), path) {
                return Some(i);
            }
            i += 1;
        }
        None
    }

    /// Inserts a new project row with a fresh id, both timestamps set to
    /// `now`, and no active environment; refused when the path is already
    /// registered, or when the id space is exhausted.
    pub fn insert_project(
        &mut self,
        name: &str,
        path: &str,
        icon: &str,
        icon_color: &str,
        now: &str,
    ) -> (r: Result<Project, DatabaseError>)
        requires
            old(self).inv(),
        ensures
            final(self).inv(),
            match r {
                Ok(p) => {
                    &&& !has_path(old(self)@.projects, path@)
                    &&& old(self)@.next_id < i64::MAX
                    &&& p@ == new_project_v(
                        old(self)@.next_id,
                        name@,
                        path@,
                        icon@,
                        icon_color@,
                        now@,
                    )
                    &&& final(self)@.projects =~= seq![p@] + old(self)@.projects
                    &&& final(self)@.history =~= old(self)@.history
                    &&& final(self)@.next_id == old(self)@.next_id + 1
                },
                Err(e) => {
                    &&& unchanged(old(self)@, final(self)@)
                    &&& (e is Constraint <==> has_path(old(self)@.projects, path@))
                    &&& (e is Full <==> !has_path(old(self)@.projects, path@) && old(self)@.next_id
                        == i64::MAX)
                    &&& (has_path(old(self)@.projects, path@) || old(self)@.next_id == i64::MAX)
                },
            },
    {
        match self.find_by_path(path) {
            Some(_) => Err(DatabaseError::Constraint),
            None => {
                if self.next_id == i64::MAX {
                    Err(DatabaseError::Full)
                } else {
                    let p = Project {
                        id: self.next_id,
                        name: name.to_owned(),
                        path: path.to_owned(),
                        icon: icon.to_owned(),
                        icon_color: icon_color.to_owned(),
                        active_environment: None,
                        created_at: now.to_owned(),
                        updated_at: now.to_owned(),
                    };
                    let ret = p.clone();
                    self.projects.insert(0, p);
                    self.next_id = self.next_id + 1;
                    proof {
                        assert(self@.projects =~= seq![ret@] + old(self)@.projects);
                        assert(self@.history =~= old(self)@.history);
                        lemma_prepend_inv(old(self)@, ret@, self@);
                    }
                    Ok(ret)
                }
            },
        }
    }

    /// Every row, most recently touched first.
    pub fn get_all_projects(&self) -> (r: Result<Vec<Project>, DatabaseError>)
        requires
            self.inv(),
        ensures
            r matches Ok(v) && v@.map_values(|p: Project| p@) =~= self@.projects,
    {
        let mut out: Vec<Project> = Vec::new();
        let mut i: usize = 0;
        while i < self.projects.len()
            invariant
                i <= self.projects.len(),
                self@.projects.len() == self.projects.len(),
                out@.len() == i,
                forall|k: int| 0 <= k < i ==> out@[k]@ == self@.projects[k],
            decreases self.projects.len() - i,
        {
            out.push(self.projects[i].clone());
            i += 1;
        }
        proof {
            assert(out@.map_values(|p: Project| p@) =~= self@.projects);
        }
        Ok(out)
    }

    /// The row with the given id; `NotFound` exactly when no row has it.
    pub fn get_project(&self, id: i64) -> (r: Result<Project, DatabaseError>)
        requires
            self.inv(),
        ensures
            match r {
                Ok(p) => has_id(self@.projects, id as int) && p@ == proj_at(
                    self@.projects,
                    id as int,
                ),
                Err(e) => e is NotFound && !has_id(self@.projects, id as int),
            },
    {
        match self.find_by_id(id) {
            Some(i) => {
                proof {
                    lemma_found_is_proj_at(self@.projects, id as int, i as int);
                }
                Ok(self.projects[i].clone())
            },
            None => Err(DatabaseError::NotFound),
        }
    }

    /// Deletes the row with the given id and, cascading, its history rows;
    /// `NotFound` exactly when no row has the id.
    pub fn delete_project(&mut self, id: i64) -> (r: Result<(), DatabaseError>)
        requires
            old(self).inv(),
        ensures
            final(self).inv(),
            match r {
                Ok(()) => {
                    &&& has_id(old(self)@.projects, id as int)
                    &&& final(self)@.projects =~= old(self)@.projects.remove(
                        idx_of_id(old(self)@.projects, id as int),
                    )
                    &&& final(self)@.history =~= history_without(old(self)@.history, id as int)
                    &&& final(self)@.next_id == old(self)@.next_id
                },
                Err(e) => {
                    &&& e is NotFound
                    &&& !has_id(old(self)@.projects, id as int)
                    &&& unchanged(old(self)@, final(self)@)
                },
            },
    {
        match self.find_by_id(id) {
            None => Err(DatabaseError::NotFound),
            Some(i) => {
                proof {
                    lemma_found_is_proj_at(old(self)@.projects, id as int, i as int);
                }
                self.projects.remove(i);
                let mut kept: Vec<HistoryRow> = Vec::new();
                let mut j: usize = 0;
                while j < self.history.len()
                    invariant
                        j <= self.history.len(),
                        self@.history.len() == self.history.len(),
                        kept@.map_values(|h: HistoryRow| h@) =~= history_without(
                            self@.history.subrange(0, j as int),
                            id as int,
                        ),
                    decreases self.history.len() - j,
                {
                    proof {
                        assert(self@.history.subrange(0, j + 1).drop_last() =~= self@.history
                            .subrange(0, j as int));
                        assert(self@.history.subrange(0, j + 1).last() == self@.history[j as int]);
                    }
                    if self.history[j].project_id != id {
                        kept.push(self.history[j].clone());
                    }
                    proof {
                        assert(kept@.map_values(|h: HistoryRow| h@) =~= history_without(
                            self@.history.subrange(0, j + 1),
                            id as int,
                        ));
                    }
                    j += 1;
                }
                proof {
                    assert(self@.history.subrange(0, self.history.len() as int) =~= self@.history);
                }
                self.history = kept;
                proof {
                    lemma_remove_inv(old(self)@, i as int, self@);
                }
                Ok(())
            },
        }
    }

    /// Applies a partial update to the row with the given id: absent fields
    /// keep their stored value, `updated_at` is refreshed, and the row moves
    /// to the front; returns the post-update row. `NotFound` exactly when no
    /// row has the id.
    pub fn update_project(
        &mut self,
        id: i64,
        name: Option<String>,
        icon: Option<String>,
        icon_color: Option<String>,
        now: &str,
    ) -> (r: Result<Project, DatabaseError>)
        requires
            old(self).inv(),
        ensures
            final(self).inv(),
            match r {
                Ok(p) => {
                    &&& has_id(old(self)@.projects, id as int)
                    &&& p@ == updated_row(
                        proj_at(old(self)@.projects, id as int),
                        opt_view(name),
                        opt_view(icon),
                        opt_view(icon_color),
                        now@,
                    )
                    &&& final(self)@.projects =~= seq![p@] + old(self)@.projects.remove(
                        idx_of_id(old(self)@.projects, id as int),
                    )
                    &&& final(self)@.history =~= old(self)@.history
                    &&& final(self)@.next_id == old(self)@.next_id
                },
                Err(e) => {
                    &&& e is NotFound
                    &&& !has_id(old(self)@.projects, id as int)
                    &&& unchanged(old(self)@, final(self)@)
                },
            },
    {
        match self.find_by_id(id) {
            None => Err(DatabaseError::NotFound),
            Some(i) => {
                proof {
                    lemma_found_is_proj_at(old(self)@.projects, id as int, i as int);
                }
                let mut row = self.projects.remove(i);
                match name {
                    Some(n) => {
                        row.name = n;
                    },
                    None => {},
                }
                match icon {
                    Some(n) => {
                        row.icon = n;
                    },
                    None => {},
                }
                match icon_color {
                    Some(n) => {
                        row.icon_color = n;
                    },
                    None => {},
                }
                row.updated_at = now.to_owned();
                let ret = row.clone();
                self.projects.insert(0, row);
                proof {
                    assert(self@.projects =~= seq![ret@] + old(self)@.projects.remove(i as int));
                    lemma_replace_front_inv(old(self)@, i as int, ret@, self@);
                }
                Ok(ret)
            },
        }
    }

    /// Marks the given env name active on the row, refreshes `updated_at`,
    /// and moves the row to the front; `NotFound` exactly when no row has
    /// the id.
    pub fn set_active_environment(&mut self, project_id: i64, env_name: &str, now: &str) -> (r:
        Result<(), DatabaseError>)
        requires
            old(self).inv(),
        ensures
            final(self).inv(),
            match r {
                Ok(()) => {
                    &&& has_id(old(self)@.projects, project_id as int)
                    &&& final(self)@.projects =~= seq![
                        with_active(
                            proj_at(old(self)@.projects, project_id as int),
                            env_name@,
                            now@,
                        ),
                    ] + old(self)@.projects.remove(
                        idx_of_id(old(self)@.projects, project_id as int),
                    )
                    &&& final(self)@.history =~= old(self)@.history
                    &&& final(self)@.next_id == old(self)@.next_id
                },
                Err(e) => {
                    &&& e is NotFound
                    &&& !has_id(old(self)@.projects, project_id as int)
                    &&& unchanged(old(self)@, final(self)@)
                },
            },
    {
        match self.find_by_id(project_id) {
            None => Err(DatabaseError::NotFound),
            Some(i) => {
                proof {
                    lemma_found_is_proj_at(old(self)@.projects, project_id as int, i as int);
                }
                let mut row = self.projects.remove(i);
                row.active_environment = Some(env_name.to_owned());
                row.updated_at = now.to_owned();
                proof {
                    assert(row@ == with_active(
                        proj_at(old(self)@.projects, project_id as int),
                        env_name@,
                        now@,
                    ));
                }
                let ghost rowv = row@;
                self.projects.insert(0, row);
                proof {
                    assert(self@.projects =~= seq![rowv] + old(self)@.projects.remove(i as int));
                    lemma_replace_front_inv(old(self)@, i as int, rowv, self@);
                }
                Ok(())
            },
        }
    }

    /// The active environment marker of the row with the given id;
    /// `NotFound` exactly when no row has it.
    pub fn get_active_environment(&self, project_id: i64) -> (r: Result<
        Option<String>,
        DatabaseError,
    >)
        requires
            self.inv(),
        ensures
            match r {
                Ok(o) => has_id(self@.projects, project_id as int) && opt_view(o) == proj_at(
                    self@.projects,
                    project_id as int,
                ).active_environment,
                Err(e) => e is NotFound && !has_id(self@.projects, project_id as int),
            },
    {
        match self.find_by_id(project_id) {
            None => Err(DatabaseError::NotFound),
            Some(i) => {
                proof {
                    lemma_found_is_proj_at(self@.projects, project_id as int, i as int);
                }
                match &self.projects[i].active_environment {
                    Some(s) => Ok(Some(s.clone())),
                    None => Ok(None),
                }
            },
        }
    }

    /// Appends a history row; refused, as a referential-constraint
    /// violation, exactly when the project id is not registered.
    pub fn add_env_history(&mut self, project_id: i64, env_name: &str, now: &str) -> (r: Result<
        (),
        DatabaseError,
    >)
        requires
            old(self).inv(),
        ensures
            final(self).inv(),
            match r {
                Ok(()) => {
                    &&& has_id(old(self)@.projects, project_id as int)
                    &&& final(self)@.history =~= old(self)@.history.push(
                        HistoryV {
                            project_id: project_id as int,
                            env_name: env_name@,
                            activated_at: now@,
                        },
                    )
                    &&& final(self)@.projects =~= old(self)@.projects
                    &&& final(self)@.next_id == old(self)@.next_id
                },
                Err(e) => {
                    &&& e is Constraint
                    &&& !has_id(old(self)@.projects, project_id as int)
                    &&& unchanged(old(self)@, final(self)@)
                },
            },
    {
        match self.find_by_id(project_id) {
            None => Err(DatabaseError::Constraint),
            Some(_) => {
                self.history.push(
                    HistoryRow {
                        project_id,
                        env_name: env_name.to_owned(),
                        activated_at: now.to_owned(),
                    },
                );
                proof {
                    assert(self@.history =~= old(self)@.history.push(
                        HistoryV {
                            project_id: project_id as int,
                            env_name: env_name@,
                            activated_at: now@,
                        },
                    ));
                    assert(self@.projects =~= old(self)@.projects);
                }
                Ok(())
            },
        }
    }
    /// Loads one already-persisted row, as at startup, at the back of the
    /// listing order; refused, as a constraint violation, when its id or
    /// path collides with a loaded row, its id is below 1, or its id
    /// leaves the counter no room.
    pub fn load_project(&mut self, p: Project) -> (r: Result<(), DatabaseError>)
        requires
            old(self).inv(),
        ensures
            final(self).inv(),
            match r {
                Ok(()) => {
                    &&& 1 <= p@.id < i64::MAX
                    &&& !has_id(old(self)@.projects, p@.id)
                    &&& !has_path(old(self)@.projects, p@.path)
                    &&& final(self)@.projects =~= old(self)@.projects.push(p@)
                    &&& final(self)@.history =~= old(self)@.history
                    &&& final(self)@.next_id == (if p@.id + 1 > old(self)@.next_id {
                        p@.id + 1
                    } else {
                        old(self)@.next_id
                    })
                },
                Err(e) => {
                    &&& e is Constraint
                    &&& !(1 <= p@.id < i64::MAX && !has_id(old(self)@.projects, p@.id)
                        && !has_path(old(self)@.projects, p@.path))
                    &&& unchanged(old(self)@, final(self)@)
                },
            },
    {
        if p.id < 1 || p.id == i64::MAX {
            return Err(DatabaseError::Constraint);
        }
        match self.find_by_id(p.id) {
            Some(_) => {
                return Err(DatabaseError::Constraint);
            },
            None => {},
        }
        match self.find_by_path(p.path.as_str()) {
            Some(_) => {
                return Err(DatabaseError::Constraint);
            },
            None => {},
        }
        if p.id + 1 > self.next_id {
            self.next_id = p.id + 1;
        }
        let ghost pv = p@;
        self.projects.push(p);
        proof {
            assert(self@.projects =~= old(self)@.projects.push(pv));
            assert(self@.history =~= old(self)@.history);
            lemma_append_inv(old(self)@, pv, self@);
        }
        Ok(())
    }

    /// The history rows, oldest first.
    pub fn history(&self) -> (r: &Vec<HistoryRow>)
        ensures
            r@.map_values(|h: HistoryRow| h@) == self@.history,
    {
        &self.history
    }
}

/// Law: a fresh insertion is retrievable by the id it was assigned, and
/// yields the very record the insertion returned.
pub proof fn lemma_insert_then_get(
    m: DbModel,
    name: Seq<char>,
    path: Seq<char>,
    icon: Seq<char>,
    icon_color: Seq<char>,
    now: Seq<char>,
)
    requires
        db_inv(m),
        !has_path(m.projects, path),
        m.next_id < i64::MAX,
    ensures
        ({
            let p = new_project_v(m.next_id, name, path, icon, icon_color, now);
            let post = seq![p] + m.projects;
            has_id(post, p.id) && proj_at(post, p.id) == p
        }),
{
    let p = new_project_v(m.next_id, name, path, icon, icon_color, now);
    let post = seq![p] + m.projects;
    assert(post[0] == p);
    assert(has_id(post, p.id));
    let k = idx_of_id(post, p.id);
    if k > 0 {
        assert(post[k] == m.projects[k - 1]);
        assert(1 <= m.projects[k - 1].id < m.next_id);
    }
    assert(proj_at(post, p.id) == p);
}

/// Law: after an insertion, the path is occupied, so a second insertion of
/// the same path is refused by `insert_project`'s contract, while the first
/// row is still the one its id retrieves.
pub proof fn lemma_duplicate_path_refused(
    m: DbModel,
    name: Seq<char>,
    path: Seq<char>,
    icon: Seq<char>,
    icon_color: Seq<char>,
    now: Seq<char>,
)
    requires
        db_inv(m),
        !has_path(m.projects, path),
        m.next_id < i64::MAX,
    ensures
        ({
            let p = new_project_v(m.next_id, name, path, icon, icon_color, now);
            let post = seq![p] + m.projects;
            has_path(post, path) && proj_at(post, p.id) == p
        }),
{
    let p = new_project_v(m.next_id, name, path, icon, icon_color, now);
    let post = seq![p] + m.projects;
    assert(post[0] == p);
    assert(has_path(post, path));
    lemma_insert_then_get(m, name, path, icon, icon_color, now);
}

/// Law: a partial update with every optional field absent changes nothing
/// but `updated_at`.
pub proof fn lemma_update_keeps_fields(p: ProjectV, now: Seq<char>)
    ensures
        ({
            let q = updated_row(p, None, None, None, now);
            &&& q.id == p.id
            &&& q.name == p.name
            &&& q.path == p.path
            &&& q.icon == p.icon
            &&& q.icon_color == p.icon_color
            &&& q.active_environment == p.active_environment
            &&& q.created_at == p.created_at
            &&& q.updated_at == now
        }),
{
}

/// No row of `history_without(h, id)` names the project `id`.
pub proof fn lemma_history_without_excludes(h: Seq<HistoryV>, id: int)
    ensures
        forall|j: int|
            0 <= j < history_without(h, id).len() ==> #[trigger] history_without(h, id)[j]
                .project_id != id,
    decreases h.len(),
{
    if h.len() > 0 {
        lemma_history_without_excludes(h.drop_last(), id);
        let hw = history_without(h, id);
        let hd = history_without(h.drop_last(), id);
        assert forall|j: int| 0 <= j < hw.len() implies #[trigger] hw[j].project_id != id by {
            if h.last().project_id == id {
                assert(hw[j] == hd[j]);
            } else if j < hw.len() - 1 {
                assert(hw[j] == hd[j]);
            } else {
                assert(hw[j] == h.last());
            }
        }
    }
}

/// Law: after a deletion, the id retrieves no row, and no history row of
/// the project remains.
pub proof fn lemma_delete_then_get(m: DbModel, id: int)
    requires
        db_inv(m),
        has_id(m.projects, id),
    ensures
        ({
            let ps = m.projects.remove(idx_of_id(m.projects, id));
            let hs = history_without(m.history, id);
            &&& !has_id(ps, id)
            &&& forall|j: int| 0 <= j < hs.len() ==> #[trigger] hs[j].project_id != id
        }),
{
    let i = idx_of_id(m.projects, id);
    assert(0 <= i < m.projects.len() && m.projects[i].id == id);
    let ps = m.projects.remove(i);
    assert forall|j: int| 0 <= j < ps.len() implies #[trigger] ps[j].id != id by {
        let oj = if j < i { j } else { j + 1 };
        assert(ps[j] == m.projects[oj]);
        if oj < i {
            assert(m.projects[oj].id != m.projects[i].id);
        } else {
            assert(m.projects[i].id != m.projects[oj].id);
        }
    }
    if has_id(ps, id) {
        let w = choose|w: int| 0 <= w < ps.len() && ps[w].id == id;
        assert(ps[w].id != id);
    }
    lemma_history_without_excludes(m.history, id);
}

} // verus!
