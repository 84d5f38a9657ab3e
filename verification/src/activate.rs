//! The environment activator: makes a chosen env file the effective `.env`
//! in a directory snapshot, keeping a single-generation backup of the
//! previous `.env`, and records the change in the store.
//!
//! The caller reads the project directory into an [`EnvDir`], runs
//! [`activate_env`], and writes the changed files back; the database is
//! touched only after the file steps succeed, so a failed activation
//! leaves the store exactly as it was.

use crate::store::{has_id, idx_of_id, proj_at, unchanged, with_active, Database, HistoryV};
use crate::strutil::{backup_name, dot_env, is_dot_env_exec, str_eq};
use crate::types::EnvError;
use vstd::prelude::*;

verus! {

/// One file of a directory snapshot: its name and its full byte content.
#[derive(Debug)]
pub struct DirFile {
    pub name: String,
    pub content: Vec<u8>,
}

/// Mathematical view of a [`DirFile`].
pub struct DirFileV {
    pub name: Seq<char>,
    pub content: Seq<u8>,
}

impl View for DirFile {
    type V = DirFileV;

    open spec fn view(&self) -> DirFileV {
        DirFileV { name: self.name@, content: self.content@ }
    }
}

/// The names of the snapshot are distinct, as they are in a directory.
pub open spec fn dir_wf(files: Seq<DirFileV>) -> bool {
    forall|i: int, j: int| 0 <= i < j < files.len() ==> files[i].name != files[j].name
}

/// Some file carries the name.
pub open spec fn dir_has(files: Seq<DirFileV>, name: Seq<char>) -> bool {
    exists|i: int| 0 <= i < files.len() && files[i].name == name
}

/// The index of the file carrying the name; meaningful under `dir_has`.
pub open spec fn dir_idx(files: Seq<DirFileV>, name: Seq<char>) -> int {
    choose|i: int| 0 <= i < files.len() && files[i].name == name
}

/// The content of the file carrying the name; meaningful under `dir_has`.
pub open spec fn dir_get(files: Seq<DirFileV>, name: Seq<char>) -> Seq<u8> {
    files[dir_idx(files, name)].content
}

/// The snapshot with the named file's content replaced, or the file
/// appended when the name is new.
pub open spec fn dir_set(files: Seq<DirFileV>, name: Seq<char>, content: Seq<u8>) -> Seq<
    DirFileV,
> {
    if dir_has(files, name) {
        files.update(dir_idx(files, name), DirFileV { name, content })
    } else {
        files.push(DirFileV { name, content })
    }
}

/// A file found at an index is the file `dir_get` reads, when names are
/// distinct.
pub proof fn lemma_dir_found(files: Seq<DirFileV>, name: Seq<char>, i: int)
    requires
        dir_wf(files),
        0 <= i < files.len(),
        files[i].name == name,
    ensures
        dir_has(files, name),
        dir_idx(files, name) == i,
        dir_get(files, name) == files[i].content,
{
    assert(dir_has(files, name));
    let k = dir_idx(files, name);
    if k < i {
        assert(files[k].name != files[i].name);
    } else if k > i {
        assert(files[i].name != files[k].name);
    }
}

/// What `dir_set` does: the named file now holds the content, every other
/// file is untouched, and the names stay distinct.
pub proof fn lemma_dir_set(files: Seq<DirFileV>, name: Seq<char>, content: Seq<u8>)
    requires
        dir_wf(files),
    ensures
        ({
            let d = dir_set(files, name, content);
            &&& dir_wf(d)
            &&& dir_has(d, name)
            &&& dir_get(d, name) == content
            &&& forall|o: Seq<char>|
                o != name ==> #[trigger] dir_has(d, o) == dir_has(files, o)
            &&& forall|o: Seq<char>|
                o != name && dir_has(files, o) ==> #[trigger] dir_get(d, o) == dir_get(files, o)
        }),
{
    let d = dir_set(files, name, content);
    if dir_has(files, name) {
        let i = dir_idx(files, name);
        assert(0 <= i < files.len() && files[i].name == name);
        assert forall|x: int, y: int| 0 <= x < y < d.len() implies d[x].name != d[y].name by {
            assert(d[x].name == files[x].name);
            assert(d[y].name == files[y].name);
        }
        lemma_dir_found(d, name, i);
        assert forall|o: Seq<char>| o != name implies #[trigger] dir_has(d, o) == dir_has(
            files,
            o,
        ) by {
            if dir_has(files, o) {
                let k = dir_idx(files, o);
                assert(k != i);
                assert(d[k].name == o);
                assert(dir_has(d, o));
            }
            if dir_has(d, o) {
                let k = choose|k: int| 0 <= k < d.len() && d[k].name == o;
                assert(k != i);
                assert(files[k].name == o);
                assert(dir_has(files, o));
            }
        }
        assert forall|o: Seq<char>| o != name && dir_has(files, o) implies #[trigger] dir_get(
            d,
            o,
        ) == dir_get(files, o) by {
            let k = dir_idx(files, o);
            assert(0 <= k < files.len() && files[k].name == o);
            assert(k != i);
            assert(d[k] == files[k]);
            lemma_dir_found(d, o, k);
        }
    } else {
        assert forall|x: int, y: int| 0 <= x < y < d.len() implies d[x].name != d[y].name by {
            if y == d.len() - 1 {
                if d[x].name == name {
                    assert(files[x].name == name);
                    assert(dir_has(files, name));
                }
            } else {
                assert(d[x].name == files[x].name);
                assert(d[y].name == files[y].name);
            }
        }
        lemma_dir_found(d, name, files.len() as int);
        assert forall|o: Seq<char>| o != name implies #[trigger] dir_has(d, o) == dir_has(
            files,
            o,
        ) by {
            if dir_has(files, o) {
                let k = dir_idx(files, o);
                assert(d[k].name == o);
                assert(dir_has(d, o));
            }
            if dir_has(d, o) {
                let k = choose|k: int| 0 <= k < d.len() && d[k].name == o;
                assert(k != d.len() - 1);
                assert(files[k].name == o);
                assert(dir_has(files, o));
            }
        }
        assert forall|o: Seq<char>| o != name && dir_has(files, o) implies #[trigger] dir_get(
            d,
            o,
        ) == dir_get(files, o) by {
            let k = dir_idx(files, o);
            assert(0 <= k < files.len() && files[k].name == o);
            assert(d[k] == files[k]);
            lemma_dir_found(d, o, k);
        }
    }
}

/// `.env` and `.env.backup` are different names.
pub proof fn lemma_reserved_names_distinct()
    ensures
        dot_env() != backup_name(),
{
    reveal_strlit(".env");
    reveal_strlit(".env.backup");
    assert(dot_env().len() == 4);
    assert(backup_name().len() == 11);
}

/// The file effect of activating `env_name`, on a snapshot that holds it:
/// activating `.env` itself touches nothing; otherwise the present `.env`,
/// if any, is first copied to `.env.backup`, and then the source's content
/// — read after that backup step — is copied onto `.env`.
pub open spec fn activation_files(files: Seq<DirFileV>, env_name: Seq<char>) -> Seq<DirFileV> {
    if env_name == dot_env() {
        files
    } else {
        let d1 = if dir_has(files, dot_env()) {
            dir_set(files, backup_name(), dir_get(files, dot_env()))
        } else {
            files
        };
        dir_set(d1, dot_env(), dir_get(d1, env_name))
    }
}

/// A snapshot of the files of one project directory.
pub struct EnvDir {
    files: Vec<DirFile>,
}

impl View for EnvDir {
    type V = Seq<DirFileV>;

    closed spec fn view(&self) -> Seq<DirFileV> {
        self.files@.map_values(|f: DirFile| f@)
    }
}

/// A verified byte-for-byte copy.
fn copy_bytes(v: &Vec<u8>) -> (r: Vec<u8>)
    ensures
        r@ == v@,
{
    let mut out: Vec<u8> = Vec::new();
    let mut i: usize = 0;
    while i < v.len()
        invariant
            i <= v.len(),
            out@ =~= v@.subrange(0, i as int),
        decreases v.len() - i,
    {
        out.push(v[i]);
        proof {
            assert(out@ =~= v@.subrange(0, i + 1));
        }
        i += 1;
    }
    proof {
        assert(v@.subrange(0, v@.len() as int) =~= v@);
    }
    out
}

impl EnvDir {
    /// The snapshot's invariant: file names are distinct.
    pub open spec fn wf(&self) -> bool {
        dir_wf(self@)
    }

    /// An empty snapshot.
    pub fn new() -> (r: EnvDir)
        ensures
            r.wf(),
            r@ =~= Seq::<DirFileV>::empty(),
    {
        EnvDir { files: Vec::new() }
    }

    /// The index of the file with the given name, if any.
    fn find(&self, name: &str) -> (r: Option<usize>)
        ensures
            match r {
                Some(i) => i < self.files.len() && self@[i as int].name == name@,
                None => !dir_has(self@, name@),
            },
    {
        let mut i: usize = 0;
        while i < self.files.len()
            invariant
                i <= self.files.len(),
                self@.len() == self.files.len(),
                forall|j: int| 0 <= j < i ==> self@[j].name != name@,
            decreases self.files.len() - i,
        {
            if str_eq(self.files[i].name.as_str(), name) {
                return Some(i);
            }
            i += 1;
        }
        None
    }

    /// Whether the snapshot holds a file of the given name.
    pub fn contains(&self, name: &str) -> (r: bool)
        requires
            self.wf(),
        ensures
            r == dir_has(self@, name@),
    {
        match self.find(name) {
            Some(i) => {
                proof {
                    lemma_dir_found(self@, name@, i as int);
                }
                true
            },
            None => false,
        }
    }

    /// The content of the file with the given name, if any.
    pub fn get_content(&self, name: &str) -> (r: Option<Vec<u8>>)
        requires
            self.wf(),
        ensures
            match r {
                Some(c) => dir_has(self@, name@) && c@ == dir_get(self@, name@),
                None => !dir_has(self@, name@),
            },
    {
        match self.find(name) {
            Some(i) => {
                proof {
                    lemma_dir_found(self@, name@, i as int);
                }
                Some(copy_bytes(&self.files[i].content))
            },
            None => None,
        }
    }

    /// Writes the content under the name: replaces the file of that name,
    /// or appends a new one.
    pub fn put(&mut self, name: &str, content: Vec<u8>)
        requires
            old(self).wf(),
        ensures
            final(self).wf(),
            final(self)@ =~= dir_set(old(self)@, name@, content@),
    {
        match self.find(name) {
            Some(i) => {
                proof {
                    lemma_dir_found(old(self)@, name@, i as int);
                }
                let mut f = self.files.remove(i);
                f.content = content;
                self.files.insert(i, f);
                proof {
                    assert(self@ =~= old(self)@.update(
                        i as int,
                        DirFileV { name: name@, content: content@ },
                    ));
                    lemma_dir_set(old(self)@, name@, content@);
                }
            },
            None => {
                self.files.push(DirFile { name: name.to_owned(), content });
                proof {
                    assert(self@ =~= old(self)@.push(
                        DirFileV { name: name@, content: content@ },
                    ));
                    lemma_dir_set(old(self)@, name@, content@);
                }
            },
        }
    }

}

/// Activates an env file for a project: resolves the project, requires the
/// named source file to be present in the snapshot, applies the file effect
/// of `activation_files` — nothing for `.env` itself; otherwise backup of
/// the present `.env`, then copy of the source onto `.env` — and only then
/// marks the name active and appends a history row, both stamped `now`.
/// On any failure the snapshot and the store are left unchanged.
pub fn activate_env(
    db: &mut Database,
    project_id: i64,
    env_name: &str,
    dir: &mut EnvDir,
    now: &str,
) -> (r: Result<(), EnvError>)
    requires
        old(db).inv(),
        old(dir).wf(),
    ensures
        final(db).inv(),
        final(dir).wf(),
        match r {
            Ok(()) => {
                &&& has_id(old(db)@.projects, project_id as int)
                &&& dir_has(old(dir)@, env_name@)
                &&& final(dir)@ =~= activation_files(old(dir)@, env_name@)
                &&& final(db)@.projects =~= seq![
                    with_active(
                        proj_at(old(db)@.projects, project_id as int),
                        env_name@,
                        now@,
                    ),
                ] + old(db)@.projects.remove(idx_of_id(old(db)@.projects, project_id as int))
                &&& final(db)@.history =~= old(db)@.history.push(
                    HistoryV {
                        project_id: project_id as int,
                        env_name: env_name@,
                        activated_at: now@,
                    },
                )
                &&& final(db)@.next_id == old(db)@.next_id
            },
            Err(e) => {
                &&& unchanged(old(db)@, final(db)@)
                &&& final(dir)@ =~= old(dir)@
                &&& (e is ProjectNotFound <==> !has_id(old(db)@.projects, project_id as int))
                &&& (e is SourceMissing <==> has_id(old(db)@.projects, project_id as int)
                    && !dir_has(old(dir)@, env_name@))
            },
        },
{
    match db.get_project(project_id) {
        Err(_) => {
            return Err(EnvError::ProjectNotFound);
        },
        Ok(_) => {},
    }
    if !dir.contains(env_name) {
        return Err(EnvError::SourceMissing);
    }
    if !is_dot_env_exec(env_name) {
        proof {
            lemma_reserved_names_distinct();
        }
        let had_target = dir.contains(".env");
        proof {
            reveal_strlit(".env");
            assert(".env"@ =~= dot_env());
        }
        if had_target {
            match dir.get_content(".env") {
                Some(c) => {
                    dir.put(".env.backup", c);
                    proof {
                        reveal_strlit(".env.backup");
                        assert(".env.backup"@ =~= backup_name());
                        lemma_dir_set(old(dir)@, backup_name(), dir_get(old(dir)@, dot_env()));
                    }
                },
                None => {
                    proof {
                        assert(false);
                    }
                },
            }
        }
        match dir.get_content(env_name) {
            Some(c) => {
                let ghost mid = dir@;
                dir.put(".env", c);
                proof {
                    reveal_strlit(".env");
                    assert(".env"@ =~= dot_env());
                    lemma_dir_set(mid, dot_env(), dir_get(mid, env_name@));
                    assert(dir@ =~= activation_files(old(dir)@, env_name@));
                }
            },
            None => {
                proof {
                    assert(false);
                }
            },
        }
    }
    let ghost pre_db = db@;
    match db.set_active_environment(project_id, env_name, now) {
        Ok(()) => {},
        Err(_) => {
            proof {
                assert(false);
            }
            return Err(EnvError::ProjectNotFound);
        },
    }
    proof {
        assert(db@.projects[0].id == project_id as int);
        assert(has_id(db@.projects, project_id as int));
    }
    match db.add_env_history(project_id, env_name, now) {
        Ok(()) => {},
        Err(_) => {
            proof {
                assert(false);
            }
            return Err(EnvError::ProjectNotFound);
        },
    }
    Ok(())
}

/// Law: activating `.env` itself leaves every file as it was; with the
/// store contract of [`activate_env`], a present `.env` is marked active
/// and recorded without any file being touched.
pub proof fn lemma_activate_dot_env_keeps_files(files: Seq<DirFileV>)
    ensures
        activation_files(files, dot_env()) == files,
{
}

/// Law: activating another present name when `.env` holds some content `a`
/// leaves `a` in `.env.backup` and the source's content in `.env`. The one
/// name excluded is `.env.backup` itself: there the backup step overwrites
/// the source before it is read.
pub proof fn lemma_activation_backs_up(files: Seq<DirFileV>, env_name: Seq<char>, a: Seq<u8>)
    requires
        dir_wf(files),
        env_name != dot_env(),
        env_name != backup_name(),
        dir_has(files, env_name),
        dir_has(files, dot_env()),
        dir_get(files, dot_env()) == a,
    ensures
        ({
            let d = activation_files(files, env_name);
            &&& dir_has(d, backup_name())
            &&& dir_get(d, backup_name()) == a
            &&& dir_has(d, dot_env())
            &&& dir_get(d, dot_env()) == dir_get(files, env_name)
        }),
{
    lemma_reserved_names_distinct();
    let d1 = dir_set(files, backup_name(), a);
    lemma_dir_set(files, backup_name(), a);
    lemma_dir_set(d1, dot_env(), dir_get(d1, env_name));
}

} // verus!
