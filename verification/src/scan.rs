//! The environment scanner: out of a directory listing it keeps the
//! entries whose name begins with `.env`, marks the active one, formats
//! the modification time, and orders the result with `.env` first and the
//! rest lexicographic.

use crate::strutil::{
    dot_env, is_dot_env_exec, lemma_lex_le_total, lemma_lex_le_trans, lex_le, lex_le_exec,
    starts_with_env, starts_with_env_exec, str_eq,
};
use crate::types::{EnvFile, EnvFileV};
use vstd::prelude::*;

verus! {

broadcast use vstd::seq_lib::group_to_multiset_ensures;

/// A directory entry as the caller hands it in: file name, absolute path,
/// and the modification time as whole seconds since the Unix epoch, absent
/// when the filesystem cannot report it.
#[derive(Debug)]
pub struct FsEntry {
    pub name: String,
    pub path: String,
    pub modified_secs: Option<i64>,
}

/// Mathematical view of an [`FsEntry`].
pub struct FsEntryV {
    pub name: Seq<char>,
    pub path: Seq<char>,
    pub modified_secs: Option<int>,
}

impl View for FsEntry {
    type V = FsEntryV;

    open spec fn view(&self) -> FsEntryV {
        FsEntryV {
            name: self.name@,
            path: self.path@,
            modified_secs: match self.modified_secs {
                Some(s) => Some(s as int),
                None => None,
            },
        }
    }
}

/// The text `YYYY-MM-DD HH:MM:SS` (UTC) for a count of seconds since the
/// Unix epoch, absent for counts outside the representable range; a
/// function of the seconds value alone.
pub uninterp spec fn utc_text_of(secs: int) -> Option<Seq<char>>;

/// Relies on chrono's `DateTime::<Utc>::from_timestamp_secs`, `None` exactly
/// on an out-of-range count, and on `DateTime::format` with
/// `%Y-%m-%d %H:%M:%S`, whose text depends on the seconds value alone.
#[verifier::external_body]
fn format_utc_seconds(secs: i64) -> (r: Option<String>)
    ensures
        match r {
            Some(s) => utc_text_of(secs as int) == Some(s@),
            None => utc_text_of(secs as int) is None,
        },
{
    match chrono::DateTime::<chrono::Utc>::from_timestamp_secs(secs) {
        Some(dt) => Some(dt.format("%Y-%m-%d %H:%M:%S").to_string()),
        None => None,
    }
}

/// The view of an optional name.
pub open spec fn opt_name(o: Option<String>) -> Option<Seq<char>> {
    match o {
        Some(s) => Some(s@),
        None => None,
    }
}

/// The scan record for one directory entry.
pub open spec fn env_file_of(e: FsEntryV, active: Option<Seq<char>>) -> EnvFileV {
    EnvFileV {
        name: e.name,
        path: e.path,
        is_active: active == Some(e.name),
        modified_at: match e.modified_secs {
            Some(s) => utc_text_of(s),
            None => None,
        },
    }
}

/// The scan records of the entries whose name begins with `.env`, in
/// listing order.
pub open spec fn scan_model(entries: Seq<FsEntryV>, active: Option<Seq<char>>) -> Seq<EnvFileV>
    decreases entries.len(),
{
    if entries.len() == 0 {
        Seq::empty()
    } else {
        let rest = scan_model(entries.drop_last(), active);
        if starts_with_env(entries.last().name) {
            rest.push(env_file_of(entries.last(), active))
        } else {
            rest
        }
    }
}

/// The scanner's order on names: `.env` first, the rest lexicographic.
pub open spec fn env_order(a: Seq<char>, b: Seq<char>) -> bool {
    if a == dot_env() {
        true
    } else if b == dot_env() {
        false
    } else {
        lex_le(a, b)
    }
}

/// The records are in the scanner's order.
pub open spec fn sorted_env(s: Seq<EnvFileV>) -> bool {
    forall|i: int, j: int| 0 <= i < j < s.len() ==> env_order(s[i].name, s[j].name)
}

/// `env_order` is connected.
proof fn lemma_env_order_total(a: Seq<char>, b: Seq<char>)
    ensures
        env_order(a, b) || env_order(b, a),
{
    if a != dot_env() && b != dot_env() {
        lemma_lex_le_total(a, b);
    }
}

/// `env_order` is transitive.
proof fn lemma_env_order_trans(a: Seq<char>, b: Seq<char>, c: Seq<char>)
    requires
        env_order(a, b),
        env_order(b, c),
    ensures
        env_order(a, c),
{
    if a != dot_env() && b != dot_env() && c != dot_env() {
        lemma_lex_le_trans(a, b, c);
    }
}

/// Decides `env_order` on two names.
fn env_order_exec(a: &str, b: &str) -> (r: bool)
    ensures
        r == env_order(a@, b@),
{
    if is_dot_env_exec(a) {
        true
    } else if is_dot_env_exec(b) {
        false
    } else {
        lex_le_exec(a, b)
    }
}

/// The views of a sequence of scan records.
pub open spec fn views_of(s: Seq<EnvFile>) -> Seq<EnvFileV> {
    s.map_values(|f: EnvFile| f@)
}

/// The views of a sequence of directory entries.
pub open spec fn entry_views(s: Seq<FsEntry>) -> Seq<FsEntryV> {
    s.map_values(|e: FsEntry| e@)
}

/// Law: in an ordered scan result, everything before a `.env` record is
/// itself `.env` — so `.env`, where present, stands first.
pub proof fn lemma_dot_env_first(s: Seq<EnvFileV>, j: int)
    requires
        sorted_env(s),
        0 <= j < s.len(),
        s[j].name == dot_env(),
    ensures
        forall|i: int| 0 <= i < j ==> s[i].name == dot_env(),
{
    assert forall|i: int| 0 <= i < j implies s[i].name == dot_env() by {
        assert(env_order(s[i].name, s[j].name));
    }
}

/// Scans a directory listing: keeps the entries whose name begins with
/// `.env`, marks each record active exactly when its name equals the
/// supplied active name, carries the formatted modification time, and
/// orders the result with `.env` first and the rest lexicographic by name.
pub fn scan_env_files(entries: Vec<FsEntry>, active_env: Option<String>) -> (r: Vec<EnvFile>)
    ensures
        views_of(r@).to_multiset() =~= scan_model(
            entry_views(entries@),
            opt_name(active_env),
        ).to_multiset(),
        sorted_env(views_of(r@)),
        forall|i: int| 0 <= i < r@.len() ==> starts_with_env(#[trigger] r@[i]@.name),
        forall|i: int|
            0 <= i < r@.len() ==> #[trigger] r@[i]@.is_active == (opt_name(active_env) == Some(
                r@[i]@.name,
            )),
{
    let mut out: Vec<EnvFile> = Vec::new();
    let mut i: usize = 0;
    while i < entries.len()
        invariant
            i <= entries.len(),
            entry_views(entries@).len() == entries@.len(),
            views_of(out@) =~= scan_model(
                entry_views(entries@).subrange(0, i as int),
                opt_name(active_env),
            ),
            forall|k: int| 0 <= k < out@.len() ==> starts_with_env(#[trigger] out@[k]@.name),
            forall|k: int|
                0 <= k < out@.len() ==> #[trigger] out@[k]@.is_active == (opt_name(active_env)
                    == Some(out@[k]@.name)),
        decreases entries.len() - i,
    {
        let ghost ev = entry_views(entries@);
        let ghost prev = views_of(out@);
        proof {
            assert(ev.subrange(0, i + 1).drop_last() =~= ev.subrange(0, i as int));
            assert(ev.subrange(0, i + 1).last() == ev[i as int]);
            assert(ev[i as int] == entries@[i as int]@);
        }
        let e = &entries[i];
        if starts_with_env_exec(e.name.as_str()) {
            let is_active = match &active_env {
                Some(a) => str_eq(a.as_str(), e.name.as_str()),
                None => false,
            };
            let modified_at = match e.modified_secs {
                Some(s) => format_utc_seconds(s),
                None => None,
            };
            let f = EnvFile { name: e.name.clone(), path: e.path.clone(), is_active, modified_at };
            proof {
                assert(f@ == env_file_of(ev[i as int], opt_name(active_env)));
            }
            out.push(f);
            proof {
                assert(views_of(out@) =~= prev.push(
                    env_file_of(ev[i as int], opt_name(active_env)),
                ));
            }
        }
        proof {
            assert(views_of(out@) =~= scan_model(
                ev.subrange(0, i + 1),
                opt_name(active_env),
            ));
        }
        i += 1;
    }
    proof {
        assert(entry_views(entries@).subrange(0, entries@.len() as int) =~= entry_views(
            entries@,
        ));
    }
    let ghost base = views_of(out@);
    let mut n: usize = 1;
    while n < out.len()
        invariant
            1 <= n,
            out@.len() == base.len(),
            views_of(out@).to_multiset() =~= base.to_multiset(),
            forall|x: int, y: int|
                0 <= x < y < n && y < out@.len() ==> env_order(
                    views_of(out@)[x].name,
                    views_of(out@)[y].name,
                ),
            forall|k: int| 0 <= k < out@.len() ==> starts_with_env(#[trigger] out@[k]@.name),
            forall|k: int|
                0 <= k < out@.len() ==> #[trigger] out@[k]@.is_active == (opt_name(active_env)
                    == Some(out@[k]@.name)),
        decreases out.len() - n,
    {
        let ghost pre = views_of(out@);
        let x = out.remove(n);
        proof {
            assert(views_of(out@) =~= pre.remove(n as int));
        }
        let ghost mid = views_of(out@);
        let mut k: usize = 0;
        while k < n && env_order_exec(out[k].name.as_str(), x.name.as_str())
            invariant
                k <= n,
                n < pre.len(),
                out@.len() == pre.len() - 1,
                views_of(out@) == mid,
                mid =~= pre.remove(n as int),
                forall|t: int| 0 <= t < k ==> env_order(#[trigger] mid[t].name, x@.name),
            decreases n - k,
        {
            k += 1;
        }
        proof {
            if k < n {
                assert(!env_order(mid[k as int].name, x@.name));
                lemma_env_order_total(mid[k as int].name, x@.name);
            }
        }
        out.insert(k, x);
        proof {
            assert(views_of(out@) =~= mid.insert(k as int, x@));
            let post = views_of(out@);
            assert(post.to_multiset() =~= base.to_multiset());
            assert forall|a: int, b: int|
                0 <= a < b < n + 1 && b < post.len() implies env_order(
                post[a].name,
                post[b].name,
            ) by {
                if b < k {
                    assert(post[a] == mid[a] && post[b] == mid[b]);
                    assert(mid[a] == pre[a] && mid[b] == pre[b]);
                } else if b == k {
                    assert(post[b] == x@);
                    assert(post[a] == mid[a]);
                } else {
                    // b > k
                    if a < k {
                        assert(post[a] == mid[a]);
                        assert(post[b] == mid[b - 1]);
                        assert(mid[a] == pre[a] && mid[b - 1] == pre[b - 1]);
                    } else if a == k {
                        assert(post[a] == x@);
                        assert(post[b] == mid[b - 1]);
                        if k < n {
                            assert(env_order(x@.name, mid[k as int].name));
                            if b - 1 == k {
                            } else {
                                assert(mid[k as int] == pre[k as int]);
                                assert(mid[b - 1] == pre[b - 1]);
                                assert(env_order(pre[k as int].name, pre[b - 1].name));
                                lemma_env_order_trans(
                                    x@.name,
                                    mid[k as int].name,
                                    mid[b - 1].name,
                                );
                            }
                        }
                    } else {
                        assert(post[a] == mid[a - 1]);
                        assert(post[b] == mid[b - 1]);
                        assert(mid[a - 1] == pre[a - 1] && mid[b - 1] == pre[b - 1]);
                    }
                }
            }
            assert(x@ == pre[n as int]);
            assert forall|t: int| 0 <= t < out@.len() implies starts_with_env(
                #[trigger] out@[t]@.name,
            ) && (out@[t]@.is_active == (opt_name(active_env) == Some(out@[t]@.name))) by {
                assert(post[t] == out@[t]@);
                if t < k {
                    assert(post[t] == mid[t]);
                    assert(mid[t] == pre[t]);
                } else if t == k {
                    assert(post[t] == x@);
                } else if t - 1 < n {
                    assert(post[t] == mid[t - 1]);
                    assert(mid[t - 1] == pre[t - 1]);
                } else {
                    assert(post[t] == mid[t - 1]);
                    assert(mid[t - 1] == pre[t]);
                }
            }
        }
        n += 1;
    }
    proof {
        assert(sorted_env(views_of(out@)));
    }
    out
}

} // verus!
