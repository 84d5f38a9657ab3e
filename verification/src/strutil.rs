//! Verified string helpers: equality, lexicographic order by code point,
//! the `.env` name tests, and extraction of a path's last segment.

use vstd::prelude::*;
use vstd::string::StrSliceExecFns;

verus! {

/// The canonical env file name.
pub open spec fn dot_env() -> Seq<char> {
    ".env"@
}

/// The single-generation backup file name.
pub open spec fn backup_name() -> Seq<char> {
    ".env.backup"@
}

/// The project name used when a path yields no segment.
pub open spec fn unnamed_project() -> Seq<char> {
    "Unnamed Project"@
}

/// Lexicographic order on character sequences, by code point; a prefix sorts
/// before its extensions.
pub open spec fn lex_le(a: Seq<char>, b: Seq<char>) -> bool
    decreases a.len(),
{
    if a.len() == 0 {
        true
    } else if b.len() == 0 {
        false
    } else if a[0] == b[0] {
        lex_le(a.drop_first(), b.drop_first())
    } else {
        (a[0] as int) < (b[0] as int)
    }
}

/// `lex_le` is connected: of any two sequences, one sorts no later than
/// the other.
pub proof fn lemma_lex_le_total(a: Seq<char>, b: Seq<char>)
    ensures
        lex_le(a, b) || lex_le(b, a),
    decreases a.len(),
{
    if a.len() == 0 || b.len() == 0 {
    } else if a[0] == b[0] {
        lemma_lex_le_total(a.drop_first(), b.drop_first());
    } else {
        assert((a[0] as int) != (b[0] as int));
    }
}

/// `lex_le` is transitive.
pub proof fn lemma_lex_le_trans(a: Seq<char>, b: Seq<char>, c: Seq<char>)
    requires
        lex_le(a, b),
        lex_le(b, c),
    ensures
        lex_le(a, c),
    decreases a.len(),
{
    if a.len() == 0 {
    } else if b.len() == 0 {
    } else if c.len() == 0 {
    } else if a[0] == b[0] && b[0] == c[0] {
        lemma_lex_le_trans(a.drop_first(), b.drop_first(), c.drop_first());
    }
}

/// When the first `i` characters agree, the order is decided by the suffixes.
pub proof fn lemma_lex_le_common_prefix(a: Seq<char>, b: Seq<char>, i: int)
    requires
        0 <= i <= a.len(),
        i <= b.len(),
        forall|j: int| 0 <= j < i ==> a[j] == b[j],
    ensures
        lex_le(a, b) == lex_le(a.skip(i), b.skip(i)),
    decreases i,
{
    if i == 0 {
        assert(a.skip(0) =~= a);
        assert(b.skip(0) =~= b);
    } else {
        lemma_lex_le_common_prefix(a, b, i - 1);
        let sa = a.skip(i - 1);
        let sb = b.skip(i - 1);
        assert(sa[0] == a[i - 1]);
        assert(sb[0] == b[i - 1]);
        assert(sa.drop_first() =~= a.skip(i));
        assert(sb.drop_first() =~= b.skip(i));
    }
}

/// True exactly on the sequences the supplied one equals.
pub fn str_eq(a: &str, b: &str) -> (r: bool)
    ensures
        r == (a@ == b@),
{
    let la = a.unicode_len();
    let lb = b.unicode_len();
    if la != lb {
        return false;
    }
    let mut i: usize = 0;
    while i < la
        invariant
            i <= la,
            la == a@.len(),
            la == b@.len(),
            forall|j: int| 0 <= j < i ==> a@[j] == b@[j],
        decreases la - i,
    {
        if a.get_char(i) != b.get_char(i) {
            return false;
        }
        i += 1;
    }
    proof {
        assert(a@ =~= b@);
    }
    true
}

/// Decides `lex_le` on two string slices.
pub fn lex_le_exec(a: &str, b: &str) -> (r: bool)
    ensures
        r == lex_le(a@, b@),
{
    let la = a.unicode_len();
    let lb = b.unicode_len();
    let mut i: usize = 0;
    while i < la && i < lb
        invariant
            i <= la,
            i <= lb,
            la == a@.len(),
            lb == b@.len(),
            forall|j: int| 0 <= j < i ==> a@[j] == b@[j],
        decreases la - i,
    {
        let ca = a.get_char(i);
        let cb = b.get_char(i);
        if ca != cb {
            proof {
                lemma_lex_le_common_prefix(a@, b@, i as int);
            }
            return (ca as u32) < (cb as u32);
        }
        i += 1;
    }
    proof {
        lemma_lex_le_common_prefix(a@, b@, i as int);
    }
    la <= lb
}

/// True of names that begin with the literal prefix `.env`.
pub open spec fn starts_with_env(name: Seq<char>) -> bool {
    name.len() >= dot_env().len() && name.subrange(0, dot_env().len() as int) == dot_env()
}

/// Decides `starts_with_env` on a string slice.
pub fn starts_with_env_exec(s: &str) -> (r: bool)
    ensures
        r == starts_with_env(s@),
{
    proof {
        reveal_strlit(".env");
    }
    let n = s.unicode_len();
    if n < 4 {
        return false;
    }
    let r = s.get_char(0) == '.' && s.get_char(1) == 'e' && s.get_char(2) == 'n' && s.get_char(3)
        == 'v';
    proof {
        reveal_strlit(".env");
        let sub = s@.subrange(0, 4);
        assert(sub[0] == s@[0]);
        assert(sub[1] == s@[1]);
        assert(sub[2] == s@[2]);
        assert(sub[3] == s@[3]);
        if r {
            assert(sub =~= dot_env());
        }
    }
    r
}

/// Decides whether a string slice is exactly `.env`.
pub fn is_dot_env_exec(s: &str) -> (r: bool)
    ensures
        r == (s@ == dot_env()),
{
    proof {
        reveal_strlit(".env");
    }
    let n = s.unicode_len();
    if n != 4 {
        return false;
    }
    let r = s.get_char(0) == '.' && s.get_char(1) == 'e' && s.get_char(2) == 'n' && s.get_char(3)
        == 'v';
    proof {
        reveal_strlit(".env");
        if r {
            assert(s@ =~= dot_env());
        }
    }
    r
}

/// The sequence with its trailing `/` characters removed.
pub open spec fn strip_trailing_slashes(s: Seq<char>) -> Seq<char>
    decreases s.len(),
{
    if s.len() > 0 && s.last() == '/' {
        strip_trailing_slashes(s.drop_last())
    } else {
        s
    }
}

/// The part of the sequence after its last `/`; the whole sequence when no
/// `/` occurs.
pub open spec fn tail_after_slash(s: Seq<char>) -> Seq<char>
    decreases s.len(),
{
    if s.len() == 0 {
        Seq::empty()
    } else if s.last() == '/' {
        Seq::empty()
    } else {
        tail_after_slash(s.drop_last()).push(s.last())
    }
}

/// The project name derived from a directory path: its last non-empty
/// `/`-separated segment, or `Unnamed Project` when there is none.
pub open spec fn name_of_path(p: Seq<char>) -> Seq<char> {
    let t = tail_after_slash(strip_trailing_slashes(p));
    if t.len() == 0 {
        unnamed_project()
    } else {
        t
    }
}

/// Extracts `name_of_path` from a path string.
pub fn project_name_of(path: &str) -> (r: String)
    ensures
        r@ == name_of_path(path@),
{
    let n = path.unicode_len();
    let mut end: usize = n;
    proof {
        assert(path@.subrange(0, n as int) =~= path@);
    }
    while end > 0 && path.get_char(end - 1) == '/'
        invariant
            end <= n,
            n == path@.len(),
            strip_trailing_slashes(path@) == strip_trailing_slashes(
                path@.subrange(0, end as int),
            ),
        decreases end,
    {
        proof {
            assert(path@.subrange(0, end as int).drop_last() =~= path@.subrange(
                0,
                end - 1,
            ));
        }
        end -= 1;
    }
    proof {
        assert(strip_trailing_slashes(path@) == path@.subrange(0, end as int));
    }
    let mut start: usize = end;
    while start > 0 && path.get_char(start - 1) != '/'
        invariant
            start <= end,
            end <= n,
            n == path@.len(),
            tail_after_slash(path@.subrange(0, end as int)) =~= tail_after_slash(
                path@.subrange(0, start as int),
            ) + path@.subrange(start as int, end as int),
        decreases start,
    {
        proof {
            let t = path@.subrange(0, start as int);
            assert(t.drop_last() =~= path@.subrange(0, start - 1));
            assert(t.last() == path@[start - 1]);
            assert(tail_after_slash(path@.subrange(0, start - 1)).push(path@[start - 1])
                + path@.subrange(start as int, end as int) =~= tail_after_slash(
                path@.subrange(0, start - 1),
            ) + path@.subrange(start - 1, end as int));
        }
        start -= 1;
    }
    proof {
        assert(tail_after_slash(path@.subrange(0, start as int)) =~= Seq::<char>::empty());
        assert(tail_after_slash(path@.subrange(0, end as int)) =~= path@.subrange(
            start as int,
            end as int,
        ));
    }
    if start == end {
        let r = "Unnamed Project".to_owned();
        proof {
            reveal_strlit("Unnamed Project");
            assert(r@ =~= unnamed_project());
        }
        r
    } else {
        path.substring_char(start, end).to_owned()
    }
}

} // verus!
