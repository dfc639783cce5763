//! Deterministic worktree path generation and path normalization.
//!
//! A new worktree for branch `b` of project `p`, created while standing in
//! `d`, lives at `parent(d)/p-worktree/p-<sanitized b>-worktree`. The scheme
//! is deterministic but not collision-free: two branch names that sanitize
//! to the same string collide, so callers must check a candidate path
//! against the paths already in use before acting on it.

use crate::error::{WtError, WtResult};
use crate::strutil::{push_char, spec_split, split_chars, str_chars};
use crate::validation::{spec_valid_branch_name, validate_branch_name};
use vstd::prelude::*;

verus! {

/// What one character of a raw branch name becomes in a path segment:
/// separators and drive markers turn into a dash, characters that are
/// unsafe in file names disappear, everything else is kept.
pub open spec fn spec_clean_char(c: char) -> Seq<char> {
    if c == ' ' || c == '/' || c == '\\' || c == ':' {
        seq!['-']
    } else if c == '?' || c == '*' || c == '<' || c == '>' || c == '|' || c == '"' {
        Seq::empty()
    } else {
        seq![c]
    }
}

/// The sanitized form of a raw branch name, character by character.
pub open spec fn spec_clean_branch_name(s: Seq<char>) -> Seq<char>
    decreases s.len(),
{
    if s.len() == 0 {
        Seq::empty()
    } else {
        spec_clean_branch_name(s.drop_last()) + spec_clean_char(s.last())
    }
}

/// Sanitizes a raw branch name for use as a path segment: each of space,
/// `/`, `\` and `:` becomes `-`; each of `?`, `*`, `<`, `>`, `|` and `"` is
/// deleted.
pub fn clean_branch_name(branch_name: &str) -> (r: String)
    ensures
        r@ == spec_clean_branch_name(branch_name@),
{
    let v = str_chars(branch_name);
    let n = v.len();
    let mut out = String::new();
    let mut i: usize = 0;
    while i < n
        invariant
            i <= n == v@.len(),
            v@ == branch_name@,
            out@ == spec_clean_branch_name(v@.take(i as int)),
        decreases n - i,
    {
        let c = v[i];
        proof {
            assert(v@.take(i + 1).drop_last() =~= v@.take(i as int));
            assert(v@.take(i + 1).last() == v@[i as int]);
        }
        if c == ' ' || c == '/' || c == '\\' || c == ':' {
            push_char(&mut out, '-');
            assert(out@ =~= spec_clean_branch_name(v@.take(i + 1)));
        } else if c == '?' || c == '*' || c == '<' || c == '>' || c == '|' || c == '"' {
            assert(out@ =~= spec_clean_branch_name(v@.take(i + 1)));
        } else {
            push_char(&mut out, c);
            assert(out@ =~= spec_clean_branch_name(v@.take(i + 1)));
        }
        i += 1;
    }
    proof {
        assert(v@.take(n as int) =~= v@);
    }
    out
}

/// `s` with trailing `/` characters removed, except that a lone `/` (the
/// root) is kept.
pub open spec fn spec_strip_trailing_slashes(s: Seq<char>) -> Seq<char>
    decreases s.len(),
{
    if s.len() > 1 && s.last() == '/' {
        spec_strip_trailing_slashes(s.drop_last())
    } else {
        s
    }
}

/// `s` shortened from the end up to (and keeping) the last `/`; empty when
/// `s` has no `/` at all.
pub open spec fn spec_drop_last_component(s: Seq<char>) -> Seq<char>
    decreases s.len(),
{
    if s.len() == 0 {
        s
    } else if s.last() == '/' {
        s
    } else {
        spec_drop_last_component(s.drop_last())
    }
}

/// The textual parent directory of `s`: trailing slashes are ignored, the
/// last component is dropped, and a path whose last component is the whole
/// of it has no parent. The root `/` has no parent either.
pub open spec fn spec_parent_dir(s: Seq<char>) -> Option<Seq<char>> {
    let t = spec_strip_trailing_slashes(s);
    if t.len() == 0 || (t.len() == 1 && t[0] == '/') {
        None
    } else {
        let u = spec_drop_last_component(t);
        if u.len() == 0 {
            None
        } else if u.len() == 1 {
            Some(u)
        } else {
            Some(u.drop_last())
        }
    }
}

proof fn lemma_strip_trailing_slashes_take(s: Seq<char>, e: int)
    requires
        1 <= e <= s.len(),
        forall|j: int| e <= j < s.len() ==> s[j] == '/',
        e > 1 ==> s[e - 1] != '/',
    ensures
        spec_strip_trailing_slashes(s) == s.take(e),
    decreases s.len() - e,
{
    if e == s.len() {
        assert(s.take(e) =~= s);
    } else {
        lemma_strip_trailing_slashes_take(s.drop_last(), e);
        assert(s.drop_last().take(e) =~= s.take(e));
    }
}

proof fn lemma_drop_last_component_take(s: Seq<char>, k: int)
    requires
        0 <= k < s.len(),
        s[k] == '/',
        forall|j: int| k < j < s.len() ==> s[j] != '/',
    ensures
        spec_drop_last_component(s) == s.take(k + 1),
    decreases s.len() - k,
{
    if k == s.len() - 1 {
        assert(s.take(k + 1) =~= s);
    } else {
        lemma_drop_last_component_take(s.drop_last(), k);
        assert(s.drop_last().take(k + 1) =~= s.take(k + 1));
    }
}

proof fn lemma_drop_last_component_empty(s: Seq<char>)
    requires
        forall|j: int| 0 <= j < s.len() ==> s[j] != '/',
    ensures
        spec_drop_last_component(s) == Seq::<char>::empty(),
    decreases s.len(),
{
    if s.len() == 0 {
        assert(s =~= Seq::<char>::empty());
    } else {
        lemma_drop_last_component_empty(s.drop_last());
    }
}

/// Computes the textual parent directory of `current_dir`, as
/// `spec_parent_dir` describes it.
pub fn parent_dir(current_dir: &str) -> (r: Option<Vec<char>>)
    ensures
        match r {
            Some(p) => spec_parent_dir(current_dir@) == Some(p@),
            None => spec_parent_dir(current_dir@) is None,
        },
{
    let v = str_chars(current_dir);
    let n = v.len();
    if n == 0 {
        return None;
    }
    let mut e: usize = n;
    while e > 1 && v[e - 1] == '/'
        invariant
            1 <= e <= n == v@.len(),
            forall|j: int| e <= j < n ==> v@[j] == '/',
        decreases e,
    {
        e -= 1;
    }
    proof {
        lemma_strip_trailing_slashes_take(v@, e as int);
    }
    if e == 1 && v[0] == '/' {
        return None;
    }
    let ghost t = v@.take(e as int);
    let mut k: usize = e;
    while k > 0 && v[k - 1] != '/'
        invariant
            0 <= k <= e <= n == v@.len(),
            forall|j: int| k <= j < e ==> v@[j] != '/',
        decreases k,
    {
        k -= 1;
    }
    if k == 0 {
        proof {
            assert(forall|j: int| 0 <= j < t.len() ==> t[j] != '/');
            lemma_drop_last_component_empty(t);
        }
        return None;
    }
    proof {
        assert(t[k - 1] == '/');
        lemma_drop_last_component_take(t, k - 1);
        assert(t.take(k as int) =~= v@.take(k as int));
    }
    if k == 1 {
        let root = crate::strutil::subvec_chars(&v, 0, 1);
        proof {
            assert(spec_drop_last_component(t).len() == 1);
            assert(root@ =~= spec_drop_last_component(t));
        }
        return Some(root);
    }
    let p = crate::strutil::subvec_chars(&v, 0, k - 1);
    proof {
        assert(spec_drop_last_component(t).drop_last() =~= v@.take(k - 1));
    }
    Some(p)
}

/// Joining a directory and an entry name with a single `/`.
pub open spec fn spec_join(p: Seq<char>, name: Seq<char>) -> Seq<char> {
    if p.len() > 0 && p.last() == '/' {
        p + name
    } else {
        p + "/"@ + name
    }
}

/// The target path of a new worktree, once the sanitized branch name has
/// been accepted and the parent directory found:
/// `parent/<project>-worktree/<project>-<sanitized>-worktree`.
pub open spec fn spec_worktree_path(project: Seq<char>, clean: Seq<char>, parent: Seq<char>) -> Seq<
    char,
> {
    spec_join(spec_join(parent, project + "-worktree"@), project + "-"@ + clean + "-worktree"@)
}

/// Derives the deterministic target path for a new worktree.
///
/// The raw branch name is first sanitized (`clean_branch_name`); the
/// sanitized form must then pass the branch-name rules, else a
/// `ValidationError` is returned. A `current_dir` without a parent
/// directory (for example the filesystem root) yields an `IOError`.
pub fn generate_worktree_path(project_name: &str, branch_name: &str, current_dir: &str) -> (r:
    WtResult<String>)
    ensures
        ({
            let clean = spec_clean_branch_name(branch_name@);
            if !spec_valid_branch_name(clean) {
                r matches Err(e) && e is ValidationError
            } else {
                match spec_parent_dir(current_dir@) {
                    None => r matches Err(e) && e is IOError,
                    Some(p) => r matches Ok(out) && out@ == spec_worktree_path(
                        project_name@,
                        clean,
                        p,
                    ),
                }
            }
        }),
{
    let cleaned = clean_branch_name(branch_name);
    match validate_branch_name(cleaned.as_str()) {
        Err(e) => {
            return Err(e);
        },
        Ok(()) => {},
    }
    let parent = match parent_dir(current_dir) {
        None => {
            return Err(
                WtError::IOError(String::from_str("Cannot find parent directory")),
            );
        },
        Some(p) => p,
    };
    let ends_slash = parent.len() > 0 && parent[parent.len() - 1] == '/';
    let mut out = crate::strutil::chars_to_string(&parent);
    if !ends_slash {
        out.append("/");
    }
    out.append(project_name);
    out.append("-worktree");
    proof {
        reveal_strlit("-worktree");
        reveal_strlit("/");
        assert(out@ =~= spec_join(parent@, project_name@ + "-worktree"@));
        assert(out@.len() > 0 && out@.last() != '/');
    }
    out.append("/");
    out.append(project_name);
    out.append("-");
    out.append(cleaned.as_str());
    out.append("-worktree");
    proof {
        assert(out@ =~= spec_worktree_path(
            project_name@,
            spec_clean_branch_name(branch_name@),
            parent@,
        ));
    }
    Ok(out)
}

/// True exactly when `candidate` is one of `paths`: the collision check a
/// caller must make before acting on a generated worktree path.
pub fn path_in_use(paths: &Vec<String>, candidate: &str) -> (r: bool)
    ensures
        r == (exists|i: int| 0 <= i < paths@.len() && #[trigger] paths@[i]@ == candidate@),
{
    let c = String::from_str(candidate);
    let mut i: usize = 0;
    while i < paths.len()
        invariant
            i <= paths@.len(),
            c@ == candidate@,
            forall|j: int| 0 <= j < i ==> #[trigger] paths@[j]@ != candidate@,
        decreases paths.len() - i,
    {
        if paths[i].eq(&c) {
            return true;
        }
        i += 1;
    }
    false
}


/// One step of path normalization over the segments of a path: `.` and
/// empty segments vanish, `..` pops the most recent surviving segment (or
/// consumes the root when nothing else is left), and any other segment is
/// kept. `root` records whether a leading `/` is still in force.
pub open spec fn spec_norm_segs(segs: Seq<Seq<char>>, root: bool, acc: Seq<Seq<char>>) -> (bool,
    Seq<Seq<char>>)
    decreases segs.len(),
{
    if segs.len() == 0 {
        (root, acc)
    } else {
        let h = segs.first();
        let rest = segs.drop_first();
        if h.len() == 0 || h == seq!['.'] {
            spec_norm_segs(rest, root, acc)
        } else if h == seq!['.', '.'] {
            if acc.len() > 0 {
                spec_norm_segs(rest, root, acc.drop_last())
            } else if root {
                spec_norm_segs(rest, false, acc)
            } else {
                spec_norm_segs(rest, root, acc)
            }
        } else {
            spec_norm_segs(rest, root, acc.push(h))
        }
    }
}

/// The segments joined back together with single slashes.
pub open spec fn spec_join_segs(segs: Seq<Seq<char>>) -> Seq<char>
    decreases segs.len(),
{
    if segs.len() == 0 {
        Seq::empty()
    } else if segs.len() == 1 {
        segs[0]
    } else {
        spec_join_segs(segs.drop_last()) + seq!['/'] + segs.last()
    }
}

/// The normalized form of a path: `.` segments and duplicate slashes
/// vanish, and each `..` segment cancels the segment before it (or the
/// root, when it is the first thing left).
pub open spec fn spec_normalize_path(s: Seq<char>) -> Seq<char> {
    let root0 = s.len() > 0 && s[0] == '/';
    let r = spec_norm_segs(spec_split(s, '/'), root0, Seq::empty());
    if r.0 {
        seq!['/'] + spec_join_segs(r.1)
    } else {
        spec_join_segs(r.1)
    }
}

/// Normalizes a textual path as `spec_normalize_path` describes.
pub fn normalize_path(path: &str) -> (r: String)
    ensures
        r@ == spec_normalize_path(path@),
{
    let v = str_chars(path);
    let root0 = v.len() > 0 && v[0] == '/';
    let segs = split_chars(&v, '/');
    let ghost segs_s = segs.deep_view();
    let mut root = root0;
    let mut acc: Vec<Vec<char>> = Vec::new();
    let mut i: usize = 0;
    proof {
        assert(segs_s.skip(0) =~= segs_s);
        assert(acc.deep_view() =~~= Seq::<Seq<char>>::empty());
    }
    while i < segs.len()
        invariant
            i <= segs@.len(),
            segs.deep_view() == segs_s,
            spec_norm_segs(segs_s.skip(i as int), root, acc.deep_view()) == spec_norm_segs(
                segs_s,
                root0,
                Seq::empty(),
            ),
        decreases segs.len() - i,
    {
        proof {
            assert(segs_s.skip(i as int).drop_first() =~~= segs_s.skip(i + 1));
            assert(segs@[i as int].deep_view() == segs_s[i as int]);
            assert(segs_s.skip(i as int).first() == segs_s[i as int]);
            assert(segs_s[i as int] =~= segs@[i as int]@);
        }
        let ghost old_acc = acc.deep_view();
        let ghost old_root = root;
        let h = &segs[i];
        if h.len() == 0 {
            proof {
                assert(h@ =~= Seq::<char>::empty());
            }
        } else if h.len() == 1 && h[0] == '.' {
            proof {
                assert(h@ =~= seq!['.']);
            }
        } else if h.len() == 2 && h[0] == '.' && h[1] == '.' {
            proof {
                assert(h@ =~= seq!['.', '.']);
            }
            if acc.len() > 0 {
                acc.pop();
                proof {
                    assert(acc.deep_view() =~~= old_acc.drop_last());
                }
            } else if root {
                root = false;
            }
        } else {
            proof {
                assert(h@ != Seq::<char>::empty());
                assert(h@ != seq!['.']) by {
                    if h@ == seq!['.'] {
                        assert(h@.len() == 1);
                    }
                }
                assert(h@ != seq!['.', '.']) by {
                    if h@ == seq!['.', '.'] {
                        assert(h@.len() == 2 && h@[0] == '.' && h@[1] == '.');
                    }
                }
            }
            let copy = crate::strutil::subvec_chars(h, 0, h.len());
            proof {
                assert(copy@ =~= h@);
            }
            acc.push(copy);
            proof {
                assert(acc.deep_view() =~~= old_acc.push(h@));
            }
        }
        proof {
            assert(spec_norm_segs(segs_s.skip(i as int), old_root, old_acc) == spec_norm_segs(
                segs_s.skip(i + 1),
                root,
                acc.deep_view(),
            ));
        }
        i += 1;
    }
    proof {
        assert(segs_s.skip(segs@.len() as int) =~= Seq::<Seq<char>>::empty());
    }
    let ghost accd = acc.deep_view();
    let mut outv: Vec<char> = Vec::new();
    if root {
        outv.push('/');
    }
    let ghost lead = outv@;
    let mut k: usize = 0;
    while k < acc.len()
        invariant
            k <= acc@.len(),
            acc.deep_view() == accd,
            outv@ == lead + spec_join_segs(accd.take(k as int)),
        decreases acc.len() - k,
    {
        proof {
            assert(acc@[k as int].deep_view() == accd[k as int]);
            assert(accd.take(k + 1).drop_last() =~= accd.take(k as int));
        }
        if k > 0 {
            outv.push('/');
            crate::strutil::append_chars(&mut outv, &acc[k]);
            proof {
                assert(outv@ =~= lead + spec_join_segs(accd.take(k + 1)));
            }
        } else {
            crate::strutil::append_chars(&mut outv, &acc[k]);
            proof {
                assert(spec_join_segs(accd.take(1)) == accd[0]);
                assert(outv@ =~= lead + spec_join_segs(accd.take(1)));
            }
        }
        k += 1;
    }
    proof {
        assert(accd.take(acc@.len() as int) =~= accd);
    }
    crate::strutil::chars_to_string(&outv)
}

} // verus!
