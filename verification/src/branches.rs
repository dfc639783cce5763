//! The branch catalog: merging locally- and remotely-tracked branch names
//! into one deduplicated, insertion-ordered list.
//!
//! Local names come first, each with its upstream tracking name when the
//! caller could resolve one; remote names follow in their own order, with
//! the `origin/` prefix stripped for display, and a remote name is dropped
//! when a local entry already owns that display name — local always wins.

use crate::strutil::{
    chars_to_string, contains_str, has_prefix, has_suffix, spec_contains_seq, spec_trim,
    str_chars, subvec_chars, trim_chars,
};
use crate::worktree::{spec_lines, split_lines};
use vstd::prelude::*;

verus! {

/// One entry of the branch catalog: a display name, whether it came from
/// the remote listing, and the upstream tracking name when one is known.
/// The entry is a weak reference: the branch it names may no longer exist
/// by the time it is used.
#[derive(Debug, PartialEq, Eq)]
pub struct Branch {
    pub name: String,
    pub is_remote: bool,
    pub upstream: Option<String>,
}

/// The mathematical view of a catalog entry.
pub ghost struct BranchRec {
    pub name: Seq<char>,
    pub is_remote: bool,
    pub upstream: Option<Seq<char>>,
}

impl View for Branch {
    type V = BranchRec;

    open spec fn view(&self) -> BranchRec {
        BranchRec {
            name: self.name@,
            is_remote: self.is_remote,
            upstream: self.upstream.deep_view(),
        }
    }
}

impl DeepView for Branch {
    type V = BranchRec;

    open spec fn deep_view(&self) -> BranchRec {
        self.view()
    }
}

/// What one local branch name contributes: nothing for the pseudo-name
/// `HEAD`, otherwise a local entry carrying its upstream.
pub open spec fn spec_local_entry(name: Seq<char>, upstream: Option<Seq<char>>) -> Option<
    BranchRec,
> {
    if name == "HEAD"@ {
        None
    } else {
        Some(BranchRec { name, is_remote: false, upstream })
    }
}

/// What one remote branch name contributes: nothing for a `/HEAD` pointer,
/// otherwise a remote entry under its display name (the `origin/` prefix
/// stripped).
pub open spec fn spec_remote_entry(name: Seq<char>) -> Option<BranchRec> {
    if "/HEAD"@.is_suffix_of(name) {
        None
    } else if "origin/"@.is_prefix_of(name) {
        Some(
            BranchRec {
                name: name.skip("origin/"@.len() as int),
                is_remote: true,
                upstream: None,
            },
        )
    } else {
        Some(BranchRec { name, is_remote: true, upstream: None })
    }
}

/// The local entries of a catalog, in the order the names were listed.
pub open spec fn spec_local_entries(names: Seq<Seq<char>>, ups: Seq<Option<Seq<char>>>) -> Seq<
    BranchRec,
>
    decreases names.len(),
{
    if names.len() == 0 {
        Seq::empty()
    } else {
        let rest = spec_local_entries(names.drop_last(), ups.drop_last());
        match spec_local_entry(names.last(), ups.last()) {
            Some(b) => rest.push(b),
            None => rest,
        }
    }
}

/// The remote entries of a catalog, in the order the names were listed.
pub open spec fn spec_remote_entries(names: Seq<Seq<char>>) -> Seq<BranchRec>
    decreases names.len(),
{
    if names.len() == 0 {
        Seq::empty()
    } else {
        let rest = spec_remote_entries(names.drop_last());
        match spec_remote_entry(names.last()) {
            Some(b) => rest.push(b),
            None => rest,
        }
    }
}

/// Some entry of `s` has display name `name`.
pub open spec fn spec_has_name(s: Seq<BranchRec>, name: Seq<char>) -> bool {
    exists|i: int| 0 <= i < s.len() && #[trigger] s[i].name == name
}

/// The merged catalog: each remote entry is appended to the list in turn,
/// unless an entry of that display name is already present.
pub open spec fn spec_merge(local: Seq<BranchRec>, remote: Seq<BranchRec>) -> Seq<BranchRec>
    decreases remote.len(),
{
    if remote.len() == 0 {
        local
    } else {
        let acc = if spec_has_name(local, remote.first().name) {
            local
        } else {
            local.push(remote.first())
        };
        spec_merge(acc, remote.drop_first())
    }
}

/// A field-for-field copy of a catalog entry.
fn clone_branch(b: &Branch) -> (r: Branch)
    ensures
        r@ == b@,
{
    Branch {
        name: b.name.clone(),
        is_remote: b.is_remote,
        upstream: match &b.upstream {
            Some(u) => Some(u.clone()),
            None => None,
        },
    }
}

/// Decides `spec_has_name` for the entries built so far.
fn has_branch_name(entries: &Vec<Branch>, name: &String) -> (r: bool)
    ensures
        r == spec_has_name(entries.deep_view(), name@),
{
    let mut i: usize = 0;
    while i < entries.len()
        invariant
            i <= entries@.len(),
            forall|j: int| 0 <= j < i ==> #[trigger] entries.deep_view()[j].name != name@,
        decreases entries.len() - i,
    {
        proof {
            assert(entries.deep_view()[i as int] == entries@[i as int]@);
        }
        if entries[i].name.eq(name) {
            proof {
                assert(entries.deep_view()[i as int].name == name@);
            }
            return true;
        }
        i += 1;
    }
    false
}

/// Builds the local entries of the catalog from the listed names and their
/// resolved upstreams (`None` where no upstream tracking name resolves).
/// The pseudo-name `HEAD` contributes no entry.
pub fn local_branch_entries(names: &Vec<String>, upstreams: &Vec<Option<String>>) -> (r: Vec<
    Branch,
>)
    requires
        names@.len() == upstreams@.len(),
    ensures
        r.deep_view() == spec_local_entries(names.deep_view(), upstreams.deep_view()),
{
    let ghost ns = names.deep_view();
    let ghost us = upstreams.deep_view();
    let head = String::from_str("HEAD");
    let mut out: Vec<Branch> = Vec::new();
    let mut i: usize = 0;
    proof {
        assert(ns.take(0) =~~= Seq::<Seq<char>>::empty());
        assert(us.take(0) =~~= Seq::<Option<Seq<char>>>::empty());
        assert(out.deep_view() =~~= spec_local_entries(ns.take(0), us.take(0)));
    }
    while i < names.len()
        invariant
            i <= names@.len() == ns.len(),
            names.deep_view() == ns,
            upstreams.deep_view() == us,
            us.len() == ns.len(),
            head@ == "HEAD"@,
            out.deep_view() =~~= spec_local_entries(ns.take(i as int), us.take(i as int)),
        decreases names.len() - i,
    {
        proof {
            assert(ns.take(i + 1).drop_last() =~~= ns.take(i as int));
            assert(us.take(i + 1).drop_last() =~~= us.take(i as int));
            assert(names@[i as int].deep_view() == ns[i as int]);
            assert(upstreams@[i as int].deep_view() == us[i as int]);
            assert(ns.take(i + 1).last() == ns[i as int]);
            assert(us.take(i + 1).last() == us[i as int]);
        }
        let ghost old_deep = out.deep_view();
        if !names[i].eq(&head) {
            let entry = Branch {
                name: names[i].clone(),
                is_remote: false,
                upstream: match &upstreams[i] {
                    Some(u) => Some(u.clone()),
                    None => None,
                },
            };
            proof {
                assert(entry@ == spec_local_entry(ns[i as int], us[i as int]).unwrap());
            }
            out.push(entry);
            proof {
                assert(out.deep_view() =~~= old_deep.push(entry@));
                assert(out.deep_view() =~~= spec_local_entries(ns.take(i + 1), us.take(i + 1)));
            }
        } else {
            proof {
                assert(spec_local_entry(ns[i as int], us[i as int]) is None);
                assert(out.deep_view() =~~= spec_local_entries(ns.take(i + 1), us.take(i + 1)));
            }
        }
        i += 1;
    }
    proof {
        assert(ns.take(ns.len() as int) =~~= ns);
        assert(us.take(us.len() as int) =~~= us);
    }
    out
}

/// Builds the remote entries of the catalog from the listed remote names.
/// A `/HEAD` pointer contributes no entry; an `origin/` prefix is stripped
/// for display.
pub fn remote_branch_entries(names: &Vec<String>) -> (r: Vec<Branch>)
    ensures
        r.deep_view() == spec_remote_entries(names.deep_view()),
{
    let ghost ns = names.deep_view();
    let mut out: Vec<Branch> = Vec::new();
    let mut i: usize = 0;
    proof {
        assert(ns.take(0) =~~= Seq::<Seq<char>>::empty());
        assert(out.deep_view() =~~= spec_remote_entries(ns.take(0)));
    }
    while i < names.len()
        invariant
            i <= names@.len() == ns.len(),
            names.deep_view() == ns,
            out.deep_view() =~~= spec_remote_entries(ns.take(i as int)),
        decreases names.len() - i,
    {
        proof {
            assert(ns.take(i + 1).drop_last() =~~= ns.take(i as int));
            assert(names@[i as int].deep_view() == ns[i as int]);
            assert(ns.take(i + 1).last() == ns[i as int]);
        }
        let ghost old_deep = out.deep_view();
        let chars = str_chars(names[i].as_str());
        if !has_suffix(&chars, "/HEAD") {
            let entry = if has_prefix(&chars, "origin/") {
                let pl = "origin/".unicode_len();
                let display = subvec_chars(&chars, pl, chars.len());
                proof {
                    assert(display@ =~= ns[i as int].skip("origin/"@.len() as int));
                }
                Branch {
                    name: chars_to_string(&display),
                    is_remote: true,
                    upstream: None,
                }
            } else {
                Branch { name: names[i].clone(), is_remote: true, upstream: None }
            };
            proof {
                assert(entry@ == spec_remote_entry(ns[i as int]).unwrap());
            }
            out.push(entry);
            proof {
                assert(out.deep_view() =~~= old_deep.push(entry@));
                assert(out.deep_view() =~~= spec_remote_entries(ns.take(i + 1)));
            }
        } else {
            proof {
                assert(spec_remote_entry(ns[i as int]) is None);
                assert(out.deep_view() =~~= spec_remote_entries(ns.take(i + 1)));
            }
        }
        i += 1;
    }
    proof {
        assert(ns.take(ns.len() as int) =~~= ns);
    }
    out
}

/// Merges the local and remote entries into the catalog: local entries
/// first, in order, then each remote entry whose display name is not
/// already taken, in order. Local always wins a name clash.
pub fn merge_branches(local: &Vec<Branch>, remote: &Vec<Branch>) -> (r: Vec<Branch>)
    ensures
        r.deep_view() == spec_merge(local.deep_view(), remote.deep_view()),
{
    let ghost ls = local.deep_view();
    let ghost rs = remote.deep_view();
    let mut out: Vec<Branch> = Vec::new();
    let mut i: usize = 0;
    while i < local.len()
        invariant
            i <= local@.len(),
            local.deep_view() == ls,
            out.deep_view() =~~= ls.take(i as int),
        decreases local.len() - i,
    {
        proof {
            assert(local@[i as int].deep_view() == ls[i as int]);
        }
        let ghost old_deep = out.deep_view();
        let copy = clone_branch(&local[i]);
        out.push(copy);
        proof {
            assert(out.deep_view() =~~= old_deep.push(ls[i as int]));
            assert(out.deep_view() =~~= ls.take(i + 1));
        }
        i += 1;
    }
    proof {
        assert(ls.take(ls.len() as int) =~~= ls);
        assert(rs.skip(0) =~~= rs);
    }
    let mut j: usize = 0;
    while j < remote.len()
        invariant
            j <= remote@.len(),
            remote.deep_view() == rs,
            spec_merge(out.deep_view(), rs.skip(j as int)) == spec_merge(ls, rs),
        decreases remote.len() - j,
    {
        proof {
            assert(remote@[j as int].deep_view() == rs[j as int]);
            assert(rs.skip(j as int).drop_first() =~~= rs.skip(j + 1));
            assert(rs.skip(j as int).first() == rs[j as int]);
        }
        let ghost old_deep = out.deep_view();
        if !has_branch_name(&out, &remote[j].name) {
            let copy = clone_branch(&remote[j]);
            out.push(copy);
            proof {
                assert(out.deep_view() =~~= old_deep.push(rs[j as int]));
                assert(spec_merge(old_deep, rs.skip(j as int)) == spec_merge(
                    out.deep_view(),
                    rs.skip(j + 1),
                ));
            }
        } else {
            proof {
                assert(spec_merge(old_deep, rs.skip(j as int)) == spec_merge(
                    out.deep_view(),
                    rs.skip(j + 1),
                ));
            }
        }
        j += 1;
    }
    proof {
        assert(rs.skip(rs.len() as int) =~~= Seq::<BranchRec>::empty());
    }
    out
}

/// Builds the whole catalog from plain name lists: local names (with no
/// upstream information) first, then the remote names, deduplicated by
/// display name with local taking priority, insertion order kept.
pub fn merge_branch_names(local: &Vec<String>, remote: &Vec<String>) -> (r: Vec<Branch>)
    ensures
        r.deep_view() == spec_merge(
            spec_local_entries(
                local.deep_view(),
                Seq::new(local.deep_view().len(), |i: int| None),
            ),
            spec_remote_entries(remote.deep_view()),
        ),
{
    let mut ups: Vec<Option<String>> = Vec::new();
    let mut i: usize = 0;
    while i < local.len()
        invariant
            i <= local@.len(),
            ups@.len() == i,
            forall|j: int| 0 <= j < i ==> ups@[j] is None,
        decreases local.len() - i,
    {
        ups.push(None);
        i += 1;
    }
    proof {
        assert(ups.deep_view() =~~= Seq::new(
            local.deep_view().len(),
            |k: int| None::<Seq<char>>,
        ));
    }
    let locals = local_branch_entries(local, &ups);
    let remotes = remote_branch_entries(remote);
    merge_branches(&locals, &remotes)
}


proof fn lemma_merge_preserves_name(l: Seq<BranchRec>, r: Seq<BranchRec>, n: Seq<char>)
    requires
        spec_has_name(l, n),
    ensures
        spec_has_name(spec_merge(l, r), n),
    decreases r.len(),
{
    if r.len() > 0 {
        let acc = if spec_has_name(l, r.first().name) {
            l
        } else {
            l.push(r.first())
        };
        let i = choose|i: int| 0 <= i < l.len() && #[trigger] l[i].name == n;
        assert(acc[i].name == n);
        lemma_merge_preserves_name(acc, r.drop_first(), n);
    }
}

proof fn lemma_merge_remote_present(l: Seq<BranchRec>, r: Seq<BranchRec>)
    ensures
        forall|j: int|
            0 <= j < r.len() ==> spec_has_name(spec_merge(l, r), #[trigger] r[j].name),
    decreases r.len(),
{
    if r.len() > 0 {
        let first = r.first();
        let acc = if spec_has_name(l, first.name) {
            l
        } else {
            l.push(first)
        };
        assert(spec_has_name(acc, first.name)) by {
            if spec_has_name(l, first.name) {
                let i = choose|i: int| 0 <= i < l.len() && #[trigger] l[i].name == first.name;
                assert(acc[i].name == first.name);
            } else {
                assert(acc[l.len() as int].name == first.name);
            }
        }
        lemma_merge_preserves_name(acc, r.drop_first(), first.name);
        lemma_merge_remote_present(acc, r.drop_first());
        assert forall|j: int| 0 <= j < r.len() implies spec_has_name(
            spec_merge(l, r),
            #[trigger] r[j].name,
        ) by {
            if j > 0 {
                assert(r.drop_first()[j - 1] == r[j]);
            }
        }
    }
}

proof fn lemma_merge_noop(m: Seq<BranchRec>, r: Seq<BranchRec>)
    requires
        forall|j: int| 0 <= j < r.len() ==> spec_has_name(m, #[trigger] r[j].name),
    ensures
        spec_merge(m, r) == m,
    decreases r.len(),
{
    if r.len() > 0 {
        assert(spec_has_name(m, r[0].name));
        assert forall|j: int| 0 <= j < r.drop_first().len() implies spec_has_name(
            m,
            #[trigger] r.drop_first()[j].name,
        ) by {
            assert(r.drop_first()[j] == r[j + 1]);
        }
        lemma_merge_noop(m, r.drop_first());
    }
}

/// Merging is idempotent: feeding the merged catalog through the same
/// remote listing again yields the identical ordered sequence. Together
/// with the exact contract of `merge_branches` (the result is a function
/// of the inputs alone), running the merge twice on the same inputs can
/// never reorder or duplicate entries.
pub proof fn lemma_merge_idempotent(l: Seq<BranchRec>, r: Seq<BranchRec>)
    ensures
        spec_merge(spec_merge(l, r), r) == spec_merge(l, r),
{
    lemma_merge_remote_present(l, r);
    lemma_merge_noop(spec_merge(l, r), r);
}

/// No two entries of `s` share a display name.
pub open spec fn spec_unique_names(s: Seq<BranchRec>) -> bool {
    forall|i: int, j: int|
        0 <= i < j < s.len() ==> #[trigger] s[i].name != #[trigger] s[j].name
}

/// The catalog never holds two entries with the same display name: when
/// the local entries are themselves duplicate-free, so is the whole merged
/// catalog — a clashing remote name is dropped, never added twice.
pub proof fn lemma_merge_unique_names(l: Seq<BranchRec>, r: Seq<BranchRec>)
    requires
        spec_unique_names(l),
    ensures
        spec_unique_names(spec_merge(l, r)),
    decreases r.len(),
{
    if r.len() > 0 {
        let first = r.first();
        if spec_has_name(l, first.name) {
            lemma_merge_unique_names(l, r.drop_first());
        } else {
            let acc = l.push(first);
            assert forall|i: int, j: int| 0 <= i < j < acc.len() implies #[trigger] acc[i].name
                != #[trigger] acc[j].name by {
                if j == l.len() {
                    assert(acc[i] == l[i]);
                    assert(!spec_has_name(l, first.name));
                    assert(l[i].name != first.name);
                }
            }
            lemma_merge_unique_names(acc, r.drop_first());
        }
    }
}

/// The local entries always stand unchanged, in order, at the front of
/// the merged catalog: merging only ever appends remote entries.
pub proof fn lemma_merge_local_prefix(l: Seq<BranchRec>, r: Seq<BranchRec>)
    ensures
        spec_merge(l, r).len() >= l.len(),
        forall|i: int| 0 <= i < l.len() ==> spec_merge(l, r)[i] == l[i],
    decreases r.len(),
{
    if r.len() > 0 {
        let acc = if spec_has_name(l, r.first().name) {
            l
        } else {
            l.push(r.first())
        };
        lemma_merge_local_prefix(acc, r.drop_first());
        assert forall|i: int| 0 <= i < l.len() implies spec_merge(l, r)[i] == l[i] by {
            assert(spec_merge(acc, r.drop_first())[i] == acc[i]);
            assert(acc[i] == l[i]);
        }
    }
}


/// `s` without its leading `*` markers.
pub open spec fn spec_strip_stars(s: Seq<char>) -> Seq<char>
    decreases s.len(),
{
    if s.len() > 0 && s.first() == '*' {
        spec_strip_stars(s.drop_first())
    } else {
        s
    }
}

proof fn lemma_strip_stars_skip(s: Seq<char>, a: int)
    requires
        0 <= a <= s.len(),
        forall|j: int| 0 <= j < a ==> s[j] == '*',
        a < s.len() ==> s[a] != '*',
    ensures
        spec_strip_stars(s) == s.skip(a),
    decreases a,
{
    if a == 0 {
        assert(s.skip(0) =~= s);
    } else {
        lemma_strip_stars_skip(s.drop_first(), a - 1);
        assert(s.drop_first().skip(a - 1) =~= s.skip(a));
    }
}

/// One line of a raw branch listing, cleaned for the catalog: surrounding
/// white space and the current-branch `*` marker removed.
pub open spec fn spec_clean_branch_line(l: Seq<char>) -> Seq<char> {
    spec_trim(spec_strip_stars(spec_trim(l)))
}

/// What the lines of a raw branch listing contribute to the catalog:
/// blank lines and lines mentioning `HEAD` contribute nothing; a cleaned
/// line starting with `remotes/` joins the remote names (that prefix
/// dropped, the remote qualifier such as `origin/` kept); any other joins
/// the local names.
pub open spec fn spec_branch_listing(lines: Seq<Seq<char>>) -> (Seq<Seq<char>>, Seq<Seq<char>>)
    decreases lines.len(),
{
    if lines.len() == 0 {
        (Seq::empty(), Seq::empty())
    } else {
        let prev = spec_branch_listing(lines.drop_last());
        let t = spec_trim(lines.last());
        if t.len() == 0 || spec_contains_seq(t, "HEAD"@) {
            prev
        } else {
            let c = spec_trim(spec_strip_stars(t));
            if "remotes/"@.is_prefix_of(c) {
                (prev.0, prev.1.push(c.skip("remotes/"@.len() as int)))
            } else {
                (prev.0.push(c), prev.1)
            }
        }
    }
}

/// Splits the raw output of a branch listing into local names and
/// remote-qualified names, ready for the catalog: lines are trimmed, the
/// current-branch `*` marker dropped, blank lines and `HEAD` pointers
/// skipped, and `remotes/<remote>/<name>` listed as `<remote>/<name>`
/// under the remote names.
pub fn parse_branch_listing(text: &str) -> (r: (Vec<String>, Vec<String>))
    ensures
        r.0.deep_view() == spec_branch_listing(spec_lines(text@)).0,
        r.1.deep_view() == spec_branch_listing(spec_lines(text@)).1,
{
    let v = str_chars(text);
    let lines = split_lines(&v);
    let ghost ls = lines.deep_view();
    let mut local: Vec<String> = Vec::new();
    let mut remote: Vec<String> = Vec::new();
    let mut i: usize = 0;
    proof {
        assert(ls.take(0) =~~= Seq::<Seq<char>>::empty());
        assert(local.deep_view() =~~= spec_branch_listing(ls.take(0)).0);
        assert(remote.deep_view() =~~= spec_branch_listing(ls.take(0)).1);
    }
    while i < lines.len()
        invariant
            i <= lines@.len(),
            lines.deep_view() == ls,
            local.deep_view() =~~= spec_branch_listing(ls.take(i as int)).0,
            remote.deep_view() =~~= spec_branch_listing(ls.take(i as int)).1,
        decreases lines.len() - i,
    {
        proof {
            assert(ls.take(i + 1).drop_last() =~~= ls.take(i as int));
            assert(lines@[i as int].deep_view() == ls[i as int]);
            assert(lines@[i as int]@ =~= ls[i as int]);
            assert(ls.take(i + 1).last() == ls[i as int]);
        }
        let ghost old_local = local.deep_view();
        let ghost old_remote = remote.deep_view();
        let t = trim_chars(&lines[i]);
        if t.len() > 0 && !contains_str(&t, "HEAD") {
            let mut a: usize = 0;
            while a < t.len() && t[a] == '*'
                invariant
                    a <= t@.len(),
                    forall|j: int| 0 <= j < a ==> t@[j] == '*',
                decreases t.len() - a,
            {
                a += 1;
            }
            proof {
                lemma_strip_stars_skip(t@, a as int);
            }
            let starless = subvec_chars(&t, a, t.len());
            proof {
                assert(starless@ =~= t@.skip(a as int));
            }
            let c = trim_chars(&starless);
            if has_prefix(&c, "remotes/") {
                let pl = "remotes/".unicode_len();
                let tail = subvec_chars(&c, pl, c.len());
                proof {
                    assert(tail@ =~= c@.skip("remotes/"@.len() as int));
                }
                remote.push(chars_to_string(&tail));
                proof {
                    assert(remote@.len() == old_remote.len() + 1);
                    assert(remote.deep_view() =~~= old_remote.push(tail@));
                    assert(remote.deep_view() =~~= spec_branch_listing(ls.take(i + 1)).1);
                    assert(local.deep_view() =~~= spec_branch_listing(ls.take(i + 1)).0);
                }
            } else {
                local.push(chars_to_string(&c));
                proof {
                    assert(local@.len() == old_local.len() + 1);
                    assert(local.deep_view() =~~= old_local.push(c@));
                    assert(local.deep_view() =~~= spec_branch_listing(ls.take(i + 1)).0);
                    assert(remote.deep_view() =~~= spec_branch_listing(ls.take(i + 1)).1);
                }
            }
        } else {
            proof {
                assert(local.deep_view() =~~= spec_branch_listing(ls.take(i + 1)).0);
                assert(remote.deep_view() =~~= spec_branch_listing(ls.take(i + 1)).1);
            }
        }
        i += 1;
    }
    proof {
        assert(ls.take(lines@.len() as int) =~~= ls);
    }
    (local, remote)
}


/// The argument vector that lists all branches, local and remote.
pub open spec fn spec_branch_list_args() -> Seq<Seq<char>> {
    seq!["branch"@, "-a"@]
}

/// Builds the argument vector whose output `parse_branch_listing`
/// consumes.
pub fn branch_list_args() -> (r: Vec<String>)
    ensures
        r.deep_view() == spec_branch_list_args(),
{
    let mut out: Vec<String> = Vec::new();
    out.push(String::from_str("branch"));
    out.push(String::from_str("-a"));
    proof {
        assert(out.deep_view() =~~= spec_branch_list_args());
    }
    out
}

} // verus!
