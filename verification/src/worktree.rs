//! Parsing of the porcelain worktree listing.
//!
//! The listing is a sequence of terminated lines grouped into blocks. A
//! block starts with a `worktree <path>` line and runs until the next such
//! line or the end of the input. Within a block, `HEAD <sha>` sets the
//! commit, `branch refs/heads/<name>` sets the branch, and a bare `bare`
//! line marks the repository's own metadata entry. Unrecognized lines are
//! ignored. A block without a `branch` line is a detached checkout, which
//! the record keeps distinct from any actual branch name.

use crate::strutil::{
    append_chars, chars_to_string, contains_str, find_first, find_str, has_prefix,
    lemma_find_char_none, lemma_find_char_some, lemma_split_append_clean, lemma_split_append_sep,
    spec_contains_seq, spec_find_char, spec_find_sub, spec_split, split_chars, str_chars,
    subvec_chars,
};
use vstd::prelude::*;

verus! {

/// One entry of the worktree listing.
#[derive(Debug, PartialEq, Eq)]
pub struct WorktreeInfo {
    /// The absolute filesystem path of the checkout; unique within one
    /// listing produced by the underlying tool.
    pub path: String,
    /// The branch checked out there, or `None` for a detached checkout.
    pub branch: Option<String>,
    /// The commit the checkout is at; empty when the listing named none.
    pub commit: String,
    /// Whether the entry denotes the repository's metadata store rather
    /// than a usable checkout.
    pub is_bare: bool,
}

/// The mathematical view of a worktree record.
pub ghost struct WorktreeRec {
    pub path: Seq<char>,
    pub branch: Option<Seq<char>>,
    pub commit: Seq<char>,
    pub is_bare: bool,
}

impl View for WorktreeInfo {
    type V = WorktreeRec;

    open spec fn view(&self) -> WorktreeRec {
        WorktreeRec {
            path: self.path@,
            branch: self.branch.deep_view(),
            commit: self.commit@,
            is_bare: self.is_bare,
        }
    }
}

impl DeepView for WorktreeInfo {
    type V = WorktreeRec;

    open spec fn deep_view(&self) -> WorktreeRec {
        self.view()
    }
}

/// How a new worktree is attached to a branch: by creating the branch or
/// by checking out an existing one.
#[derive(Debug, Clone, Copy, PartialEq, Eq, Structural)]
pub enum BranchMode {
    NewBranch,
    ExistingBranch,
}

/// Handle for one repository's worktrees: it remembers where the
/// repository lives, decides what the underlying tool should be asked, and
/// interprets what it answered. It never touches the repository itself.
pub struct WorktreeManager {
    repo_path: String,
}

impl View for WorktreeManager {
    type V = Seq<char>;

    closed spec fn view(&self) -> Seq<char> {
        self.repo_path@
    }
}

impl WorktreeManager {
    /// Creates a manager for the repository at `repo_path`.
    pub fn new(repo_path: String) -> (r: Self)
        ensures
            r@ == repo_path@,
    {
        WorktreeManager { repo_path }
    }

    /// The repository path this manager was created for.
    pub fn repo_path(&self) -> (r: &String)
        ensures
            r@ == self@,
    {
        &self.repo_path
    }
}

/// One terminated line, as `str::lines` produces it: a trailing carriage
/// return is dropped.
pub open spec fn spec_strip_cr(l: Seq<char>) -> Seq<char> {
    if l.len() > 0 && l.last() == '\r' {
        l.drop_last()
    } else {
        l
    }
}

/// Every line of `ls` with its trailing carriage return stripped.
pub open spec fn spec_strip_cr_all(ls: Seq<Seq<char>>) -> Seq<Seq<char>> {
    Seq::new(ls.len(), |i: int| spec_strip_cr(ls[i]))
}

/// The lines of `s`: split at `\n`, with the empty tail after a final
/// terminator dropped and a trailing `\r` stripped from each line.
pub open spec fn spec_lines(s: Seq<char>) -> Seq<Seq<char>> {
    let parts = spec_split(s, '\n');
    let kept = if parts.last().len() == 0 {
        parts.drop_last()
    } else {
        parts
    };
    spec_strip_cr_all(kept)
}

/// Splits the characters of `v` into lines, as `spec_lines` describes.
pub fn split_lines(v: &Vec<char>) -> (r: Vec<Vec<char>>)
    ensures
        r.deep_view() == spec_lines(v@),
{
    let parts = split_chars(v, '\n');
    let ghost parts_s = parts.deep_view();
    proof {
        crate::strutil::lemma_split_nonempty(v@, '\n');
        assert(parts@.len() > 0);
        assert(parts@[parts@.len() - 1].deep_view() == parts_s[parts_s.len() - 1]);
        assert(parts@[parts@.len() - 1]@ =~= parts_s[parts_s.len() - 1]);
    }
    let keep_last = parts[parts.len() - 1].len() > 0;
    let end: usize = if keep_last {
        parts.len()
    } else {
        parts.len() - 1
    };
    let ghost kept = if parts_s.last().len() == 0 {
        parts_s.drop_last()
    } else {
        parts_s
    };
    proof {
        assert(kept =~~= parts_s.take(end as int));
    }
    let mut out: Vec<Vec<char>> = Vec::new();
    let mut i: usize = 0;
    while i < end
        invariant
            i <= end <= parts@.len(),
            parts.deep_view() == parts_s,
            kept == parts_s.take(end as int),
            out.deep_view() =~~= spec_strip_cr_all(kept.take(i as int)),
        decreases end - i,
    {
        proof {
            assert(parts@[i as int].deep_view() == parts_s[i as int]);
            assert(parts@[i as int]@ =~= parts_s[i as int]);
            assert(kept[i as int] == parts_s[i as int]);
        }
        let ghost old_deep = out.deep_view();
        let line = &parts[i];
        let n = line.len();
        let stripped: Vec<char> = if n > 0 && line[n - 1] == '\r' {
            subvec_chars(line, 0, n - 1)
        } else {
            subvec_chars(line, 0, n)
        };
        proof {
            assert(stripped@ =~= spec_strip_cr(parts_s[i as int]));
        }
        out.push(stripped);
        proof {
            let new_deep = out.deep_view();
            let target = spec_strip_cr_all(kept.take(i + 1));
            assert(old_deep.len() == i as int);
            assert(out@.len() == i + 1);
            assert(new_deep.len() == i + 1);
            assert(kept.len() == end as int);
            assert(target.len() == i + 1);
            assert(new_deep.len() == target.len());
            assert forall|j: int| 0 <= j < new_deep.len() implies new_deep[j] == target[j] by {
                if j < i {
                    assert(new_deep[j] == old_deep[j]);
                    assert(old_deep[j] == spec_strip_cr_all(kept.take(i as int))[j]);
                    assert(target[j] == spec_strip_cr(kept.take(i + 1)[j]));
                } else {
                    assert(new_deep[j] == stripped.deep_view());
                    assert(stripped.deep_view() =~= stripped@);
                    assert(target[j] == spec_strip_cr(kept[i as int]));
                }
            }
            assert(new_deep =~~= target);
        }
        i += 1;
    }
    proof {
        assert(kept.take(end as int) =~~= kept);
        assert(out.deep_view() =~~= spec_lines(v@));
    }
    out
}

/// A fresh record opened by a `worktree <path>` line: no branch yet (so a
/// block that never names one stays detached), no commit, not bare.
pub open spec fn spec_fresh_record(path: Seq<char>) -> WorktreeRec {
    WorktreeRec { path, branch: None, commit: Seq::empty(), is_bare: false }
}

/// The effect of one non-`worktree` line on the record being built.
pub open spec fn spec_apply_field(r: WorktreeRec, l: Seq<char>) -> WorktreeRec {
    if "branch refs/heads/"@.is_prefix_of(l) {
        WorktreeRec { branch: Some(l.skip("branch refs/heads/"@.len() as int)), ..r }
    } else if "branch "@.is_prefix_of(l) {
        WorktreeRec { branch: Some(l.skip("branch "@.len() as int)), ..r }
    } else if "HEAD "@.is_prefix_of(l) {
        WorktreeRec { commit: l.skip("HEAD "@.len() as int), ..r }
    } else if l == "bare"@ {
        WorktreeRec { is_bare: true, ..r }
    } else {
        r
    }
}

/// Parsing the lines of a listing with an optional block in progress:
/// a `worktree` line flushes the pending record and opens a new one, any
/// other line amends the pending record (lines before the first block are
/// ignored), and the end of input flushes what is left.
pub open spec fn spec_parse_lines(lines: Seq<Seq<char>>, cur: Option<WorktreeRec>) -> Seq<
    WorktreeRec,
>
    decreases lines.len(),
{
    if lines.len() == 0 {
        match cur {
            None => Seq::empty(),
            Some(r) => seq![r],
        }
    } else {
        let l = lines.first();
        let rest = lines.drop_first();
        if "worktree "@.is_prefix_of(l) {
            let fresh = spec_fresh_record(l.skip("worktree "@.len() as int));
            match cur {
                None => spec_parse_lines(rest, Some(fresh)),
                Some(r) => seq![r] + spec_parse_lines(rest, Some(fresh)),
            }
        } else {
            match cur {
                None => spec_parse_lines(rest, None),
                Some(r) => spec_parse_lines(rest, Some(spec_apply_field(r, l))),
            }
        }
    }
}

/// The records of a porcelain worktree listing, in order of appearance.
pub open spec fn spec_parse_worktrees(text: Seq<char>) -> Seq<WorktreeRec> {
    spec_parse_lines(spec_lines(text), None)
}

/// Applies one field line to the record being built.
fn apply_field(w: WorktreeInfo, line: &Vec<char>) -> (r: WorktreeInfo)
    ensures
        r@ == spec_apply_field(w@, line@),
{
    if has_prefix(line, "branch refs/heads/") {
        let pl = "branch refs/heads/".unicode_len();
        let rest = subvec_chars(line, pl, line.len());
        return WorktreeInfo { branch: Some(chars_to_string(&rest)), ..w };
    }
    if has_prefix(line, "branch ") {
        let pl = "branch ".unicode_len();
        let rest = subvec_chars(line, pl, line.len());
        return WorktreeInfo { branch: Some(chars_to_string(&rest)), ..w };
    }
    if has_prefix(line, "HEAD ") {
        let pl = "HEAD ".unicode_len();
        let rest = subvec_chars(line, pl, line.len());
        return WorktreeInfo { commit: chars_to_string(&rest), ..w };
    }
    if crate::strutil::str_eq_chars(line, "bare") {
        return WorktreeInfo { is_bare: true, ..w };
    }
    w
}

/// Parses a porcelain worktree listing into records, one per block, in the
/// order the blocks appear. This is the raw parse: bare entries and the
/// caller's own checkout are still present; `filter_worktrees` applies the
/// user-facing policy.
pub fn parse_worktrees(text: &str) -> (r: Vec<WorktreeInfo>)
    ensures
        r.deep_view() == spec_parse_worktrees(text@),
{
    let v = str_chars(text);
    let lines = split_lines(&v);
    let ghost ls = lines.deep_view();
    let mut out: Vec<WorktreeInfo> = Vec::new();
    let mut cur: Option<WorktreeInfo> = None;
    let mut i: usize = 0;
    proof {
        assert(ls.skip(0) =~~= ls);
        assert(out.deep_view() =~~= Seq::<WorktreeRec>::empty());
    }
    while i < lines.len()
        invariant
            i <= lines@.len(),
            lines.deep_view() == ls,
            out.deep_view() + spec_parse_lines(ls.skip(i as int), cur.deep_view())
                =~~= spec_parse_lines(ls, None),
        decreases lines.len() - i,
    {
        proof {
            assert(ls.skip(i as int).drop_first() =~~= ls.skip(i + 1));
            assert(lines@[i as int].deep_view() == ls[i as int]);
            assert(lines@[i as int]@ =~= ls[i as int]);
            assert(ls.skip(i as int).first() == ls[i as int]);
        }
        let ghost old_out = out.deep_view();
        let ghost old_cur = cur.deep_view();
        let line = &lines[i];
        if has_prefix(line, "worktree ") {
            let pl = "worktree ".unicode_len();
            let rest = subvec_chars(line, pl, line.len());
            let fresh = WorktreeInfo {
                path: chars_to_string(&rest),
                branch: None,
                commit: String::new(),
                is_bare: false,
            };
            proof {
                assert(fresh@ == spec_fresh_record(ls[i as int].skip("worktree "@.len() as int)));
            }
            let prev = cur;
            cur = Some(fresh);
            match prev {
                Some(w) => {
                    out.push(w);
                    proof {
                        assert(out.deep_view() =~~= old_out.push(w@));
                        assert(seq![w@] + spec_parse_lines(ls.skip(i + 1), cur.deep_view())
                            =~~= spec_parse_lines(ls.skip(i as int), old_cur));
                        assert(out.deep_view() + spec_parse_lines(ls.skip(i + 1), cur.deep_view())
                            =~~= old_out + (seq![w@] + spec_parse_lines(
                            ls.skip(i + 1),
                            cur.deep_view(),
                        )));
                    }
                },
                None => {},
            }
        } else {
            match cur {
                Some(w) => {
                    cur = Some(apply_field(w, line));
                },
                None => {},
            }
        }
        i += 1;
    }
    proof {
        assert(ls.skip(lines@.len() as int) =~~= Seq::<Seq<char>>::empty());
    }
    match cur {
        Some(w) => {
            let ghost old_out = out.deep_view();
            out.push(w);
            proof {
                assert(out.deep_view() =~~= old_out.push(w@));
                assert(out.deep_view() =~~= spec_parse_lines(ls, None));
            }
        },
        None => {
            proof {
                assert(out.deep_view() =~~= spec_parse_lines(ls, None));
            }
        },
    }
    out
}


/// The user-facing policy on parsed records: a bare entry never reaches a
/// selection list, nor does an entry whose path names the repository's own
/// metadata directory (a path ending in `.git`), nor the checkout the
/// caller is standing in.
pub open spec fn spec_keep_record(r: WorktreeRec, cur: Seq<char>) -> bool {
    !r.is_bare && !".git"@.is_suffix_of(r.path) && r.path != cur
}

/// The records that survive the user-facing policy, in their original
/// order.
pub open spec fn spec_filter_records(s: Seq<WorktreeRec>, cur: Seq<char>) -> Seq<WorktreeRec>
    decreases s.len(),
{
    if s.len() == 0 {
        Seq::empty()
    } else if spec_keep_record(s.last(), cur) {
        spec_filter_records(s.drop_last(), cur).push(s.last())
    } else {
        spec_filter_records(s.drop_last(), cur)
    }
}

/// The filtered view satisfies the user-facing invariant: no record of it
/// is bare, none has a path ending in `.git` (the repository's metadata
/// directory), and none has the caller's own path.
pub proof fn lemma_filter_excludes(s: Seq<WorktreeRec>, cur: Seq<char>)
    ensures
        forall|i: int|
            0 <= i < spec_filter_records(s, cur).len() ==> spec_keep_record(
                #[trigger] spec_filter_records(s, cur)[i],
                cur,
            ),
    decreases s.len(),
{
    if s.len() > 0 {
        lemma_filter_excludes(s.drop_last(), cur);
        let prev = spec_filter_records(s.drop_last(), cur);
        if spec_keep_record(s.last(), cur) {
            assert forall|i: int| 0 <= i < spec_filter_records(s, cur).len() implies spec_keep_record(
                #[trigger] spec_filter_records(s, cur)[i],
                cur,
            ) by {
                if i < prev.len() {
                    assert(spec_filter_records(s, cur)[i] == prev[i]);
                }
            }
        }
    }
}

/// A field-for-field copy of a record.
fn clone_record(w: &WorktreeInfo) -> (r: WorktreeInfo)
    ensures
        r@ == w@,
{
    WorktreeInfo {
        path: w.path.clone(),
        branch: match &w.branch {
            Some(b) => Some(b.clone()),
            None => None,
        },
        commit: w.commit.clone(),
        is_bare: w.is_bare,
    }
}

/// The filtered, user-facing view of a listing: bare records and records
/// whose path ends in `.git` (the repository's metadata directory) are
/// dropped, and so is the record whose path equals `current_dir`, so a
/// user is never offered the checkout they are standing in.
pub fn filter_worktrees(records: &Vec<WorktreeInfo>, current_dir: &str) -> (r: Vec<WorktreeInfo>)
    ensures
        r.deep_view() == spec_filter_records(records.deep_view(), current_dir@),
{
    let ghost rs = records.deep_view();
    let cur = String::from_str(current_dir);
    let mut out: Vec<WorktreeInfo> = Vec::new();
    let mut i: usize = 0;
    proof {
        assert(rs.take(0) =~= Seq::<WorktreeRec>::empty());
        assert(out.deep_view() =~~= spec_filter_records(rs.take(0), current_dir@));
    }
    while i < records.len()
        invariant
            i <= records@.len(),
            records.deep_view() == rs,
            cur@ == current_dir@,
            out.deep_view() =~~= spec_filter_records(rs.take(i as int), current_dir@),
        decreases records.len() - i,
    {
        proof {
            assert(rs.take(i + 1).drop_last() =~= rs.take(i as int));
            assert(records@[i as int].deep_view() == rs[i as int]);
            assert(rs.take(i + 1).last() == rs[i as int]);
        }
        let ghost old_deep = out.deep_view();
        let w = &records[i];
        let path_chars = str_chars(w.path.as_str());
        if !w.is_bare && !crate::strutil::has_suffix(&path_chars, ".git") && !w.path.eq(&cur) {
            let copy = clone_record(w);
            out.push(copy);
            proof {
                assert(out@.len() == old_deep.len() + 1);
                assert(out.deep_view() =~~= old_deep.push(w@));
                assert(out.deep_view() =~~= spec_filter_records(rs.take(i + 1), current_dir@));
            }
        } else {
            proof {
                assert(!spec_keep_record(rs[i as int], current_dir@));
                assert(out.deep_view() =~~= spec_filter_records(rs.take(i + 1), current_dir@));
            }
        }
        i += 1;
    }
    proof {
        assert(rs.take(records@.len() as int) =~= rs);
    }
    out
}

/// How many lines of a listing open a block.
pub open spec fn spec_count_worktree_lines(lines: Seq<Seq<char>>) -> nat
    decreases lines.len(),
{
    if lines.len() == 0 {
        0
    } else {
        (if "worktree "@.is_prefix_of(lines.first()) {
            1nat
        } else {
            0nat
        }) + spec_count_worktree_lines(lines.drop_first())
    }
}

proof fn lemma_parse_lines_count(lines: Seq<Seq<char>>, cur: Option<WorktreeRec>)
    ensures
        spec_parse_lines(lines, cur).len() == spec_count_worktree_lines(lines) + (match cur {
            Some(_) => 1nat,
            None => 0nat,
        }),
    decreases lines.len(),
{
    if lines.len() > 0 {
        let l = lines.first();
        let rest = lines.drop_first();
        if "worktree "@.is_prefix_of(l) {
            let fresh = spec_fresh_record(l.skip("worktree "@.len() as int));
            lemma_parse_lines_count(rest, Some(fresh));
        } else {
            match cur {
                None => lemma_parse_lines_count(rest, None),
                Some(r) => lemma_parse_lines_count(rest, Some(spec_apply_field(r, l))),
            }
        }
    }
}

/// A listing parses to exactly one record per block: the number of records
/// equals the number of `worktree` lines, whatever the other lines hold.
pub proof fn lemma_parse_record_count(text: Seq<char>)
    ensures
        spec_parse_worktrees(text).len() == spec_count_worktree_lines(spec_lines(text)),
{
    lemma_parse_lines_count(spec_lines(text), None);
}


/// `s` without its trailing newline characters.
pub open spec fn spec_strip_trailing_newlines(s: Seq<char>) -> Seq<char>
    decreases s.len(),
{
    if s.len() > 0 && s.last() == '\n' {
        spec_strip_trailing_newlines(s.drop_last())
    } else {
        s
    }
}

proof fn lemma_strip_trailing_newlines_take(s: Seq<char>, e: int)
    requires
        0 <= e <= s.len(),
        forall|j: int| e <= j < s.len() ==> s[j] == '\n',
        e > 0 ==> s[e - 1] != '\n',
    ensures
        spec_strip_trailing_newlines(s) == s.take(e),
    decreases s.len() - e,
{
    if e == s.len() {
        assert(s.take(e) =~= s);
    } else {
        lemma_strip_trailing_newlines_take(s.drop_last(), e);
        assert(s.drop_last().take(e) =~= s.take(e));
    }
}

/// The branch name the underlying tool quoted in its diagnostic: the text
/// between the first two single quotes, or `fallback` when there are not
/// two of them.
pub open spec fn spec_conflict_branch(stderr: Seq<char>, fallback: Seq<char>) -> Seq<char> {
    match spec_find_char(stderr, '\'') {
        None => fallback,
        Some(i) => match spec_find_char(stderr.skip(i + 1), '\'') {
            None => fallback,
            Some(d) => stderr.subrange(i + 1, i + 1 + d),
        },
    }
}

/// The location the diagnostic named after its first `" at "`, stripped of
/// trailing newlines and kept with the `" at "` marker; empty when the
/// diagnostic named none.
pub open spec fn spec_conflict_location(stderr: Seq<char>) -> Seq<char> {
    match spec_find_sub(stderr, " at "@) {
        None => Seq::empty(),
        Some(i) => " at "@ + spec_strip_trailing_newlines(
            stderr.skip(i + " at "@.len() as int),
        ),
    }
}

/// The message shown when adding a worktree failed. The one diagnostic
/// recognized specially is the tool reporting that the branch is already
/// checked out elsewhere: the conflicting branch and location are
/// extracted from the text and reworded into an actionable suggestion.
/// This string matching is best effort against the tool's current wording;
/// any other diagnostic is surfaced verbatim.
pub open spec fn spec_translate_add_error(stderr: Seq<char>, branch: Seq<char>) -> Seq<char> {
    if spec_contains_seq(stderr, "is already checked out"@) {
        let b = spec_conflict_branch(stderr, branch);
        let loc = spec_conflict_location(stderr);
        "Branch '"@ + b + "' is already in use by another worktree"@ + loc
            + "\n\nSuggestions:\n- Run the add command again and choose to create a new branch based on '"@
            + b
            + "'\n- List the active worktrees and remove the conflicting one if it is no longer needed"@
    } else {
        "Failed to add worktree: "@ + stderr
    }
}

/// Turns the diagnostic of a failed worktree addition into the message to
/// surface, as `spec_translate_add_error` describes.
pub fn translate_add_worktree_error(stderr: &str, branch: &str) -> (r: String)
    ensures
        r@ == spec_translate_add_error(stderr@, branch@),
{
    let v = str_chars(stderr);
    if !contains_str(&v, "is already checked out") {
        return String::from_str("Failed to add worktree: ").concat(stderr);
    }
    let b: Vec<char> = match find_first(&v, '\'') {
        None => {
            proof {
                lemma_find_char_none(v@, '\'');
            }
            str_chars(branch)
        },
        Some(i) => {
            proof {
                lemma_find_char_some(v@, '\'', i as int);
            }
            let tail = subvec_chars(&v, i + 1, v.len());
            proof {
                assert(tail@ =~= v@.skip(i + 1));
            }
            match find_first(&tail, '\'') {
                None => {
                    proof {
                        lemma_find_char_none(tail@, '\'');
                    }
                    str_chars(branch)
                },
                Some(j) => {
                    proof {
                        lemma_find_char_some(tail@, '\'', j as int);
                    }
                    let quoted = subvec_chars(&v, i + 1, i + 1 + j);
                    proof {
                        assert(quoted@ =~= v@.subrange(i + 1, i + 1 + j));
                    }
                    quoted
                },
            }
        },
    };
    let loc: Vec<char> = match find_str(&v, " at ") {
        None => Vec::new(),
        Some(i) => {
            let pl = " at ".unicode_len();
            let rest = subvec_chars(&v, i + pl, v.len());
            proof {
                assert(rest@ =~= v@.skip(i + " at "@.len() as int));
            }
            let mut e: usize = rest.len();
            while e > 0 && rest[e - 1] == '\n'
                invariant
                    e <= rest@.len(),
                    forall|j: int| e <= j < rest@.len() ==> rest@[j] == '\n',
                decreases e,
            {
                e -= 1;
            }
            proof {
                lemma_strip_trailing_newlines_take(rest@, e as int);
            }
            let body = subvec_chars(&rest, 0, e);
            let mut lv = str_chars(" at ");
            append_chars(&mut lv, &body);
            proof {
                assert(lv@ == " at "@ + spec_strip_trailing_newlines(
                    v@.skip(i + " at "@.len() as int),
                ));
            }
            lv
        },
    };
    let mut msg = String::from_str("Branch '");
    msg.append(chars_to_string(&b).as_str());
    msg.append("' is already in use by another worktree");
    msg.append(chars_to_string(&loc).as_str());
    msg.append(
        "\n\nSuggestions:\n- Run the add command again and choose to create a new branch based on '",
    );
    msg.append(chars_to_string(&b).as_str());
    msg.append(
        "'\n- List the active worktrees and remove the conflicting one if it is no longer needed",
    );
    proof {
        assert(loc@ =~= Seq::<char>::empty() ==> loc@ == spec_conflict_location(stderr@));
        assert(msg@ == spec_translate_add_error(stderr@, branch@));
    }
    msg
}


/// The argument vector that lists all worktrees in porcelain form.
pub open spec fn spec_worktree_list_args() -> Seq<Seq<char>> {
    seq!["worktree"@, "list"@, "--porcelain"@]
}

/// Builds the argument vector whose output `parse_worktrees` consumes.
pub fn worktree_list_args() -> (r: Vec<String>)
    ensures
        r.deep_view() == spec_worktree_list_args(),
{
    let mut out: Vec<String> = Vec::new();
    out.push(String::from_str("worktree"));
    out.push(String::from_str("list"));
    out.push(String::from_str("--porcelain"));
    proof {
        assert(out.deep_view() =~~= spec_worktree_list_args());
    }
    out
}

/// The argument vector that creates a worktree at `path`: with a new
/// branch (optionally started from `base`), or checking out an existing
/// one.
pub open spec fn spec_worktree_add_args(
    path: Seq<char>,
    branch: Seq<char>,
    mode: BranchMode,
    base: Option<Seq<char>>,
) -> Seq<Seq<char>> {
    match mode {
        BranchMode::NewBranch => {
            let head = seq!["worktree"@, "add"@, "-b"@, branch, path];
            match base {
                Some(b) => head.push(b),
                None => head,
            }
        },
        BranchMode::ExistingBranch => seq!["worktree"@, "add"@, path, branch],
    }
}

/// Builds the argument vector that creates a worktree, as
/// `spec_worktree_add_args` describes. Callers must have validated
/// `branch` and `path` first; the builder itself only arranges them.
pub fn worktree_add_args(
    worktree_path: &str,
    branch: &str,
    branch_mode: BranchMode,
    base_branch: Option<&String>,
) -> (r: Vec<String>)
    ensures
        r.deep_view() == spec_worktree_add_args(
            worktree_path@,
            branch@,
            branch_mode,
            base_branch.deep_view(),
        ),
{
    let mut out: Vec<String> = Vec::new();
    out.push(String::from_str("worktree"));
    out.push(String::from_str("add"));
    match branch_mode {
        BranchMode::NewBranch => {
            out.push(String::from_str("-b"));
            out.push(String::from_str(branch));
            out.push(String::from_str(worktree_path));
            match base_branch {
                Some(b) => {
                    out.push(b.clone());
                },
                None => {},
            }
        },
        BranchMode::ExistingBranch => {
            out.push(String::from_str(worktree_path));
            out.push(String::from_str(branch));
        },
    }
    proof {
        assert(out.deep_view() =~~= spec_worktree_add_args(
            worktree_path@,
            branch@,
            branch_mode,
            base_branch.deep_view(),
        ));
    }
    out
}

/// The argument vector that removes the worktree at `path`.
pub open spec fn spec_worktree_remove_args(path: Seq<char>) -> Seq<Seq<char>> {
    seq!["worktree"@, "remove"@, path]
}

/// Builds the argument vector that removes a worktree.
pub fn worktree_remove_args(worktree_path: &str) -> (r: Vec<String>)
    ensures
        r.deep_view() == spec_worktree_remove_args(worktree_path@),
{
    let mut out: Vec<String> = Vec::new();
    out.push(String::from_str("worktree"));
    out.push(String::from_str("remove"));
    out.push(String::from_str(worktree_path));
    proof {
        assert(out.deep_view() =~~= spec_worktree_remove_args(worktree_path@));
    }
    out
}


/// The paths named by the `worktree` header lines, in order.
pub open spec fn spec_worktree_line_paths(lines: Seq<Seq<char>>) -> Seq<Seq<char>>
    decreases lines.len(),
{
    if lines.len() == 0 {
        Seq::empty()
    } else {
        let rest = spec_worktree_line_paths(lines.drop_first());
        if "worktree "@.is_prefix_of(lines.first()) {
            seq![lines.first().skip("worktree "@.len() as int)] + rest
        } else {
            rest
        }
    }
}

/// The paths of a sequence of records, in order.
pub open spec fn spec_record_paths(s: Seq<WorktreeRec>) -> Seq<Seq<char>> {
    Seq::new(s.len(), |i: int| s[i].path)
}

proof fn lemma_parse_lines_paths(lines: Seq<Seq<char>>, cur: Option<WorktreeRec>)
    ensures
        spec_record_paths(spec_parse_lines(lines, cur)) == (match cur {
            Some(r) => seq![r.path],
            None => Seq::<Seq<char>>::empty(),
        }) + spec_worktree_line_paths(lines),
    decreases lines.len(),
{
    let pending: Seq<Seq<char>> = match cur {
        Some(r) => seq![r.path],
        None => Seq::empty(),
    };
    if lines.len() == 0 {
        assert(spec_record_paths(spec_parse_lines(lines, cur)) =~~= pending
            + spec_worktree_line_paths(lines));
    } else {
        let l = lines.first();
        let rest = lines.drop_first();
        if "worktree "@.is_prefix_of(l) {
            let fresh = spec_fresh_record(l.skip("worktree "@.len() as int));
            lemma_parse_lines_paths(rest, Some(fresh));
            match cur {
                None => {
                    assert(spec_record_paths(spec_parse_lines(lines, cur)) =~~= pending
                        + spec_worktree_line_paths(lines));
                },
                Some(r) => {
                    let inner = spec_parse_lines(rest, Some(fresh));
                    assert(spec_record_paths(seq![r] + inner) =~~= seq![r.path]
                        + spec_record_paths(inner));
                    assert(spec_record_paths(spec_parse_lines(lines, cur)) =~~= pending
                        + spec_worktree_line_paths(lines));
                },
            }
        } else {
            match cur {
                None => {
                    lemma_parse_lines_paths(rest, None);
                },
                Some(r) => {
                    lemma_parse_lines_paths(rest, Some(spec_apply_field(r, l)));
                    assert(spec_apply_field(r, l).path == r.path);
                },
            }
            assert(spec_record_paths(spec_parse_lines(lines, cur)) =~~= pending
                + spec_worktree_line_paths(lines));
        }
    }
}

/// No two elements of `s` are equal.
pub open spec fn spec_distinct<A>(s: Seq<A>) -> bool {
    forall|i: int, j: int| 0 <= i < j < s.len() ==> #[trigger] s[i] != #[trigger] s[j]
}

/// The records of a listing take their paths from its `worktree` header
/// lines, one for one and in order; in particular, when the headers name
/// distinct paths — as one listing produced by the underlying tool always
/// does — the parsed records' paths are unique.
pub proof fn lemma_parse_paths_match_headers(text: Seq<char>)
    ensures
        spec_record_paths(spec_parse_worktrees(text)) == spec_worktree_line_paths(
            spec_lines(text),
        ),
        spec_distinct(spec_worktree_line_paths(spec_lines(text))) ==> spec_distinct(
            spec_record_paths(spec_parse_worktrees(text)),
        ),
{
    lemma_parse_lines_paths(spec_lines(text), None);
    assert(Seq::<Seq<char>>::empty() + spec_worktree_line_paths(spec_lines(text))
        =~~= spec_worktree_line_paths(spec_lines(text)));
}


/// No line of the listing names a branch.
pub open spec fn spec_no_branch_lines(lines: Seq<Seq<char>>) -> bool {
    forall|k: int| 0 <= k < lines.len() ==> !"branch "@.is_prefix_of(#[trigger] lines[k])
}

proof fn lemma_parse_lines_detached(lines: Seq<Seq<char>>, cur: Option<WorktreeRec>)
    requires
        spec_no_branch_lines(lines),
        cur matches Some(r) ==> r.branch is None,
    ensures
        forall|i: int|
            0 <= i < spec_parse_lines(lines, cur).len() ==> #[trigger] spec_parse_lines(
                lines,
                cur,
            )[i].branch is None,
    decreases lines.len(),
{
    if lines.len() > 0 {
        let l = lines.first();
        let rest = lines.drop_first();
        assert forall|k: int| 0 <= k < rest.len() implies !"branch "@.is_prefix_of(
            #[trigger] rest[k],
        ) by {
            assert(rest[k] == lines[k + 1]);
        }
        assert(!"branch "@.is_prefix_of(l));
        if "worktree "@.is_prefix_of(l) {
            let fresh = spec_fresh_record(l.skip("worktree "@.len() as int));
            lemma_parse_lines_detached(rest, Some(fresh));
        } else {
            match cur {
                None => lemma_parse_lines_detached(rest, None),
                Some(r) => {
                    assert(spec_apply_field(r, l).branch == r.branch) by {
                        assert(!"branch refs/heads/"@.is_prefix_of(l)) by {
                            if "branch refs/heads/"@.is_prefix_of(l) {
                                assert("branch "@.is_prefix_of("branch refs/heads/"@)) by {
                                    reveal_strlit("branch ");
                                    reveal_strlit("branch refs/heads/");
                                    assert("branch refs/heads/"@.take("branch "@.len() as int)
                                        =~= "branch "@);
                                }
                                assert(l.take("branch refs/heads/"@.len() as int).take(
                                    "branch "@.len() as int,
                                ) =~= l.take("branch "@.len() as int));
                            }
                        }
                    }
                    lemma_parse_lines_detached(rest, Some(spec_apply_field(r, l)));
                },
            }
        }
    }
}

/// A listing in which no line names a branch parses to detached records
/// only: the absence of a branch is the explicit detached state, never a
/// branch with an empty name.
pub proof fn lemma_parse_detached_without_branch_lines(text: Seq<char>)
    requires
        spec_no_branch_lines(spec_lines(text)),
    ensures
        forall|i: int|
            0 <= i < spec_parse_worktrees(text).len() ==> #[trigger] spec_parse_worktrees(
                text,
            )[i].branch is None,
{
    lemma_parse_lines_detached(spec_lines(text), None);
}


proof fn lemma_header_line(p: Seq<char>)
    ensures
        "worktree "@.is_prefix_of("worktree "@ + p),
        ("worktree "@ + p).skip("worktree "@.len() as int) == p,
{
    assert(("worktree "@ + p).take("worktree "@.len() as int) =~= "worktree "@);
    assert(("worktree "@ + p).skip("worktree "@.len() as int) =~= p);
}

proof fn lemma_apply_head_line(r: WorktreeRec, c: Seq<char>)
    ensures
        !"worktree "@.is_prefix_of("HEAD "@ + c),
        spec_apply_field(r, "HEAD "@ + c) == (WorktreeRec { commit: c, ..r }),
{
    reveal_strlit("worktree ");
    reveal_strlit("HEAD ");
    reveal_strlit("branch ");
    reveal_strlit("branch refs/heads/");
    reveal_strlit("bare");
    let l = "HEAD "@ + c;
    assert(l[0] == 'H');
    if "worktree "@.is_prefix_of(l) {
        assert(l.take("worktree "@.len() as int)[0] == l[0]);
    }
    if "branch refs/heads/"@.is_prefix_of(l) {
        assert(l.take("branch refs/heads/"@.len() as int)[0] == l[0]);
    }
    if "branch "@.is_prefix_of(l) {
        assert(l.take("branch "@.len() as int)[0] == l[0]);
    }
    assert(l != "bare"@);
    assert("HEAD "@.is_prefix_of(l)) by {
        assert(l.take("HEAD "@.len() as int) =~= "HEAD "@);
    }
    assert(l.skip("HEAD "@.len() as int) =~= c);
}

proof fn lemma_apply_branch_line(r: WorktreeRec, b: Seq<char>)
    ensures
        !"worktree "@.is_prefix_of("branch refs/heads/"@ + b),
        spec_apply_field(r, "branch refs/heads/"@ + b) == (WorktreeRec { branch: Some(b), ..r }),
{
    reveal_strlit("worktree ");
    reveal_strlit("branch refs/heads/");
    let l = "branch refs/heads/"@ + b;
    assert(l[0] == 'b');
    if "worktree "@.is_prefix_of(l) {
        assert(l.take("worktree "@.len() as int)[0] == l[0]);
    }
    assert("branch refs/heads/"@.is_prefix_of(l)) by {
        assert(l.take("branch refs/heads/"@.len() as int) =~= "branch refs/heads/"@);
    }
    assert(l.skip("branch refs/heads/"@.len() as int) =~= b);
}

proof fn lemma_apply_bare_line(r: WorktreeRec)
    ensures
        !"worktree "@.is_prefix_of("bare"@),
        spec_apply_field(r, "bare"@) == (WorktreeRec { is_bare: true, ..r }),
{
    reveal_strlit("worktree ");
    reveal_strlit("HEAD ");
    reveal_strlit("branch ");
    reveal_strlit("branch refs/heads/");
    reveal_strlit("bare");
    let l = "bare"@;
    assert(l.len() == 4);
    if "worktree "@.is_prefix_of(l) {
        assert("worktree "@.len() <= l.len());
    }
    if "branch refs/heads/"@.is_prefix_of(l) {
        assert("branch refs/heads/"@.len() <= l.len());
    }
    if "branch "@.is_prefix_of(l) {
        assert("branch "@.len() <= l.len());
    }
    if "HEAD "@.is_prefix_of(l) {
        assert("HEAD "@.len() <= l.len());
    }
}

/// Parsing splits at block boundaries: when a tail of the listing begins
/// with a `worktree` header (or is empty), the records of the whole are
/// the records of the head followed by the records of the tail.
proof fn lemma_parse_append(l1: Seq<Seq<char>>, l2: Seq<Seq<char>>, cur: Option<WorktreeRec>)
    requires
        l2.len() > 0 ==> "worktree "@.is_prefix_of(l2.first()),
    ensures
        spec_parse_lines(l1 + l2, cur) == spec_parse_lines(l1, cur) + spec_parse_lines(l2, None),
    decreases l1.len(),
{
    if l1.len() == 0 {
        assert(l1 + l2 =~~= l2);
        if l2.len() == 0 {
            assert(spec_parse_lines(l1, cur) + spec_parse_lines(l2, None) =~~= spec_parse_lines(
                l2,
                cur,
            ));
        } else {
            let fresh = spec_fresh_record(l2.first().skip("worktree "@.len() as int));
            assert(spec_parse_lines(l2, None) == spec_parse_lines(l2.drop_first(), Some(fresh)));
            assert(spec_parse_lines(l1, cur) + spec_parse_lines(l2, None) =~~= spec_parse_lines(
                l2,
                cur,
            ));
        }
    } else {
        let l = l1.first();
        assert((l1 + l2).first() == l);
        assert((l1 + l2).drop_first() =~~= l1.drop_first() + l2);
        if "worktree "@.is_prefix_of(l) {
            let fresh = spec_fresh_record(l.skip("worktree "@.len() as int));
            lemma_parse_append(l1.drop_first(), l2, Some(fresh));
            assert(spec_parse_lines(l1 + l2, cur) =~~= spec_parse_lines(l1, cur)
                + spec_parse_lines(l2, None));
        } else {
            match cur {
                None => {
                    lemma_parse_append(l1.drop_first(), l2, None);
                },
                Some(r) => {
                    lemma_parse_append(l1.drop_first(), l2, Some(spec_apply_field(r, l)));
                },
            }
            assert(spec_parse_lines(l1 + l2, cur) =~~= spec_parse_lines(l1, cur)
                + spec_parse_lines(l2, None));
        }
    }
}


/// The canonical shape of one well-formed block of the listing: a header
/// naming the path, a `HEAD` line naming the commit, then optionally a
/// branch line and a `bare` marker.
pub ghost struct BlockDesc {
    pub path: Seq<char>,
    pub commit: Seq<char>,
    pub branch: Option<Seq<char>>,
    pub bare: bool,
}

/// The lines such a block consists of.
pub open spec fn spec_block_lines(d: BlockDesc) -> Seq<Seq<char>> {
    let head = seq!["worktree "@ + d.path, "HEAD "@ + d.commit];
    let with_branch = match d.branch {
        Some(b) => head.push("branch refs/heads/"@ + b),
        None => head,
    };
    if d.bare {
        with_branch.push("bare"@)
    } else {
        with_branch
    }
}

/// The record such a block describes: every field comes from one of its
/// lines, and a block without a branch line describes a detached record.
pub open spec fn spec_block_record(d: BlockDesc) -> WorktreeRec {
    WorktreeRec { path: d.path, branch: d.branch, commit: d.commit, is_bare: d.bare }
}

/// The lines of a whole listing made of such blocks, one after the other.
pub open spec fn spec_blocks_lines(ds: Seq<BlockDesc>) -> Seq<Seq<char>>
    decreases ds.len(),
{
    if ds.len() == 0 {
        Seq::empty()
    } else {
        spec_block_lines(ds.first()) + spec_blocks_lines(ds.drop_first())
    }
}

/// The records those blocks describe, in order.
pub open spec fn spec_block_records(ds: Seq<BlockDesc>) -> Seq<WorktreeRec> {
    Seq::new(ds.len(), |i: int| spec_block_record(ds[i]))
}

proof fn lemma_parse_step(lines: Seq<Seq<char>>, r: WorktreeRec)
    requires
        lines.len() > 0,
        !"worktree "@.is_prefix_of(lines.first()),
    ensures
        spec_parse_lines(lines, Some(r)) == spec_parse_lines(
            lines.drop_first(),
            Some(spec_apply_field(r, lines.first())),
        ),
{
}

proof fn lemma_parse_one_block(d: BlockDesc)
    ensures
        spec_parse_lines(spec_block_lines(d), None) == seq![spec_block_record(d)],
{
    let lines = spec_block_lines(d);
    let hdr = "worktree "@ + d.path;
    let head_line = "HEAD "@ + d.commit;
    lemma_header_line(d.path);
    let fresh = spec_fresh_record(d.path);
    let after_head = WorktreeRec { commit: d.commit, ..fresh };
    lemma_apply_head_line(fresh, d.commit);
    match d.branch {
        None => {
            if d.bare {
                lemma_apply_bare_line(after_head);
                let after_bare = WorktreeRec { is_bare: true, ..after_head };
                assert(lines =~~= seq![hdr, head_line, "bare"@]);
                let t1 = lines.drop_first();
                let t2 = t1.drop_first();
                let t3 = t2.drop_first();
                assert(t1 =~~= seq![head_line, "bare"@]);
                assert(t2 =~~= seq!["bare"@]);
                assert(t3 =~~= Seq::<Seq<char>>::empty());
                assert(spec_fresh_record(lines.first().skip("worktree "@.len() as int))
                    == fresh);
                assert(spec_parse_lines(lines, None) == spec_parse_lines(t1, Some(fresh)));
                lemma_parse_step(t1, fresh);
                assert(spec_parse_lines(t1, Some(fresh)) == spec_parse_lines(
                    t2,
                    Some(after_head),
                ));
                lemma_parse_step(t2, after_head);
                assert(spec_parse_lines(t2, Some(after_head)) == spec_parse_lines(
                    t3,
                    Some(after_bare),
                ));
                assert(t3.len() == 0);
                assert(spec_parse_lines(t3, Some(after_bare)) == seq![after_bare]);
                assert(after_bare == spec_block_record(d));
            } else {
                assert(lines =~~= seq![hdr, head_line]);
                let t1 = lines.drop_first();
                let t2 = t1.drop_first();
                assert(t1 =~~= seq![head_line]);
                assert(t2 =~~= Seq::<Seq<char>>::empty());
                assert(spec_fresh_record(lines.first().skip("worktree "@.len() as int))
                    == fresh);
                assert(spec_parse_lines(lines, None) == spec_parse_lines(t1, Some(fresh)));
                lemma_parse_step(t1, fresh);
                assert(spec_parse_lines(t1, Some(fresh)) == spec_parse_lines(
                    t2,
                    Some(after_head),
                ));
                assert(t2.len() == 0);
                assert(spec_parse_lines(t2, Some(after_head)) == seq![after_head]);
                assert(after_head == spec_block_record(d));
            }
        },
        Some(b) => {
            let branch_line = "branch refs/heads/"@ + b;
            lemma_apply_branch_line(after_head, b);
            let after_branch = WorktreeRec { branch: Some(b), ..after_head };
            if d.bare {
                lemma_apply_bare_line(after_branch);
                let after_bare = WorktreeRec { is_bare: true, ..after_branch };
                assert(lines =~~= seq![hdr, head_line, branch_line, "bare"@]);
                let t1 = lines.drop_first();
                let t2 = t1.drop_first();
                let t3 = t2.drop_first();
                let t4 = t3.drop_first();
                assert(t1 =~~= seq![head_line, branch_line, "bare"@]);
                assert(t2 =~~= seq![branch_line, "bare"@]);
                assert(t3 =~~= seq!["bare"@]);
                assert(t4 =~~= Seq::<Seq<char>>::empty());
                assert(spec_fresh_record(lines.first().skip("worktree "@.len() as int))
                    == fresh);
                assert(spec_parse_lines(lines, None) == spec_parse_lines(t1, Some(fresh)));
                lemma_parse_step(t1, fresh);
                assert(spec_parse_lines(t1, Some(fresh)) == spec_parse_lines(
                    t2,
                    Some(after_head),
                ));
                lemma_parse_step(t2, after_head);
                assert(spec_parse_lines(t2, Some(after_head)) == spec_parse_lines(
                    t3,
                    Some(after_branch),
                ));
                lemma_parse_step(t3, after_branch);
                assert(spec_parse_lines(t3, Some(after_branch)) == spec_parse_lines(
                    t4,
                    Some(after_bare),
                ));
                assert(t4.len() == 0);
                assert(spec_parse_lines(t4, Some(after_bare)) == seq![after_bare]);
                assert(after_bare == spec_block_record(d));
            } else {
                assert(lines =~~= seq![hdr, head_line, branch_line]);
                let t1 = lines.drop_first();
                let t2 = t1.drop_first();
                let t3 = t2.drop_first();
                assert(t1 =~~= seq![head_line, branch_line]);
                assert(t2 =~~= seq![branch_line]);
                assert(t3 =~~= Seq::<Seq<char>>::empty());
                assert(spec_fresh_record(lines.first().skip("worktree "@.len() as int))
                    == fresh);
                assert(spec_parse_lines(lines, None) == spec_parse_lines(t1, Some(fresh)));
                lemma_parse_step(t1, fresh);
                assert(spec_parse_lines(t1, Some(fresh)) == spec_parse_lines(
                    t2,
                    Some(after_head),
                ));
                lemma_parse_step(t2, after_head);
                assert(spec_parse_lines(t2, Some(after_head)) == spec_parse_lines(
                    t3,
                    Some(after_branch),
                ));
                assert(t3.len() == 0);
                assert(spec_parse_lines(t3, Some(after_branch)) == seq![after_branch]);
                assert(after_branch == spec_block_record(d));
            }
        },
    }
}

/// A listing made of well-formed blocks parses to exactly one record per
/// block, each field taken from that block's own lines: the path from its
/// header, the commit from its `HEAD` line, the branch from its branch
/// line — and, when the block has none, the record is detached — and the
/// bare flag from its `bare` marker, so a bare block's record is present
/// in this raw parse.
pub proof fn lemma_parse_well_formed_blocks(ds: Seq<BlockDesc>)
    ensures
        spec_parse_lines(spec_blocks_lines(ds), None) == spec_block_records(ds),
    decreases ds.len(),
{
    if ds.len() == 0 {
        assert(spec_parse_lines(spec_blocks_lines(ds), None) =~~= spec_block_records(ds));
    } else {
        let first = ds.first();
        let rest = ds.drop_first();
        lemma_parse_one_block(first);
        lemma_parse_well_formed_blocks(rest);
        if rest.len() > 0 {
            lemma_header_line(rest.first().path);
            assert(spec_blocks_lines(rest).first() == "worktree "@ + rest.first().path);
        }
        lemma_parse_append(spec_block_lines(first), spec_blocks_lines(rest), None);
        assert(spec_parse_lines(spec_blocks_lines(ds), None) =~~= spec_block_records(ds));
    }
}


/// The text whose lines are exactly `lines`: each line followed by one
/// newline terminator.
pub open spec fn spec_join_lines(lines: Seq<Seq<char>>) -> Seq<char>
    decreases lines.len(),
{
    if lines.len() == 0 {
        Seq::empty()
    } else {
        spec_join_lines(lines.drop_last()) + lines.last() + seq!['\n']
    }
}

/// No line of `lines` holds a newline or carriage return of its own.
pub open spec fn spec_clean_lines(lines: Seq<Seq<char>>) -> bool {
    forall|i: int, j: int|
        0 <= i < lines.len() && 0 <= j < lines[i].len() ==> #[trigger] lines[i][j] != '\n'
            && lines[i][j] != '\r'
}

proof fn lemma_split_of_joined(lines: Seq<Seq<char>>)
    requires
        spec_clean_lines(lines),
    ensures
        spec_split(spec_join_lines(lines), '\n') == lines.push(Seq::<char>::empty()),
    decreases lines.len(),
{
    if lines.len() == 0 {
        assert(spec_join_lines(lines).len() == 0);
        assert(seq![Seq::<char>::empty()] =~~= lines.push(Seq::<char>::empty()));
    } else {
        let l0 = lines.drop_last();
        let w = lines.last();
        assert(spec_clean_lines(l0)) by {
            assert(forall|i: int, j: int|
                0 <= i < l0.len() && 0 <= j < l0[i].len() ==> #[trigger] l0[i][j]
                    == lines[i][j]);
        }
        lemma_split_of_joined(l0);
        let base = spec_split(spec_join_lines(l0), '\n');
        assert(forall|j: int| 0 <= j < w.len() ==> w[j] != '\n') by {
            assert(forall|j: int| 0 <= j < w.len() ==> #[trigger] w[j] == lines[lines.len()
                - 1][j]);
        }
        lemma_split_append_clean(spec_join_lines(l0), w, '\n');
        let mid = spec_split(spec_join_lines(l0) + w, '\n');
        assert(base == l0.push(Seq::<char>::empty()));
        assert(base.last() == Seq::<char>::empty());
        assert(Seq::<char>::empty() + w =~= w);
        assert(mid =~~= l0.push(w));
        lemma_split_append_sep(spec_join_lines(l0) + w, '\n');
        assert(spec_join_lines(lines) =~= (spec_join_lines(l0) + w).push('\n'));
        assert(spec_split(spec_join_lines(lines), '\n') =~~= lines.push(Seq::<char>::empty()));
    }
}

/// Joining lines with newline terminators and splitting the text back into
/// lines is the identity, as long as no line carries a newline or carriage
/// return of its own.
pub proof fn lemma_lines_of_joined(lines: Seq<Seq<char>>)
    requires
        spec_clean_lines(lines),
    ensures
        spec_lines(spec_join_lines(lines)) == lines,
{
    lemma_split_of_joined(lines);
    let parts = spec_split(spec_join_lines(lines), '\n');
    assert(parts.last().len() == 0);
    assert(parts.drop_last() =~~= lines);
    assert forall|i: int| 0 <= i < lines.len() implies spec_strip_cr(#[trigger] lines[i])
        == lines[i] by {
        if lines[i].len() > 0 {
            assert(lines[i][lines[i].len() - 1] != '\r');
        }
    }
    assert(spec_strip_cr_all(lines) =~~= lines);
}

/// The whole pipeline on a listing built from well-formed blocks: the text
/// whose lines are those blocks' lines parses to exactly one record per
/// block, each field taken from its own block. The proviso only rules out
/// fields that would break any line-oriented format: no path, commit or
/// branch name may carry a newline or carriage return.
pub proof fn lemma_parse_worktrees_of_blocks(ds: Seq<BlockDesc>)
    requires
        spec_clean_lines(spec_blocks_lines(ds)),
    ensures
        spec_parse_worktrees(spec_join_lines(spec_blocks_lines(ds))) == spec_block_records(ds),
{
    lemma_lines_of_joined(spec_blocks_lines(ds));
    lemma_parse_well_formed_blocks(ds);
}

} // verus!
