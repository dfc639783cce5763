//! Validation of branch names and filesystem paths.
//!
//! Both validators are pure: they either accept the candidate string or
//! reject it with a `ValidationError` carrying a human-readable reason.
//! They are the single source of truth for what counts as a safe name; any
//! name or path that reaches path generation or the underlying tool must
//! have passed them first.

use crate::error::{WtError, WtResult};
use crate::strutil::{
    contains_str, has_prefix, has_suffix, is_control_char, is_whitespace_char, spec_contains_seq,
    spec_is_control, spec_is_whitespace, split_chars, spec_split, str_chars, str_eq_chars,
    subvec_chars, chars_to_string,
};
use vstd::prelude::*;

verus! {

/// Characters that may never occur anywhere in a branch name.
pub open spec fn spec_is_forbidden_branch_char(c: char) -> bool {
    c == '~' || c == '^' || c == ':' || c == '?' || c == '*' || c == '[' || c == '\\' || c == ' '
        || spec_is_control(c)
}

/// Decides `spec_is_forbidden_branch_char`.
fn is_forbidden_branch_char(c: char) -> (r: bool)
    ensures
        r == spec_is_forbidden_branch_char(c),
{
    c == '~' || c == '^' || c == ':' || c == '?' || c == '*' || c == '[' || c == '\\' || c == ' '
        || is_control_char(c)
}

/// The branch-name rule set: non-empty, no white space at either end, no
/// forbidden character, no leading/trailing `/` or `.`, no `//`, not ending
/// in `.lock`, not the pseudo-name `HEAD`, and not a raw `refs/` path.
pub open spec fn spec_valid_branch_name(s: Seq<char>) -> bool {
    &&& s.len() > 0
    &&& !spec_is_whitespace(s[0])
    &&& !spec_is_whitespace(s.last())
    &&& s[0] != '/'
    &&& s.last() != '/'
    &&& !spec_contains_seq(s, "//"@)
    &&& s[0] != '.'
    &&& s.last() != '.'
    &&& !".lock"@.is_suffix_of(s)
    &&& forall|i: int| 0 <= i < s.len() ==> !spec_is_forbidden_branch_char(s[i])
    &&& s != "HEAD"@
    &&& !"refs/"@.is_prefix_of(s)
}

/// Checks a candidate branch name against the branch-name rule set.
///
/// Returns `Ok(())` exactly when the name satisfies every rule; otherwise a
/// `ValidationError` naming the first rule the candidate breaks.
pub fn validate_branch_name(name: &str) -> (r: WtResult<()>)
    ensures
        r is Ok <==> spec_valid_branch_name(name@),
        r matches Err(e) ==> e is ValidationError,
{
    let v = str_chars(name);
    let n = v.len();
    if n == 0 {
        return Err(WtError::ValidationError(String::from_str("Branch name cannot be empty")));
    }
    if is_whitespace_char(v[0]) || is_whitespace_char(v[n - 1]) {
        return Err(
            WtError::ValidationError(
                String::from_str("Branch name cannot have leading or trailing whitespace"),
            ),
        );
    }
    if v[0] == '/' || v[n - 1] == '/' {
        return Err(
            WtError::ValidationError(
                String::from_str("Branch name cannot start or end with '/'"),
            ),
        );
    }
    if contains_str(&v, "//") {
        return Err(
            WtError::ValidationError(
                String::from_str("Branch name cannot contain consecutive slashes"),
            ),
        );
    }
    if v[0] == '.' || v[n - 1] == '.' {
        return Err(
            WtError::ValidationError(
                String::from_str("Branch name cannot start or end with '.'"),
            ),
        );
    }
    if has_suffix(&v, ".lock") {
        return Err(
            WtError::ValidationError(String::from_str("Branch name cannot end with '.lock'")),
        );
    }
    let mut i: usize = 0;
    while i < n
        invariant
            i <= n == v@.len(),
            v@ == name@,
            forall|j: int| 0 <= j < i ==> !spec_is_forbidden_branch_char(v@[j]),
        decreases n - i,
    {
        if is_forbidden_branch_char(v[i]) {
            assert(!spec_valid_branch_name(name@));
            return Err(
                WtError::ValidationError(
                    String::from_str(
                        "Branch name cannot contain spaces, control characters, or any of ~ ^ : ? * [ \\",
                    ),
                ),
            );
        }
        i += 1;
    }
    if str_eq_chars(&v, "HEAD") {
        return Err(WtError::ValidationError(String::from_str("'HEAD' is a reserved name")));
    }
    if has_prefix(&v, "refs/") {
        return Err(
            WtError::ValidationError(
                String::from_str("Branch name cannot start with 'refs/'"),
            ),
        );
    }
    Ok(())
}

/// Characters that may never occur anywhere in a path.
pub open spec fn spec_is_forbidden_path_char(c: char) -> bool {
    c == '<' || c == '>' || c == ':' || c == '"' || c == '|' || c == '?' || c == '*'
}

/// Decides `spec_is_forbidden_path_char`.
fn is_forbidden_path_char(c: char) -> (r: bool)
    ensures
        r == spec_is_forbidden_path_char(c),
{
    c == '<' || c == '>' || c == ':' || c == '"' || c == '|' || c == '?' || c == '*'
}

/// `a` equals `b` up to ASCII case, where `b` is an upper-case letter or any
/// other character compared verbatim.
pub open spec fn spec_ci_eq_char(a: char, b: char) -> bool {
    a == b || (0x41 <= b as u32 && b as u32 <= 0x5A && a as u32 == b as u32 + 0x20)
}

/// Decides `spec_ci_eq_char`.
fn ci_eq_char(a: char, b: char) -> (r: bool)
    ensures
        r == spec_ci_eq_char(a, b),
{
    let bu = b as u32;
    a == b || (0x41 <= bu && bu <= 0x5A && a as u32 == bu + 0x20)
}

/// `comp` spells `name` up to ASCII case. Used only against the upper-case
/// reserved device names, for which case-insensitive comparison and
/// ASCII-case-insensitive comparison agree.
pub open spec fn spec_component_matches(comp: Seq<char>, name: Seq<char>) -> bool {
    comp.len() == name.len() && forall|i: int|
        0 <= i < comp.len() ==> spec_ci_eq_char(comp[i], name[i])
}

/// Decides `spec_component_matches`.
fn component_matches(v: &Vec<char>, name: &str) -> (r: bool)
    ensures
        r == spec_component_matches(v@, name@),
{
    let pn = name.unicode_len();
    if pn != v.len() {
        return false;
    }
    let mut i: usize = 0;
    while i < pn
        invariant
            i <= pn == v@.len(),
            pn == name@.len(),
            forall|j: int| 0 <= j < i ==> spec_ci_eq_char(v@[j], name@[j]),
        decreases pn - i,
    {
        if !ci_eq_char(v[i], name.get_char(i)) {
            return false;
        }
        i += 1;
    }
    true
}

/// The path component is a reserved device name (`CON`, `PRN`, `AUX`,
/// `NUL`, `COM1`-`COM9`, `LPT1`-`LPT9`), compared case-insensitively.
pub open spec fn spec_is_reserved_component(comp: Seq<char>) -> bool {
    ||| spec_component_matches(comp, "CON"@)
    ||| spec_component_matches(comp, "PRN"@)
    ||| spec_component_matches(comp, "AUX"@)
    ||| spec_component_matches(comp, "NUL"@)
    ||| (comp.len() == 4 && spec_component_matches(comp.take(3), "COM"@) && 0x31 <= comp[3] as u32
        && comp[3] as u32 <= 0x39)
    ||| (comp.len() == 4 && spec_component_matches(comp.take(3), "LPT"@) && 0x31 <= comp[3] as u32
        && comp[3] as u32 <= 0x39)
}

/// Decides `spec_is_reserved_component`.
fn is_reserved_component(v: &Vec<char>) -> (r: bool)
    ensures
        r == spec_is_reserved_component(v@),
{
    if component_matches(v, "CON") || component_matches(v, "PRN") || component_matches(v, "AUX")
        || component_matches(v, "NUL") {
        return true;
    }
    if v.len() == 4 {
        let head = subvec_chars(v, 0, 3);
        assert(head@ =~= v@.take(3));
        let d = v[3] as u32;
        if (component_matches(&head, "COM") || component_matches(&head, "LPT")) && 0x31 <= d && d
            <= 0x39 {
            return true;
        }
    }
    false
}

/// The component breaks a component-level rule: it is a reserved device
/// name, or it is non-empty and ends with a dot.
pub open spec fn spec_bad_component(comp: Seq<char>) -> bool {
    spec_is_reserved_component(comp) || (comp.len() > 0 && comp.last() == '.')
}

/// Some component of `s`, split at `/` or at `\`, breaks a component-level
/// rule. The two separators are applied independently, each to the whole
/// string.
pub open spec fn spec_has_bad_component(s: Seq<char>) -> bool {
    (exists|k: int|
        0 <= k < spec_split(s, '/').len() && spec_bad_component(#[trigger] spec_split(s, '/')[k]))
        || (exists|k: int|
        0 <= k < spec_split(s, '\\').len() && spec_bad_component(
            #[trigger] spec_split(s, '\\')[k],
        ))
}

/// The path rule set: non-empty, no white space at either end, none of
/// `< > : " | ? *`, no control character other than tab, no reserved or
/// dot-terminated component, at most 4096 characters, and no `..` anywhere.
pub open spec fn spec_valid_path(s: Seq<char>) -> bool {
    &&& s.len() > 0
    &&& !spec_is_whitespace(s[0])
    &&& !spec_is_whitespace(s.last())
    &&& forall|i: int| 0 <= i < s.len() ==> !spec_is_forbidden_path_char(s[i])
    &&& forall|i: int| 0 <= i < s.len() ==> (spec_is_control(s[i]) ==> s[i] == '\t')
    &&& !spec_has_bad_component(s)
    &&& s.len() <= 4096
    &&& !spec_contains_seq(s, ".."@)
}

/// Checks each component of `v`, split at `sep`, against the
/// component-level rules; reports the first offender.
fn find_bad_component(v: &Vec<char>, sep: char) -> (r: Option<WtError>)
    ensures
        match r {
            Some(e) => (exists|k: int|
                0 <= k < spec_split(v@, sep).len() && spec_bad_component(
                    #[trigger] spec_split(v@, sep)[k],
                )) && e is ValidationError,
            None => forall|k: int|
                0 <= k < spec_split(v@, sep).len() ==> !spec_bad_component(
                    #[trigger] spec_split(v@, sep)[k],
                ),
        },
{
    let parts = split_chars(v, sep);
    let mut k: usize = 0;
    while k < parts.len()
        invariant
            k <= parts.len(),
            parts.deep_view() == spec_split(v@, sep),
            forall|j: int| 0 <= j < k ==> !spec_bad_component(#[trigger] spec_split(v@, sep)[j]),
        decreases parts.len() - k,
    {
        assert(parts@[k as int]@ == spec_split(v@, sep)[k as int]);
        if is_reserved_component(&parts[k]) {
            let msg = String::from_str("'").concat(
                chars_to_string(&parts[k]).as_str(),
            ).concat("' is a reserved name");
            return Some(WtError::ValidationError(msg));
        }
        let comp = &parts[k];
        if comp.len() > 0 && comp[comp.len() - 1] == '.' {
            return Some(
                WtError::ValidationError(
                    String::from_str("Path components cannot end with '.'"),
                ),
            );
        }
        k += 1;
    }
    None
}

/// Checks a candidate filesystem path against the path rule set.
///
/// Returns `Ok(())` exactly when the path satisfies every rule; otherwise a
/// `ValidationError` naming the first rule the candidate breaks.
pub fn validate_path(path: &str) -> (r: WtResult<()>)
    ensures
        r is Ok <==> spec_valid_path(path@),
        r matches Err(e) ==> e is ValidationError,
{
    let v = str_chars(path);
    let n = v.len();
    if n == 0 {
        return Err(WtError::ValidationError(String::from_str("Path cannot be empty")));
    }
    if is_whitespace_char(v[0]) || is_whitespace_char(v[n - 1]) {
        return Err(
            WtError::ValidationError(
                String::from_str("Path cannot have leading or trailing whitespace"),
            ),
        );
    }
    let mut i: usize = 0;
    while i < n
        invariant
            i <= n == v@.len(),
            v@ == path@,
            forall|j: int| 0 <= j < i ==> !spec_is_forbidden_path_char(v@[j]),
            forall|j: int| 0 <= j < i ==> (spec_is_control(v@[j]) ==> v@[j] == '\t'),
        decreases n - i,
    {
        let c = v[i];
        if is_forbidden_path_char(c) {
            assert(!spec_valid_path(path@));
            let mut msg = String::from_str("Path cannot contain '");
            push_char_message(&mut msg, c);
            return Err(WtError::ValidationError(msg));
        }
        if is_control_char(c) && c != '\t' {
            assert(!spec_valid_path(path@));
            return Err(
                WtError::ValidationError(
                    String::from_str("Path cannot contain control characters"),
                ),
            );
        }
        i += 1;
    }
    match find_bad_component(&v, '/') {
        Some(e) => {
            return Err(e);
        },
        None => {},
    }
    match find_bad_component(&v, '\\') {
        Some(e) => {
            return Err(e);
        },
        None => {},
    }
    if n > 4096 {
        return Err(
            WtError::ValidationError(
                String::from_str("Path is too long (maximum 4096 characters)"),
            ),
        );
    }
    if contains_str(&v, "..") {
        return Err(
            WtError::ValidationError(
                String::from_str("Path cannot contain '..' (parent directory references)"),
            ),
        );
    }
    Ok(())
}

/// Appends the offending character and a closing quote to a diagnostic.
fn push_char_message(msg: &mut String, c: char)
    ensures
        final(msg)@ == old(msg)@.push(c) + "'"@,
{
    crate::strutil::push_char(msg, c);
    msg.append("'");
}

} // verus!
