//! Deriving a project name from a repository's remote URL.
//!
//! The name is the last path segment of the URL, with any `.git` suffixes
//! stripped: `git@host:user/repo.git` and `https://host/user/repo.git`
//! both name the project `repo`. When the URL fits neither shape the
//! caller falls back to something else (typically the directory name).

use crate::strutil::{
    find_first, find_last, has_prefix, lemma_find_char_none, lemma_find_char_some,
    lemma_rfind_char_none, lemma_rfind_char_some, spec_find_char, spec_rfind_char, spec_trim,
    str_chars, subvec_chars, trim_chars, chars_to_string,
};
use vstd::prelude::*;

verus! {

/// `s` ends with the four characters `.git`.
pub open spec fn spec_has_git_suffix(s: Seq<char>) -> bool {
    s.len() >= 4 && s[s.len() - 4] == '.' && s[s.len() - 3] == 'g' && s[s.len() - 2] == 'i'
        && s[s.len() - 1] == 't'
}

/// `s` with every trailing `.git` stripped, one after the other.
pub open spec fn spec_strip_git_suffix(s: Seq<char>) -> Seq<char>
    decreases s.len(),
{
    if spec_has_git_suffix(s) {
        spec_strip_git_suffix(s.take(s.len() - 4))
    } else {
        s
    }
}

/// The project name a remote URL yields, if it fits one of the two
/// recognized shapes. For an SSH-style URL (`git@…`), the text after the
/// last `/` following the first `:`; for an HTTP-style URL (`http…`), the
/// text after the last `/`; in both cases with `.git` suffixes stripped.
pub open spec fn spec_extract_project_name(url: Seq<char>) -> Option<Seq<char>> {
    let u = spec_trim(url);
    if "git@"@.is_prefix_of(u) {
        match spec_find_char(u, ':') {
            None => None,
            Some(ci) => {
                let path = u.skip(ci + 1);
                match spec_rfind_char(path, '/') {
                    None => None,
                    Some(si) => Some(spec_strip_git_suffix(path.skip(si + 1))),
                }
            },
        }
    } else if "http"@.is_prefix_of(u) {
        match spec_rfind_char(u, '/') {
            None => None,
            Some(si) => Some(spec_strip_git_suffix(u.skip(si + 1))),
        }
    } else {
        None
    }
}

/// Strips every trailing `.git` from the characters of `v`.
fn strip_git_suffix(v: &Vec<char>) -> (r: Vec<char>)
    ensures
        r@ == spec_strip_git_suffix(v@),
{
    let mut e: usize = v.len();
    proof {
        assert(v@.take(e as int) =~= v@);
    }
    while e >= 4 && v[e - 4] == '.' && v[e - 3] == 'g' && v[e - 2] == 'i' && v[e - 1] == 't'
        invariant
            e <= v@.len(),
            spec_strip_git_suffix(v@.take(e as int)) == spec_strip_git_suffix(v@),
        decreases e,
    {
        proof {
            assert(spec_has_git_suffix(v@.take(e as int)));
            assert(v@.take(e as int).take(e - 4) =~= v@.take(e - 4));
        }
        e -= 4;
    }
    proof {
        assert(!spec_has_git_suffix(v@.take(e as int)));
    }
    subvec_chars(v, 0, e)
}

/// Extracts the project name from a remote URL, as
/// `spec_extract_project_name` describes; `None` when the URL fits
/// neither recognized shape.
pub fn extract_project_name_from_url(url: &str) -> (r: Option<String>)
    ensures
        match r {
            Some(name) => spec_extract_project_name(url@) == Some(name@),
            None => spec_extract_project_name(url@) is None,
        },
{
    let raw = str_chars(url);
    let u = trim_chars(&raw);
    if has_prefix(&u, "git@") {
        match find_first(&u, ':') {
            None => {
                proof {
                    lemma_find_char_none(u@, ':');
                }
                None
            },
            Some(ci) => {
                proof {
                    lemma_find_char_some(u@, ':', ci as int);
                }
                let path = subvec_chars(&u, ci + 1, u.len());
                proof {
                    assert(path@ =~= u@.skip(ci + 1));
                }
                match find_last(&path, '/') {
                    None => {
                        proof {
                            lemma_rfind_char_none(path@, '/');
                        }
                        None
                    },
                    Some(si) => {
                        proof {
                            lemma_rfind_char_some(path@, '/', si as int);
                        }
                        let tail = subvec_chars(&path, si + 1, path.len());
                        proof {
                            assert(tail@ =~= path@.skip(si + 1));
                        }
                        Some(chars_to_string(&strip_git_suffix(&tail)))
                    },
                }
            },
        }
    } else if has_prefix(&u, "http") {
        match find_last(&u, '/') {
            None => {
                proof {
                    lemma_rfind_char_none(u@, '/');
                }
                None
            },
            Some(si) => {
                proof {
                    lemma_rfind_char_some(u@, '/', si as int);
                }
                let tail = subvec_chars(&u, si + 1, u.len());
                proof {
                    assert(tail@ =~= u@.skip(si + 1));
                }
                Some(chars_to_string(&strip_git_suffix(&tail)))
            },
        }
    } else {
        None
    }
}

} // verus!
