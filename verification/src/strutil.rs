//! Verified helpers for working with strings as sequences of characters.
//!
//! Exec code in this crate converts a `&str` to a `Vec<char>` once and works
//! on that, so that every step is plain verified code over `Seq<char>`.

use vstd::prelude::*;

verus! {

/// The Unicode white-space characters, as `str::trim` understands them.
pub open spec fn spec_is_whitespace(c: char) -> bool {
    let u = c as u32;
    u == 0x09 || u == 0x0A || u == 0x0B || u == 0x0C || u == 0x0D || u == 0x20 || u == 0x85
        || u == 0xA0 || u == 0x1680 || (0x2000 <= u && u <= 0x200A) || u == 0x2028 || u == 0x2029
        || u == 0x202F || u == 0x205F || u == 0x3000
}

/// Decides `spec_is_whitespace`.
pub fn is_whitespace_char(c: char) -> (r: bool)
    ensures
        r == spec_is_whitespace(c),
{
    let u = c as u32;
    u == 0x09 || u == 0x0A || u == 0x0B || u == 0x0C || u == 0x0D || u == 0x20 || u == 0x85
        || u == 0xA0 || u == 0x1680 || (0x2000 <= u && u <= 0x200A) || u == 0x2028 || u == 0x2029
        || u == 0x202F || u == 0x205F || u == 0x3000
}

/// The control characters (the Unicode `Cc` category).
pub open spec fn spec_is_control(c: char) -> bool {
    let u = c as u32;
    u < 0x20 || (0x7F <= u && u <= 0x9F)
}

/// Decides `spec_is_control`.
pub fn is_control_char(c: char) -> (r: bool)
    ensures
        r == spec_is_control(c),
{
    let u = c as u32;
    u < 0x20 || (0x7F <= u && u <= 0x9F)
}

/// Relies on `String::push`: appends exactly one character at the end.
#[verifier::external_body]
pub fn push_char(s: &mut String, c: char)
    ensures
        final(s)@ == old(s)@.push(c),
{
    s.push(c);
}

/// Collects the characters of a string slice into a vector.
pub fn str_chars(s: &str) -> (r: Vec<char>)
    ensures
        r@ == s@,
{
    let n = s.unicode_len();
    let mut v: Vec<char> = Vec::new();
    let mut i: usize = 0;
    while i < n
        invariant
            i <= n,
            n == s@.len(),
            v@ == s@.take(i as int),
        decreases n - i,
    {
        v.push(s.get_char(i));
        assert(s@.take(i + 1) =~= s@.take(i as int).push(s@[i as int]));
        i += 1;
    }
    assert(s@.take(n as int) =~= s@);
    v
}

/// Builds a string out of a vector of characters.
pub fn chars_to_string(v: &Vec<char>) -> (r: String)
    ensures
        r@ == v@,
{
    let mut s = String::new();
    let mut i: usize = 0;
    while i < v.len()
        invariant
            i <= v.len(),
            s@ == v@.take(i as int),
        decreases v.len() - i,
    {
        push_char(&mut s, v[i]);
        assert(v@.take(i + 1) =~= v@.take(i as int).push(v@[i as int]));
        i += 1;
    }
    assert(v@.take(v.len() as int) =~= v@);
    s
}

/// Copies the characters of `v` between `from` (inclusive) and `to`
/// (exclusive).
pub fn subvec_chars(v: &Vec<char>, from: usize, to: usize) -> (r: Vec<char>)
    requires
        from <= to <= v.len(),
    ensures
        r@ == v@.subrange(from as int, to as int),
{
    let mut out: Vec<char> = Vec::new();
    let mut i: usize = from;
    while i < to
        invariant
            from <= i <= to <= v.len(),
            out@ == v@.subrange(from as int, i as int),
        decreases to - i,
    {
        out.push(v[i]);
        assert(v@.subrange(from as int, i + 1) =~= v@.subrange(from as int, i as int).push(
            v@[i as int],
        ));
        i += 1;
    }
    out
}

/// True when the characters of `p` start `s`.
pub fn has_prefix(v: &Vec<char>, p: &str) -> (r: bool)
    ensures
        r == p@.is_prefix_of(v@),
{
    let pn = p.unicode_len();
    if pn > v.len() {
        assert(!p@.is_prefix_of(v@));
        return false;
    }
    let mut i: usize = 0;
    while i < pn
        invariant
            i <= pn <= v.len(),
            pn == p@.len(),
            forall|j: int| 0 <= j < i ==> v@[j] == p@[j],
        decreases pn - i,
    {
        if v[i] != p.get_char(i) {
            assert(!p@.is_prefix_of(v@)) by {
                assert(v@.subrange(0, pn as int)[i as int] != p@[i as int]);
            }
            return false;
        }
        i += 1;
    }
    assert(v@.subrange(0, pn as int) =~= p@);
    true
}

/// True when the characters of `p` end `s`.
pub fn has_suffix(v: &Vec<char>, p: &str) -> (r: bool)
    ensures
        r == p@.is_suffix_of(v@),
{
    let pn = p.unicode_len();
    let n = v.len();
    if pn > n {
        assert(!p@.is_suffix_of(v@));
        return false;
    }
    let mut i: usize = 0;
    while i < pn
        invariant
            i <= pn <= n,
            n == v@.len(),
            pn == p@.len(),
            forall|j: int| 0 <= j < i ==> v@[n - pn + j] == p@[j],
        decreases pn - i,
    {
        if v[n - pn + i] != p.get_char(i) {
            assert(!p@.is_suffix_of(v@)) by {
                assert(v@.subrange(n - pn, n as int)[i as int] != p@[i as int]);
            }
            return false;
        }
        i += 1;
    }
    assert(v@.subrange(n - pn, n as int) =~= p@);
    true
}

/// True when the characters of `v` are exactly those of `p`.
pub fn str_eq_chars(v: &Vec<char>, p: &str) -> (r: bool)
    ensures
        r == (v@ == p@),
{
    let pn = p.unicode_len();
    if pn != v.len() {
        return false;
    }
    let mut i: usize = 0;
    while i < pn
        invariant
            i <= pn == v@.len(),
            pn == p@.len(),
            forall|j: int| 0 <= j < i ==> v@[j] == p@[j],
        decreases pn - i,
    {
        if v[i] != p.get_char(i) {
            return false;
        }
        i += 1;
    }
    assert(v@ =~= p@);
    true
}

/// `sub` occurs somewhere inside `s`.
pub open spec fn spec_contains_seq(s: Seq<char>, sub: Seq<char>) -> bool {
    exists|i: int|
        0 <= i && i + sub.len() <= s.len() && #[trigger] s.subrange(i, i + sub.len() as int)
            == sub
}

/// True when the characters of `p` occur contiguously inside `v` starting at
/// `at`.
fn matches_at(v: &Vec<char>, p: &str, at: usize) -> (r: bool)
    requires
        at + p@.len() <= v.len(),
    ensures
        r == (v@.subrange(at as int, at + p@.len()) == p@),
{
    let pn = p.unicode_len();
    let mut i: usize = 0;
    let mut k: usize = at;
    while i < pn
        invariant
            i <= pn,
            k == at + i,
            pn == p@.len(),
            at + pn <= v.len(),
            at + pn <= v@.len(),
            forall|j: int| 0 <= j < i ==> v@[at + j] == p@[j],
        decreases pn - i,
    {
        if v[k] != p.get_char(i) {
            assert(v@.subrange(at as int, at + p@.len())[i as int] != p@[i as int]);
            return false;
        }
        i += 1;
        k += 1;
    }
    assert(v@.subrange(at as int, at + p@.len()) =~= p@);
    true
}

/// True when the characters of `p` occur contiguously somewhere inside `v`.
pub fn contains_str(v: &Vec<char>, p: &str) -> (r: bool)
    ensures
        r == spec_contains_seq(v@, p@),
{
    let pn = p.unicode_len();
    let n = v.len();
    if pn > n {
        return false;
    }
    if pn == 0 {
        assert(spec_contains_seq(v@, p@)) by {
            assert(v@.subrange(0, 0 + p@.len() as int) =~= p@);
        }
        return true;
    }
    let mut i: usize = 0;
    while i <= n - pn
        invariant
            1 <= pn <= n == v@.len(),
            pn == p@.len(),
            i <= n - pn + 1,
            forall|j: int| 0 <= j < i ==> #[trigger] v@.subrange(j, j + p@.len()) != p@,
        decreases n - i,
    {
        if matches_at(v, p, i) {
            return true;
        }
        i += 1;
    }
    false
}

/// The position of the first occurrence of `c` in `v`, if any.
pub fn find_first(v: &Vec<char>, c: char) -> (r: Option<usize>)
    ensures
        match r {
            Some(i) => i < v@.len() && v@[i as int] == c && forall|j: int|
                0 <= j < i ==> v@[j] != c,
            None => forall|j: int| 0 <= j < v@.len() ==> v@[j] != c,
        },
{
    let mut i: usize = 0;
    while i < v.len()
        invariant
            i <= v@.len(),
            forall|j: int| 0 <= j < i ==> v@[j] != c,
        decreases v.len() - i,
    {
        if v[i] == c {
            return Some(i);
        }
        i += 1;
    }
    None
}

/// The position of the last occurrence of `c` in `v`, if any.
pub fn find_last(v: &Vec<char>, c: char) -> (r: Option<usize>)
    ensures
        match r {
            Some(i) => i < v@.len() && v@[i as int] == c && forall|j: int|
                i < j < v@.len() ==> v@[j] != c,
            None => forall|j: int| 0 <= j < v@.len() ==> v@[j] != c,
        },
{
    let mut i: usize = v.len();
    while i > 0
        invariant
            i <= v@.len(),
            forall|j: int| i <= j < v@.len() ==> v@[j] != c,
        decreases i,
    {
        i -= 1;
        if v[i] == c {
            return Some(i);
        }
    }
    None
}

/// Splits `s` at every occurrence of `sep`. The result always has one more
/// element than `s` has separators; separators themselves are dropped.
pub open spec fn spec_split(s: Seq<char>, sep: char) -> Seq<Seq<char>>
    decreases s.len(),
{
    if s.len() == 0 {
        seq![Seq::<char>::empty()]
    } else if s.last() == sep {
        spec_split(s.drop_last(), sep).push(Seq::<char>::empty())
    } else {
        let rest = spec_split(s.drop_last(), sep);
        rest.update(rest.len() - 1, rest.last().push(s.last()))
    }
}

pub proof fn lemma_split_nonempty(s: Seq<char>, sep: char)
    ensures
        spec_split(s, sep).len() >= 1,
    decreases s.len(),
{
    if s.len() > 0 {
        lemma_split_nonempty(s.drop_last(), sep);
    }
}

/// Splits the characters of `v` at every occurrence of `sep`.
pub fn split_chars(v: &Vec<char>, sep: char) -> (r: Vec<Vec<char>>)
    ensures
        r.deep_view() == spec_split(v@, sep),
{
    let mut done: Vec<Vec<char>> = Vec::new();
    let mut cur: Vec<char> = Vec::new();
    let mut i: usize = 0;
    while i < v.len()
        invariant
            i <= v.len(),
            spec_split(v@.take(i as int), sep) == done.deep_view().push(cur@),
        decreases v.len() - i,
    {
        proof {
            assert(v@.take(i + 1).drop_last() =~= v@.take(i as int));
            assert(v@.take(i + 1).last() == v@[i as int]);
        }
        let ghost old_done = done.deep_view();
        let ghost old_cur = cur@;
        if v[i] == sep {
            done.push(cur);
            cur = Vec::new();
            proof {
                assert(done.deep_view() =~~= old_done.push(old_cur));
                assert(spec_split(v@.take(i + 1), sep) =~~= done.deep_view().push(cur@));
            }
        } else {
            cur.push(v[i]);
            proof {
                assert(spec_split(v@.take(i + 1), sep) =~~= done.deep_view().push(cur@));
            }
        }
        i += 1;
    }
    proof {
        assert(v@.take(v.len() as int) =~= v@);
    }
    let ghost old_done = done.deep_view();
    done.push(cur);
    proof {
        assert(done.deep_view() =~~= old_done.push(cur@));
    }
    done
}

/// `s` without its leading white space.
pub open spec fn spec_drop_leading_ws(s: Seq<char>) -> Seq<char>
    decreases s.len(),
{
    if s.len() > 0 && spec_is_whitespace(s[0]) {
        spec_drop_leading_ws(s.drop_first())
    } else {
        s
    }
}

/// `s` without its trailing white space.
pub open spec fn spec_drop_trailing_ws(s: Seq<char>) -> Seq<char>
    decreases s.len(),
{
    if s.len() > 0 && spec_is_whitespace(s.last()) {
        spec_drop_trailing_ws(s.drop_last())
    } else {
        s
    }
}

/// `s` without leading and trailing white space, as `str::trim` strips it.
pub open spec fn spec_trim(s: Seq<char>) -> Seq<char> {
    spec_drop_trailing_ws(spec_drop_leading_ws(s))
}

proof fn lemma_drop_leading_ws_skip(s: Seq<char>, a: int)
    requires
        0 <= a <= s.len(),
        forall|i: int| 0 <= i < a ==> spec_is_whitespace(s[i]),
        a < s.len() ==> !spec_is_whitespace(s[a]),
    ensures
        spec_drop_leading_ws(s) == s.skip(a),
    decreases a,
{
    if a == 0 {
        assert(s.skip(0) =~= s);
    } else {
        lemma_drop_leading_ws_skip(s.drop_first(), a - 1);
        assert(s.drop_first().skip(a - 1) =~= s.skip(a));
    }
}

proof fn lemma_drop_trailing_ws_take(s: Seq<char>, b: int)
    requires
        0 <= b <= s.len(),
        forall|i: int| b <= i < s.len() ==> spec_is_whitespace(s[i]),
        b > 0 ==> !spec_is_whitespace(s[b - 1]),
    ensures
        spec_drop_trailing_ws(s) == s.take(b),
    decreases s.len() - b,
{
    if b == s.len() {
        assert(s.take(b) =~= s);
    } else {
        lemma_drop_trailing_ws_take(s.drop_last(), b);
        assert(s.drop_last().take(b) =~= s.take(b));
    }
}

/// The characters of `v` with leading and trailing white space removed.
pub fn trim_chars(v: &Vec<char>) -> (r: Vec<char>)
    ensures
        r@ == spec_trim(v@),
{
    let n = v.len();
    let mut a: usize = 0;
    while a < n && is_whitespace_char(v[a])
        invariant
            a <= n == v@.len(),
            forall|i: int| 0 <= i < a ==> spec_is_whitespace(v@[i]),
        decreases n - a,
    {
        a += 1;
    }
    let mut b: usize = n;
    while b > a && is_whitespace_char(v[b - 1])
        invariant
            a <= b <= n == v@.len(),
            forall|i: int| b <= i < n ==> spec_is_whitespace(v@[i]),
        decreases b,
    {
        b -= 1;
    }
    proof {
        lemma_drop_leading_ws_skip(v@, a as int);
        if b == a {
            lemma_drop_trailing_ws_take(v@.skip(a as int), 0);
        } else {
            lemma_drop_trailing_ws_take(v@.skip(a as int), b - a);
        }
        assert(v@.skip(a as int).take(b - a) =~= v@.subrange(a as int, b as int));
    }
    subvec_chars(v, a, b)
}


/// Appends all characters of `src` to `dst`.
pub fn append_chars(dst: &mut Vec<char>, src: &Vec<char>)
    ensures
        final(dst)@ == old(dst)@ + src@,
{
    let mut i: usize = 0;
    while i < src.len()
        invariant
            i <= src@.len(),
            dst@ == old(dst)@ + src@.take(i as int),
        decreases src.len() - i,
    {
        dst.push(src[i]);
        assert(old(dst)@ + src@.take(i + 1) =~= (old(dst)@ + src@.take(i as int)).push(
            src@[i as int],
        ));
        i += 1;
    }
    assert(old(dst)@ + src@.take(src@.len() as int) =~= old(dst)@ + src@);
}


/// The index of the first occurrence of `c` in `s`, if any.
pub open spec fn spec_find_char(s: Seq<char>, c: char) -> Option<int>
    decreases s.len(),
{
    if s.len() == 0 {
        None
    } else if s.first() == c {
        Some(0)
    } else {
        match spec_find_char(s.drop_first(), c) {
            Some(i) => Some(i + 1),
            None => None,
        }
    }
}

/// The index of the last occurrence of `c` in `s`, if any.
pub open spec fn spec_rfind_char(s: Seq<char>, c: char) -> Option<int>
    decreases s.len(),
{
    if s.len() == 0 {
        None
    } else if s.last() == c {
        Some(s.len() - 1)
    } else {
        spec_rfind_char(s.drop_last(), c)
    }
}

/// The index of the first occurrence of `sub` in `s`, if any.
pub open spec fn spec_find_sub(s: Seq<char>, sub: Seq<char>) -> Option<int>
    decreases s.len(),
{
    if sub.len() > s.len() {
        None
    } else if sub.is_prefix_of(s) {
        Some(0)
    } else {
        match spec_find_sub(s.drop_first(), sub) {
            Some(i) => Some(i + 1),
            None => None,
        }
    }
}

pub proof fn lemma_find_char_some(s: Seq<char>, c: char, k: int)
    requires
        0 <= k < s.len(),
        s[k] == c,
        forall|j: int| 0 <= j < k ==> s[j] != c,
    ensures
        spec_find_char(s, c) == Some(k),
    decreases k,
{
    if k > 0 {
        lemma_find_char_some(s.drop_first(), c, k - 1);
    }
}

pub proof fn lemma_find_char_none(s: Seq<char>, c: char)
    requires
        forall|j: int| 0 <= j < s.len() ==> s[j] != c,
    ensures
        spec_find_char(s, c) is None,
    decreases s.len(),
{
    if s.len() > 0 {
        lemma_find_char_none(s.drop_first(), c);
    }
}

pub proof fn lemma_rfind_char_some(s: Seq<char>, c: char, k: int)
    requires
        0 <= k < s.len(),
        s[k] == c,
        forall|j: int| k < j < s.len() ==> s[j] != c,
    ensures
        spec_rfind_char(s, c) == Some(k),
    decreases s.len(),
{
    if k < s.len() - 1 {
        lemma_rfind_char_some(s.drop_last(), c, k);
    }
}

pub proof fn lemma_rfind_char_none(s: Seq<char>, c: char)
    requires
        forall|j: int| 0 <= j < s.len() ==> s[j] != c,
    ensures
        spec_rfind_char(s, c) is None,
    decreases s.len(),
{
    if s.len() > 0 {
        lemma_rfind_char_none(s.drop_last(), c);
    }
}

pub proof fn lemma_find_sub_some(s: Seq<char>, sub: Seq<char>, k: int)
    requires
        0 <= k,
        k + sub.len() <= s.len(),
        s.subrange(k, k + sub.len() as int) == sub,
        forall|j: int| 0 <= j < k ==> #[trigger] s.subrange(j, j + sub.len() as int) != sub,
    ensures
        spec_find_sub(s, sub) == Some(k),
    decreases k,
{
    if k == 0 {
        assert(s.take(sub.len() as int) =~= s.subrange(0, sub.len() as int));
        assert(sub.is_prefix_of(s));
    } else {
        assert(s.take(sub.len() as int) =~= s.subrange(0, sub.len() as int));
        assert(s.subrange(0, 0 + sub.len() as int) != sub);
        assert(!sub.is_prefix_of(s));
        let d = s.drop_first();
        assert(d.subrange(k - 1, k - 1 + sub.len() as int) =~= s.subrange(k, k + sub.len() as int));
        assert forall|j: int| 0 <= j < k - 1 implies #[trigger] d.subrange(
            j,
            j + sub.len() as int,
        ) != sub by {
            assert(d.subrange(j, j + sub.len() as int) =~= s.subrange(
                j + 1,
                j + 1 + sub.len() as int,
            ));
        }
        lemma_find_sub_some(d, sub, k - 1);
    }
}

pub proof fn lemma_find_sub_none(s: Seq<char>, sub: Seq<char>)
    requires
        forall|j: int|
            0 <= j && j + sub.len() <= s.len() ==> #[trigger] s.subrange(j, j + sub.len() as int)
                != sub,
    ensures
        spec_find_sub(s, sub) is None,
    decreases s.len(),
{
    if sub.len() <= s.len() {
        assert(s.take(sub.len() as int) =~= s.subrange(0, 0 + sub.len() as int));
        assert(!sub.is_prefix_of(s));
        let d = s.drop_first();
        assert forall|j: int| 0 <= j && j + sub.len() <= d.len() implies #[trigger] d.subrange(
            j,
            j + sub.len() as int,
        ) != sub by {
            assert(d.subrange(j, j + sub.len() as int) =~= s.subrange(
                j + 1,
                j + 1 + sub.len() as int,
            ));
        }
        lemma_find_sub_none(d, sub);
    }
}

/// The position of the first occurrence of the characters of `p` inside
/// `v`, if any.
pub fn find_str(v: &Vec<char>, p: &str) -> (r: Option<usize>)
    ensures
        match r {
            Some(i) => spec_find_sub(v@, p@) == Some(i as int) && i + p@.len() <= v@.len()
                && v@.subrange(i as int, i + p@.len()) == p@,
            None => spec_find_sub(v@, p@) is None,
        },
{
    let pn = p.unicode_len();
    let n = v.len();
    if pn > n {
        proof {
            lemma_find_sub_none(v@, p@);
        }
        return None;
    }
    if pn == 0 {
        proof {
            assert(v@.subrange(0, 0 + p@.len() as int) =~= p@);
            lemma_find_sub_some(v@, p@, 0);
        }
        return Some(0);
    }
    let mut i: usize = 0;
    while i <= n - pn
        invariant
            1 <= pn <= n == v@.len(),
            pn == p@.len(),
            i <= n - pn + 1,
            forall|j: int| 0 <= j < i ==> #[trigger] v@.subrange(j, j + p@.len()) != p@,
        decreases n - i,
    {
        if matches_at(v, p, i) {
            proof {
                lemma_find_sub_some(v@, p@, i as int);
            }
            return Some(i);
        }
        i += 1;
    }
    proof {
        lemma_find_sub_none(v@, p@);
    }
    None
}


/// Appending the separator itself opens a new, empty segment.
pub proof fn lemma_split_append_sep(s: Seq<char>, sep: char)
    ensures
        spec_split(s.push(sep), sep) == spec_split(s, sep).push(Seq::<char>::empty()),
{
    assert(s.push(sep).drop_last() =~= s);
}

/// Appending separator-free text only extends the last segment.
pub proof fn lemma_split_append_clean(s: Seq<char>, w: Seq<char>, sep: char)
    requires
        forall|j: int| 0 <= j < w.len() ==> w[j] != sep,
    ensures
        ({
            let base = spec_split(s, sep);
            spec_split(s + w, sep) == base.update(base.len() - 1, base.last() + w)
        }),
    decreases w.len(),
{
    lemma_split_nonempty(s, sep);
    let base = spec_split(s, sep);
    if w.len() == 0 {
        assert(s + w =~= s);
        assert(base.last() + w =~= base.last());
        assert(base.update(base.len() - 1, base.last() + w) =~~= base);
    } else {
        let w0 = w.drop_last();
        let c = w.last();
        assert(forall|j: int| 0 <= j < w0.len() ==> w0[j] != sep);
        lemma_split_append_clean(s, w0, sep);
        let mid = spec_split(s + w0, sep);
        assert(s + w =~= (s + w0).push(c));
        assert((s + w0).push(c).drop_last() =~= s + w0);
        assert((s + w0).push(c).last() == c);
        assert(spec_split((s + w0).push(c), sep) == mid.update(
            mid.len() - 1,
            mid.last().push(c),
        ));
        assert(mid.len() == base.len());
        assert(mid.last() == base.last() + w0);
        assert((base.last() + w0).push(c) =~= base.last() + w);
        assert(mid.update(mid.len() - 1, mid.last().push(c)) =~~= base.update(
            base.len() - 1,
            base.last() + w,
        ));
    }
}

} // verus!
