//! Character-level searching and trimming over borrowed strings.
//!
//! The spec functions here describe first occurrences and whitespace
//! boundaries by recursion over an absolute index, so that every executable
//! scan in the crate can state its result as one of these functions applied
//! to the view of its input.

use vstd::prelude::*;
use vstd::string::StrSliceExecFns;

verus! {

/// The whitespace characters recognized between tokens: space, tab,
/// carriage return and line feed.
pub open spec fn is_ws(c: char) -> bool {
    c == ' ' || c == '\t' || c == '\r' || c == '\n'
}

/// First index `j >= i` with `s[j] == c`, if any.
pub open spec fn find_char_at(s: Seq<char>, i: int, c: char) -> Option<int>
    decreases s.len() - i,
{
    if i < 0 || i >= s.len() {
        None
    } else if s[i] == c {
        Some(i)
    } else {
        find_char_at(s, i + 1, c)
    }
}

pub proof fn lemma_find_char_at(s: Seq<char>, i: int, c: char)
    requires
        0 <= i <= s.len(),
    ensures
        match find_char_at(s, i, c) {
            Some(j) => i <= j < s.len() && s[j] == c && (forall|k: int| i <= k < j ==> s[k] != c),
            None => forall|k: int| i <= k < s.len() ==> s[k] != c,
        },
    decreases s.len() - i,
{
    if i < s.len() && s[i] != c {
        lemma_find_char_at(s, i + 1, c);
    }
}

/// First index `j >= i` holding either `c1` or `c2`, if any.
pub open spec fn find_either_at(s: Seq<char>, i: int, c1: char, c2: char) -> Option<int>
    decreases s.len() - i,
{
    if i < 0 || i >= s.len() {
        None
    } else if s[i] == c1 || s[i] == c2 {
        Some(i)
    } else {
        find_either_at(s, i + 1, c1, c2)
    }
}

pub proof fn lemma_find_either_at(s: Seq<char>, i: int, c1: char, c2: char)
    requires
        0 <= i <= s.len(),
    ensures
        match find_either_at(s, i, c1, c2) {
            Some(j) => i <= j < s.len() && (s[j] == c1 || s[j] == c2) && (forall|k: int|
                i <= k < j ==> s[k] != c1 && s[k] != c2),
            None => forall|k: int| i <= k < s.len() ==> s[k] != c1 && s[k] != c2,
        },
    decreases s.len() - i,
{
    if i < s.len() && s[i] != c1 && s[i] != c2 {
        lemma_find_either_at(s, i + 1, c1, c2);
    }
}

/// First index `j >= i` holding a whitespace character, if any.
pub open spec fn find_ws_at(s: Seq<char>, i: int) -> Option<int>
    decreases s.len() - i,
{
    if i < 0 || i >= s.len() {
        None
    } else if is_ws(s[i]) {
        Some(i)
    } else {
        find_ws_at(s, i + 1)
    }
}

pub proof fn lemma_find_ws_at(s: Seq<char>, i: int)
    requires
        0 <= i <= s.len(),
    ensures
        match find_ws_at(s, i) {
            Some(j) => i <= j < s.len() && is_ws(s[j]) && (forall|k: int|
                i <= k < j ==> !is_ws(s[k])),
            None => forall|k: int| i <= k < s.len() ==> !is_ws(s[k]),
        },
    decreases s.len() - i,
{
    if i < s.len() && !is_ws(s[i]) {
        lemma_find_ws_at(s, i + 1);
    }
}

/// The pattern `p` occurs in `s` starting at index `i`.
pub open spec fn begins_at(s: Seq<char>, i: int, p: Seq<char>) -> bool {
    &&& 0 <= i
    &&& i + p.len() <= s.len()
    &&& forall|k: int| 0 <= k < p.len() ==> s[i + k] == p[k]
}

/// First index `j >= i` where the pattern `p` occurs, if any.
pub open spec fn find_at(s: Seq<char>, i: int, p: Seq<char>) -> Option<int>
    decreases s.len() - i,
{
    if i < 0 || i + p.len() > s.len() {
        None
    } else if begins_at(s, i, p) {
        Some(i)
    } else {
        find_at(s, i + 1, p)
    }
}

pub proof fn lemma_find_at(s: Seq<char>, i: int, p: Seq<char>)
    requires
        0 <= i,
    ensures
        match find_at(s, i, p) {
            Some(j) => i <= j && begins_at(s, j, p) && (forall|k: int|
                i <= k < j ==> !begins_at(s, k, p)),
            None => forall|k: int| i <= k ==> !begins_at(s, k, p),
        },
    decreases s.len() - i,
{
    if i + p.len() > s.len() {
        assert(forall|k: int| i <= k ==> !begins_at(s, k, p));
    } else if !begins_at(s, i, p) {
        lemma_find_at(s, i + 1, p);
    }
}

/// First index `j >= i` holding a non-whitespace character, or `s.len()`.
pub open spec fn ws_start_at(s: Seq<char>, i: int) -> int
    decreases s.len() - i,
{
    if i < 0 || i >= s.len() {
        s.len() as int
    } else if !is_ws(s[i]) {
        i
    } else {
        ws_start_at(s, i + 1)
    }
}

pub proof fn lemma_ws_start_at(s: Seq<char>, i: int)
    requires
        0 <= i <= s.len(),
    ensures
        i <= ws_start_at(s, i) <= s.len(),
        forall|k: int| i <= k < ws_start_at(s, i) ==> is_ws(s[k]),
        ws_start_at(s, i) < s.len() ==> !is_ws(s[ws_start_at(s, i)]),
    decreases s.len() - i,
{
    if i < s.len() && is_ws(s[i]) {
        lemma_ws_start_at(s, i + 1);
    }
}

/// Largest bound `b <= j` such that `s[0..b]` has no trailing whitespace.
pub open spec fn ws_end_at(s: Seq<char>, j: int) -> int
    decreases j,
{
    if j <= 0 {
        0
    } else if is_ws(s[j - 1]) {
        ws_end_at(s, j - 1)
    } else {
        j
    }
}

/// `s` with leading whitespace removed.
pub open spec fn trim_start_spec(s: Seq<char>) -> Seq<char> {
    s.subrange(ws_start_at(s, 0), s.len() as int)
}

/// `s` with trailing whitespace removed.
pub open spec fn trim_end_spec(s: Seq<char>) -> Seq<char> {
    s.subrange(0, ws_end_at(s, s.len() as int))
}

/// `s` with both leading and trailing whitespace removed.
pub open spec fn trim_spec(s: Seq<char>) -> Seq<char> {
    let a = ws_start_at(s, 0);
    let b = ws_end_at(s, s.len() as int);
    if a < b {
        s.subrange(a, b)
    } else {
        Seq::empty()
    }
}

/// An executable index result, seen as the spec-level optional index.
pub open spec fn opt_idx(r: Option<usize>) -> Option<int> {
    match r {
        Some(u) => Some(u as int),
        None => None,
    }
}

/// First occurrence of the character `c` in `s` at or after `from`.
pub(crate) fn find_char_from(s: &str, from: usize, c: char) -> (r: Option<usize>)
    requires
        from <= s@.len(),
    ensures
        opt_idx(r) == find_char_at(s@, from as int, c),
{
    let n = s.unicode_len();
    let mut i = from;
    while i < n
        invariant
            from <= i <= n,
            n == s@.len(),
            find_char_at(s@, from as int, c) == find_char_at(s@, i as int, c),
        decreases n - i,
    {
        if s.get_char(i) == c {
            return Some(i);
        }
        i = i + 1;
    }
    None
}

/// First occurrence in `s` at or after `from` of `c1` or `c2`.
pub(crate) fn find_either_from(s: &str, from: usize, c1: char, c2: char) -> (r: Option<usize>)
    requires
        from <= s@.len(),
    ensures
        opt_idx(r) == find_either_at(s@, from as int, c1, c2),
{
    let n = s.unicode_len();
    let mut i = from;
    while i < n
        invariant
            from <= i <= n,
            n == s@.len(),
            find_either_at(s@, from as int, c1, c2) == find_either_at(s@, i as int, c1, c2),
        decreases n - i,
    {
        let c = s.get_char(i);
        if c == c1 || c == c2 {
            return Some(i);
        }
        i = i + 1;
    }
    None
}

/// First whitespace character in `s` at or after `from`.
pub(crate) fn find_ws_from(s: &str, from: usize) -> (r: Option<usize>)
    requires
        from <= s@.len(),
    ensures
        opt_idx(r) == find_ws_at(s@, from as int),
{
    let n = s.unicode_len();
    let mut i = from;
    while i < n
        invariant
            from <= i <= n,
            n == s@.len(),
            find_ws_at(s@, from as int) == find_ws_at(s@, i as int),
        decreases n - i,
    {
        if is_ws_char(s.get_char(i)) {
            return Some(i);
        }
        i = i + 1;
    }
    None
}

/// Whether `s` starts with the pattern `p`.
pub(crate) fn str_begins(s: &str, p: &str) -> (r: bool)
    ensures
        r == begins_at(s@, 0, p@),
{
    let n = s.unicode_len();
    let m = p.unicode_len();
    if m > n {
        return false;
    }
    let mut k: usize = 0;
    while k < m
        invariant
            k <= m,
            m <= n,
            n == s@.len(),
            m == p@.len(),
            forall|j: int| 0 <= j < k ==> s@[j] == p@[j],
        decreases m - k,
    {
        if s.get_char(k) != p.get_char(k) {
            return false;
        }
        k = k + 1;
    }
    true
}

/// First occurrence of the pattern `p` in `s` at or after `from`.
pub(crate) fn find_pat_from(s: &str, from: usize, p: &str) -> (r: Option<usize>)
    requires
        from <= s@.len(),
    ensures
        opt_idx(r) == find_at(s@, from as int, p@),
{
    let n = s.unicode_len();
    let m = p.unicode_len();
    let mut i = from;
    if m > n {
        return None;
    }
    while i <= n - m
        invariant
            from <= i,
            i <= n + 1,
            m <= n,
            n == s@.len(),
            m == p@.len(),
            find_at(s@, from as int, p@) == find_at(s@, i as int, p@),
        decreases n - i,
    {
        let mut k: usize = 0;
        let mut hit = true;
        while k < m
            invariant
                k <= m,
                i + m <= n,
                n == s@.len(),
                m == p@.len(),
                hit ==> forall|j: int| 0 <= j < k ==> s@[i + j] == p@[j],
                !hit ==> !begins_at(s@, i as int, p@),
            decreases m - k,
        {
            if s.get_char(i + k) != p.get_char(k) {
                hit = false;
                k = m;
            } else {
                k = k + 1;
            }
        }
        if hit {
            assert(begins_at(s@, i as int, p@));
            return Some(i);
        }
        i = i + 1;
    }
    assert(find_at(s@, i as int, p@) is None);
    None
}

/// Whether the views of `a` and `b` are the same character sequence.
pub(crate) fn str_eq(a: &str, b: &str) -> (r: bool)
    ensures
        r == (a@ == b@),
{
    let n = a.unicode_len();
    let m = b.unicode_len();
    if n != m {
        return false;
    }
    let mut k: usize = 0;
    while k < n
        invariant
            k <= n,
            n == a@.len(),
            n == b@.len(),
            forall|j: int| 0 <= j < k ==> a@[j] == b@[j],
        decreases n - k,
    {
        if a.get_char(k) != b.get_char(k) {
            return false;
        }
        k = k + 1;
    }
    assert(a@ =~= b@);
    true
}

/// Whether `c` is recognized as whitespace.
pub(crate) fn is_ws_char(c: char) -> (r: bool)
    ensures
        r == is_ws(c),
{
    c == ' ' || c == '\t' || c == '\r' || c == '\n'
}

/// `s` with leading whitespace removed.
pub(crate) fn trim_start(s: &str) -> (r: &str)
    ensures
        r@ == trim_start_spec(s@),
{
    let n = s.unicode_len();
    let mut i: usize = 0;
    while i < n && is_ws_char(s.get_char(i))
        invariant
            i <= n,
            n == s@.len(),
            ws_start_at(s@, 0) == ws_start_at(s@, i as int),
        decreases n - i,
    {
        i = i + 1;
    }
    s.substring_char(i, n)
}

/// `s` with trailing whitespace removed.
pub(crate) fn trim_end(s: &str) -> (r: &str)
    ensures
        r@ == trim_end_spec(s@),
{
    let n = s.unicode_len();
    let mut j: usize = n;
    while j > 0 && is_ws_char(s.get_char(j - 1))
        invariant
            j <= n,
            n == s@.len(),
            ws_end_at(s@, n as int) == ws_end_at(s@, j as int),
        decreases j,
    {
        j = j - 1;
    }
    s.substring_char(0, j)
}

/// `s` with whitespace removed from both ends.
pub(crate) fn trim(s: &str) -> (r: &str)
    ensures
        r@ == trim_spec(s@),
{
    let n = s.unicode_len();
    let mut i: usize = 0;
    while i < n && is_ws_char(s.get_char(i))
        invariant
            i <= n,
            n == s@.len(),
            ws_start_at(s@, 0) == ws_start_at(s@, i as int),
        decreases n - i,
    {
        i = i + 1;
    }
    let mut j: usize = n;
    while j > 0 && is_ws_char(s.get_char(j - 1))
        invariant
            j <= n,
            n == s@.len(),
            ws_end_at(s@, n as int) == ws_end_at(s@, j as int),
        decreases j,
    {
        j = j - 1;
    }
    if i < j {
        s.substring_char(i, j)
    } else {
        let r = s.substring_char(0, 0);
        proof {
            assert(r@ =~= Seq::<char>::empty());
        }
        r
    }
}

} // verus!
