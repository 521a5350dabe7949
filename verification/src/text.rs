//! String utilities shared by the prompt builder, the response parser and the
//! relocation engine: substring search, trimming, whitespace normalisation and
//! decimal rendering, each with an exact view-level contract.

use vstd::prelude::*;

verus! {

/// A character with the Unicode `White_Space` property, the set that
/// `str::trim` and `str::split_whitespace` go by.
pub open spec fn is_ws_char(c: char) -> bool {
    c == ' ' || c == '\t' || c == '\n' || c == '\r' || c == '\u{000B}' || c == '\u{000C}'
        || c == '\u{0085}' || c == '\u{00A0}' || c == '\u{1680}' || c == '\u{2000}'
        || c == '\u{2001}' || c == '\u{2002}' || c == '\u{2003}' || c == '\u{2004}'
        || c == '\u{2005}' || c == '\u{2006}' || c == '\u{2007}' || c == '\u{2008}'
        || c == '\u{2009}' || c == '\u{200A}' || c == '\u{2028}' || c == '\u{2029}'
        || c == '\u{202F}' || c == '\u{205F}' || c == '\u{3000}'
}

/// Runtime test for [`is_ws_char`].
pub fn ws_char(c: char) -> (r: bool)
    ensures
        r == is_ws_char(c),
{
    c == ' ' || c == '\t' || c == '\n' || c == '\r' || c == '\u{000B}' || c == '\u{000C}'
        || c == '\u{0085}' || c == '\u{00A0}' || c == '\u{1680}' || c == '\u{2000}'
        || c == '\u{2001}' || c == '\u{2002}' || c == '\u{2003}' || c == '\u{2004}'
        || c == '\u{2005}' || c == '\u{2006}' || c == '\u{2007}' || c == '\u{2008}'
        || c == '\u{2009}' || c == '\u{200A}' || c == '\u{2028}' || c == '\u{2029}'
        || c == '\u{202F}' || c == '\u{205F}' || c == '\u{3000}'
}

/// `pat` occurs in `s` at position `i`.
pub open spec fn match_at(s: Seq<char>, pat: Seq<char>, i: int) -> bool {
    &&& 0 <= i
    &&& i + pat.len() <= s.len()
    &&& s.subrange(i, i + pat.len() as int) == pat
}

/// Position of the first occurrence of `pat` in `s` at or after `i`.
pub open spec fn find_from(s: Seq<char>, pat: Seq<char>, i: int) -> Option<int>
    decreases s.len() + 1 - i,
{
    if i < 0 || i + pat.len() > s.len() {
        None
    } else if match_at(s, pat, i) {
        Some(i)
    } else {
        find_from(s, pat, i + 1)
    }
}

/// Position of the first occurrence of `pat` in `s`, if any.
pub open spec fn find_sub_spec(s: Seq<char>, pat: Seq<char>) -> Option<int> {
    find_from(s, pat, 0)
}

/// A found position is a real match.
pub proof fn lemma_find_from_match(s: Seq<char>, pat: Seq<char>, i: int)
    ensures
        find_from(s, pat, i) matches Some(j) ==> match_at(s, pat, j) && i <= j,
    decreases s.len() + 1 - i,
{
    if !(i < 0 || i + pat.len() > s.len()) && !match_at(s, pat, i) {
        lemma_find_from_match(s, pat, i + 1);
    }
}

/// Does `pat` match `s` starting at `i`?
fn match_at_exec(s: &str, pat: &str, i: usize, n: usize, m: usize) -> (r: bool)
    requires
        n == s@.len(),
        m == pat@.len(),
        i + m <= n,
    ensures
        r == match_at(s@, pat@, i as int),
{
    let mut j: usize = 0;
    while j < m
        invariant
            n == s@.len(),
            m == pat@.len(),
            i + m <= n,
            j <= m,
            forall|k: int| 0 <= k < j ==> s@[i + k] == pat@[k],
        decreases m - j,
    {
        if s.get_char(i + j) != pat.get_char(j) {
            assert(s@.subrange(i as int, i + m as int)[j as int] != pat@[j as int]);
            return false;
        }
        j += 1;
    }
    assert(s@.subrange(i as int, i + m as int) =~= pat@);
    true
}

/// Index of the first occurrence of `pat` in `s`, or `None` if `pat` does not
/// occur.
pub fn find_sub(s: &str, pat: &str) -> (r: Option<usize>)
    ensures
        r matches Some(i) ==> find_sub_spec(s@, pat@) == Some(i as int),
        r is None ==> find_sub_spec(s@, pat@) is None,
{
    let n = s.unicode_len();
    let m = pat.unicode_len();
    if m > n {
        return None;
    }
    if m == 0 {
        proof {
            assert(s@.subrange(0, 0) =~= pat@);
        }
        return Some(0);
    }
    let mut i: usize = 0;
    while i <= n - m
        invariant
            n == s@.len(),
            m == pat@.len(),
            0 < m <= n,
            i <= n - m + 1,
            find_from(s@, pat@, 0) == find_from(s@, pat@, i as int),
        decreases n - m + 1 - i,
    {
        if match_at_exec(s, pat, i, n, m) {
            return Some(i);
        }
        i += 1;
    }
    None
}

/// Are two texts equal, character for character?
pub fn str_eq(a: &str, b: &str) -> (r: bool)
    ensures
        r == (a@ == b@),
{
    let n = a.unicode_len();
    let m = b.unicode_len();
    if n != m {
        return false;
    }
    let mut i: usize = 0;
    while i < n
        invariant
            n == a@.len(),
            n == b@.len(),
            i <= n,
            forall|k: int| 0 <= k < i ==> a@[k] == b@[k],
        decreases n - i,
    {
        if a.get_char(i) != b.get_char(i) {
            return false;
        }
        i += 1;
    }
    proof {
        assert(a@ =~= b@);
    }
    true
}

/// `pat` occurs somewhere in `s`.
pub open spec fn contains_sub(s: Seq<char>, pat: Seq<char>) -> bool {
    find_sub_spec(s, pat) is Some
}

/// Does `pat` occur in `s`?
pub fn contains(s: &str, pat: &str) -> (r: bool)
    ensures
        r == contains_sub(s@, pat@),
{
    match find_sub(s, pat) {
        Some(_) => true,
        None => false,
    }
}

proof fn lemma_find_from_some(s: Seq<char>, pat: Seq<char>, i: int, j: int)
    requires
        0 <= j <= i,
        match_at(s, pat, i),
    ensures
        find_from(s, pat, j) is Some,
    decreases i - j,
{
    if !match_at(s, pat, j) {
        lemma_find_from_some(s, pat, i, j + 1);
    }
}

/// `pat` occurs in `s` exactly when some position matches it.
pub proof fn lemma_contains_iff(s: Seq<char>, pat: Seq<char>)
    ensures
        contains_sub(s, pat) <==> exists|i: int| match_at(s, pat, i),
{
    if contains_sub(s, pat) {
        lemma_find_from_match(s, pat, 0);
        let j = find_from(s, pat, 0)->Some_0;
        assert(match_at(s, pat, j));
    }
    if exists|i: int| match_at(s, pat, i) {
        let i = choose|i: int| match_at(s, pat, i);
        lemma_find_from_some(s, pat, i, 0);
    }
}

/// A pattern absent from `s` is absent from every slice of `s`.
pub proof fn lemma_no_sub_in_subrange(s: Seq<char>, pat: Seq<char>, a: int, b: int)
    requires
        !contains_sub(s, pat),
        0 <= a <= b <= s.len(),
    ensures
        !contains_sub(s.subrange(a, b), pat),
{
    lemma_contains_iff(s, pat);
    lemma_contains_iff(s.subrange(a, b), pat);
    if contains_sub(s.subrange(a, b), pat) {
        let k = choose|k: int| match_at(s.subrange(a, b), pat, k);
        assert(s.subrange(a + k, a + k + pat.len() as int) =~= s.subrange(a, b).subrange(
            k,
            k + pat.len() as int,
        ));
        assert(match_at(s, pat, a + k));
    }
}

/// Index of the first non-whitespace character at or after `i` (or `s.len()`).
pub open spec fn skip_ws_front(s: Seq<char>, i: int) -> int
    decreases s.len() - i,
{
    if i < 0 || i >= s.len() {
        i
    } else if is_ws_char(s[i]) {
        skip_ws_front(s, i + 1)
    } else {
        i
    }
}

/// One past the last non-whitespace character strictly before `j` (or `0`).
pub open spec fn skip_ws_back(s: Seq<char>, j: int) -> int
    decreases j,
{
    if j <= 0 {
        0
    } else if is_ws_char(s[j - 1]) {
        skip_ws_back(s, j - 1)
    } else {
        j
    }
}

/// `s` with leading and trailing whitespace removed, as `str::trim` does.
pub open spec fn trimmed(s: Seq<char>) -> Seq<char> {
    let a = skip_ws_front(s, 0);
    let b = skip_ws_back(s, s.len() as int);
    if a <= b {
        s.subrange(a, b)
    } else {
        Seq::empty()
    }
}

proof fn lemma_skip_ws_back_le(s: Seq<char>, j: int)
    requires
        0 <= j,
    ensures
        skip_ws_back(s, j) <= j,
    decreases j,
{
    if j > 0 && is_ws_char(s[j - 1]) {
        lemma_skip_ws_back_le(s, j - 1);
    }
}

/// Remove leading and trailing whitespace.
pub fn trim_str(s: &str) -> (t: String)
    ensures
        t@ == trimmed(s@),
{
    let n = s.unicode_len();
    let mut a: usize = 0;
    while a < n && ws_char(s.get_char(a))
        invariant
            n == s@.len(),
            a <= n,
            skip_ws_front(s@, 0) == skip_ws_front(s@, a as int),
            forall|k: int| 0 <= k < a ==> is_ws_char(s@[k]),
        decreases n - a,
    {
        a += 1;
    }
    if a == n {
        // The whole string is whitespace.
        if n == 0 {
            assert(trimmed(s@) =~= Seq::<char>::empty());
        } else {
            proof {
                assert(is_ws_char(s@[n - 1]));
                lemma_skip_ws_back_le(s@, n - 1);
                assert(skip_ws_back(s@, n as int) < n);
                assert(skip_ws_front(s@, 0) == n);
            }
        }
        return String::new();
    }
    assert(skip_ws_front(s@, 0) == a as int);
    assert(!is_ws_char(s@[a as int]));
    let mut b: usize = n;
    while b > a && ws_char(s.get_char(b - 1))
        invariant
            n == s@.len(),
            a < n,
            a <= b <= n,
            !is_ws_char(s@[a as int]),
            b > a,
            skip_ws_back(s@, n as int) == skip_ws_back(s@, b as int),
        decreases b,
    {
        b -= 1;
        // The scan can never pass the first non-whitespace character.
        if b == a {
            assert(false);
        }
    }
    assert(b > a && !is_ws_char(s@[b - 1]));
    assert(skip_ws_back(s@, n as int) == b as int);
    assert(trimmed(s@) == s@.subrange(a as int, b as int));
    s.substring_char(a, b).to_owned()
}

/// The text from position `i` on with every whitespace run collapsed: words
/// separated by single spaces, no leading or trailing whitespace.  `seen` says
/// whether a word was already emitted before `i`.
pub open spec fn norm_at(s: Seq<char>, i: int, seen: bool) -> Seq<char>
    decreases s.len() - i,
{
    if i < 0 || i >= s.len() {
        Seq::empty()
    } else if is_ws_char(s[i]) {
        norm_at(s, i + 1, seen)
    } else {
        let sep: Seq<char> = if seen && i > 0 && is_ws_char(s[i - 1]) {
            seq![' ']
        } else {
            Seq::empty()
        };
        sep + seq![s[i]] + norm_at(s, i + 1, true)
    }
}

/// `s` with whitespace runs collapsed to single spaces and the ends stripped,
/// as joining `str::split_whitespace` with `" "` does.
pub open spec fn normalized(s: Seq<char>) -> Seq<char> {
    norm_at(s, 0, false)
}

/// Collapse whitespace runs to single spaces and strip both ends.
pub fn normalize_ws(s: &str) -> (t: String)
    ensures
        t@ == normalized(s@),
{
    let n = s.unicode_len();
    let mut out = String::new();
    let mut seen = false;
    let mut prev_ws = false;
    let mut i: usize = 0;
    while i < n
        invariant
            n == s@.len(),
            i <= n,
            i > 0 ==> prev_ws == is_ws_char(s@[i - 1]),
            out@ + norm_at(s@, i as int, seen) == normalized(s@),
        decreases n - i,
    {
        let c = s.get_char(i);
        if ws_char(c) {
            prev_ws = true;
        } else {
            if seen && i > 0 && prev_ws {
                out.push(' ');
            }
            out.push(c);
            seen = true;
            prev_ws = false;
        }
        i += 1;
    }
    out
}

/// The first `cap` characters of `s` (all of it if shorter), whitespace
/// normalised: how extracted document text is condensed before classification.
pub open spec fn excerpt_spec(s: Seq<char>, cap: int) -> Seq<char> {
    let k = if s.len() <= cap {
        s.len() as int
    } else {
        cap
    };
    normalized(s.subrange(0, k))
}

/// Take at most `cap` characters and normalise whitespace.
pub fn excerpt(s: &str, cap: usize) -> (t: String)
    ensures
        t@ == excerpt_spec(s@, cap as int),
{
    let n = s.unicode_len();
    let k = if n <= cap {
        n
    } else {
        cap
    };
    let prefix = s.substring_char(0, k);
    normalize_ws(prefix)
}

/// The decimal digit character for `d`.
pub open spec fn dec_digit(d: int) -> char {
    if d == 0 {
        '0'
    } else if d == 1 {
        '1'
    } else if d == 2 {
        '2'
    } else if d == 3 {
        '3'
    } else if d == 4 {
        '4'
    } else if d == 5 {
        '5'
    } else if d == 6 {
        '6'
    } else if d == 7 {
        '7'
    } else if d == 8 {
        '8'
    } else {
        '9'
    }
}

/// The decimal rendering of `n`, without sign or leading zeros.
pub open spec fn dec_str(n: nat) -> Seq<char>
    decreases n,
{
    if n < 10 {
        seq![dec_digit(n as int)]
    } else {
        dec_str(n / 10) + seq![dec_digit((n % 10) as int)]
    }
}

fn dec_digit_char(d: u64) -> (c: char)
    requires
        d < 10,
    ensures
        c == dec_digit(d as int),
{
    if d == 0 {
        '0'
    } else if d == 1 {
        '1'
    } else if d == 2 {
        '2'
    } else if d == 3 {
        '3'
    } else if d == 4 {
        '4'
    } else if d == 5 {
        '5'
    } else if d == 6 {
        '6'
    } else if d == 7 {
        '7'
    } else if d == 8 {
        '8'
    } else {
        '9'
    }
}

/// Render `n` in decimal.
pub fn u64_to_string(n: u64) -> (s: String)
    ensures
        s@ == dec_str(n as nat),
    decreases n,
{
    if n < 10 {
        let mut s = String::new();
        s.push(dec_digit_char(n));
        proof {
            assert(s@ =~= dec_str(n as nat));
        }
        s
    } else {
        let mut s = u64_to_string(n / 10);
        s.push(dec_digit_char(n % 10));
        s
    }
}

/// `c` with an ASCII capital letter mapped to its small form; any other
/// character is kept.
pub open spec fn ascii_lower_char(c: char) -> char {
    if 'A' <= c && c <= 'Z' {
        ((c as u8) + 32) as char
    } else {
        c
    }
}

/// `s` with every ASCII capital letter lowered.
pub open spec fn ascii_lowered(s: Seq<char>) -> Seq<char> {
    s.map_values(|c: char| ascii_lower_char(c))
}

/// Lower-case the ASCII letters of `s`.
pub fn ascii_lower(s: &str) -> (t: String)
    ensures
        t@ == ascii_lowered(s@),
{
    let n = s.unicode_len();
    let mut out = String::new();
    let mut i: usize = 0;
    while i < n
        invariant
            n == s@.len(),
            i <= n,
            out@ == ascii_lowered(s@).take(i as int),
        decreases n - i,
    {
        let c = s.get_char(i);
        let lc: char = if 'A' <= c && c <= 'Z' {
            (((c as u8) + 32) as char)
        } else {
            c
        };
        out.push(lc);
        proof {
            assert(out@ =~= ascii_lowered(s@).take(i + 1));
        }
        i += 1;
    }
    proof {
        assert(ascii_lowered(s@).take(n as int) =~= ascii_lowered(s@));
    }
    out
}

} // verus!

