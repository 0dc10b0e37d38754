//! Character-level helpers shared by the scanner and the field parsers.
use vstd::prelude::*;

verus! {

/// Unicode White_Space, as `str::trim` and `str::split_whitespace` use it:
/// the characters that trimming and word splitting skip.
pub open spec fn is_ws(c: char) -> bool {
    ('\u{9}' <= c && c <= '\u{d}') || c == ' ' || c == '\u{85}' || c == '\u{a0}' || c
        == '\u{1680}' || ('\u{2000}' <= c && c <= '\u{200a}') || c == '\u{2028}' || c
        == '\u{2029}' || c == '\u{202f}' || c == '\u{205f}' || c == '\u{3000}'
}

/// First index at or after `i` whose character is not whitespace.
pub open spec fn skip_ws(s: Seq<char>, i: int) -> int
    decreases s.len() - i,
{
    if 0 <= i < s.len() && is_ws(s[i]) {
        skip_ws(s, i + 1)
    } else {
        i
    }
}

/// Largest `k <= j` such that `s[k - 1]` is not whitespace (or `k == 0`).
pub open spec fn skip_ws_back(s: Seq<char>, j: int) -> int
    decreases j,
{
    if 0 < j <= s.len() && is_ws(s[j - 1]) {
        skip_ws_back(s, j - 1)
    } else {
        j
    }
}

/// `s` without leading and trailing whitespace.
pub open spec fn trim(s: Seq<char>) -> Seq<char> {
    let lo = skip_ws(s, 0);
    let hi = skip_ws_back(s, s.len() as int);
    if lo < hi {
        s.subrange(lo, hi)
    } else {
        Seq::empty()
    }
}

/// First index at or after `i` holding `c`, or `s.len()`.
pub open spec fn find_char(s: Seq<char>, c: char, i: int) -> int
    decreases s.len() - i,
{
    if i < 0 || i >= s.len() {
        s.len() as int
    } else if s[i] == c {
        i
    } else {
        find_char(s, c, i + 1)
    }
}

/// The pieces of `s` between occurrences of `c`, where the current piece
/// began at `start` and `i` is the next character to look at.
pub open spec fn split_from(s: Seq<char>, c: char, start: int, i: int) -> Seq<Seq<char>>
    decreases s.len() - i,
{
    if i >= s.len() {
        seq![s.subrange(start, s.len() as int)]
    } else if s[i] == c {
        seq![s.subrange(start, i)] + split_from(s, c, i + 1, i + 1)
    } else {
        split_from(s, c, start, i + 1)
    }
}

/// The pieces of `s` between occurrences of `c`: one more than there are `c`s.
pub open spec fn split_on(s: Seq<char>, c: char) -> Seq<Seq<char>> {
    split_from(s, c, 0, 0)
}

/// Every piece trimmed, the pieces that are then empty left out.
pub open spec fn trimmed_nonempty(ps: Seq<Seq<char>>) -> Seq<Seq<char>>
    decreases ps.len(),
{
    if ps.len() == 0 {
        Seq::empty()
    } else {
        let rest = trimmed_nonempty(ps.drop_last());
        let t = trim(ps.last());
        if t.len() == 0 {
            rest
        } else {
            rest.push(t)
        }
    }
}

/// The non-empty runs of non-whitespace characters of `s`, where the current
/// run began at `start` and `i` is the next character to look at.
pub open spec fn words_from(s: Seq<char>, start: int, i: int) -> Seq<Seq<char>>
    decreases s.len() - i,
{
    if i >= s.len() {
        if start < s.len() {
            seq![s.subrange(start, s.len() as int)]
        } else {
            Seq::empty()
        }
    } else if is_ws(s[i]) {
        if start < i {
            seq![s.subrange(start, i)] + words_from(s, i + 1, i + 1)
        } else {
            words_from(s, i + 1, i + 1)
        }
    } else {
        words_from(s, start, i + 1)
    }
}

/// The whitespace-separated words of `s`.
pub open spec fn words(s: Seq<char>) -> Seq<Seq<char>> {
    words_from(s, 0, 0)
}

/// The views of a vector of strings.
pub open spec fn views(v: Seq<String>) -> Seq<Seq<char>> {
    v.map_values(|x: String| x@)
}

/// The views of a vector of string slices.
pub open spec fn str_views(v: Seq<&str>) -> Seq<Seq<char>> {
    v.map_values(|x: &str| x@)
}

/// First index at or after `i` holding `c`, or the length of `s`.
pub fn find_char_from(s: &str, c: char, i: usize) -> (r: usize)
    requires
        i <= s@.len(),
    ensures
        r == find_char(s@, c, i as int),
        i <= r <= s@.len(),
{
    let n = s.unicode_len();
    let mut j = i;
    while j < n && s.get_char(j) != c
        invariant
            n == s@.len(),
            i <= j <= n,
            find_char(s@, c, j as int) == find_char(s@, c, i as int),
        decreases n - j,
    {
        j = j + 1;
    }
    j
}

/// Whether `c` is whitespace in the sense of `is_ws`.
pub fn char_is_ws(c: char) -> (r: bool)
    ensures
        r == is_ws(c),
{
    ('\u{9}' <= c && c <= '\u{d}') || c == ' ' || c == '\u{85}' || c == '\u{a0}' || c
        == '\u{1680}' || ('\u{2000}' <= c && c <= '\u{200a}') || c == '\u{2028}' || c
        == '\u{2029}' || c == '\u{202f}' || c == '\u{205f}' || c == '\u{3000}'
}

/// `s` without leading and trailing whitespace.
pub fn trim_str(s: &str) -> (r: &str)
    ensures
        r@ == trim(s@),
{
    let n = s.unicode_len();
    let mut lo: usize = 0;
    while lo < n && char_is_ws(s.get_char(lo))
        invariant
            n == s@.len(),
            lo <= n,
            skip_ws(s@, lo as int) == skip_ws(s@, 0),
        decreases n - lo,
    {
        lo = lo + 1;
    }
    let mut hi: usize = n;
    while hi > 0 && char_is_ws(s.get_char(hi - 1))
        invariant
            n == s@.len(),
            hi <= n,
            skip_ws_back(s@, hi as int) == skip_ws_back(s@, n as int),
        decreases hi,
    {
        hi = hi - 1;
    }
    if lo < hi {
        s.substring_char(lo, hi)
    } else {
        let e = s.substring_char(0, 0);
        assert(e@ =~= Seq::<char>::empty());
        e
    }
}

/// Whether the two texts hold the same characters.
pub fn same_text(a: &str, b: &str) -> (r: bool)
    ensures
        r == (a@ == b@),
{
    let n = a.unicode_len();
    let m = b.unicode_len();
    if n != m {
        return false;
    }
    let mut i: usize = 0;
    while i < n
        invariant
            n == a@.len(),
            m == b@.len(),
            n == m,
            i <= n,
            forall|k: int| 0 <= k < i ==> a@[k] == b@[k],
        decreases n - i,
    {
        if a.get_char(i) != b.get_char(i) {
            return false;
        }
        i = i + 1;
    }
    assert(a@ =~= b@);
    true
}

/// The pieces of `s` between occurrences of `c`, as `str::split` gives them.
pub fn split_char(s: &str, c: char) -> (r: Vec<&str>)
    ensures
        str_views(r@) == split_on(s@, c),
{
    let n = s.unicode_len();
    let mut out: Vec<&str> = Vec::new();
    let mut start: usize = 0;
    let mut i: usize = 0;
    while i < n
        invariant
            n == s@.len(),
            start <= i <= n,
            str_views(out@) + split_from(s@, c, start as int, i as int) == split_on(s@, c),
        decreases n - i,
    {
        if s.get_char(i) == c {
            let piece = s.substring_char(start, i);
            let ghost before = out@;
            out.push(piece);
            assert(str_views(out@) =~= str_views(before).push(piece@)) by {
                assert(out@ == before.push(piece));
            }
            assert(str_views(out@) + split_from(s@, c, i + 1, i + 1) =~= split_on(s@, c));
            start = i + 1;
        }
        i = i + 1;
    }
    let last = s.substring_char(start, n);
    let ghost before = out@;
    out.push(last);
    assert(str_views(out@) =~= str_views(before).push(last@)) by {
        assert(out@ == before.push(last));
    }
    assert(str_views(out@) =~= split_on(s@, c));
    out
}

/// The whitespace-separated words of `s`, as `str::split_whitespace` gives them.
pub fn split_words(s: &str) -> (r: Vec<&str>)
    ensures
        str_views(r@) == words(s@),
{
    let n = s.unicode_len();
    let mut out: Vec<&str> = Vec::new();
    let mut start: usize = 0;
    let mut i: usize = 0;
    while i < n
        invariant
            n == s@.len(),
            start <= i <= n,
            str_views(out@) + words_from(s@, start as int, i as int) == words(s@),
        decreases n - i,
    {
        if char_is_ws(s.get_char(i)) {
            if start < i {
                let piece = s.substring_char(start, i);
                let ghost before = out@;
                out.push(piece);
                assert(str_views(out@) =~= str_views(before).push(piece@)) by {
                    assert(out@ == before.push(piece));
                }
                assert(str_views(out@) + words_from(s@, i + 1, i + 1) =~= words(s@));
            }
            start = i + 1;
        }
        i = i + 1;
    }
    if start < n {
        let last = s.substring_char(start, n);
        let ghost before = out@;
        out.push(last);
        assert(str_views(out@) =~= str_views(before).push(last@)) by {
            assert(out@ == before.push(last));
        }
    }
    assert(str_views(out@) =~= words(s@));
    out
}

} // verus!
