//! Character-level helpers shared by the parsers.

use vstd::prelude::*;
use vstd::string::StrSliceExecFns;

verus! {

/// Whether `c` is Unicode white space, the set that `str::trim` removes.
pub open spec fn is_space(c: char) -> bool {
    let u = c as u32;
    ||| 0x09 <= u <= 0x0d
    ||| u == 0x20
    ||| u == 0x85
    ||| u == 0xa0
    ||| u == 0x1680
    ||| 0x2000 <= u <= 0x200a
    ||| u == 0x2028
    ||| u == 0x2029
    ||| u == 0x202f
    ||| u == 0x205f
    ||| u == 0x3000
}

/// Tests a character for Unicode white space.
pub fn is_whitespace(c: char) -> (r: bool)
    ensures
        r == is_space(c),
{
    let u: u32 = c as u32;
    (0x09 <= u && u <= 0x0d) || u == 0x20 || u == 0x85 || u == 0xa0 || u == 0x1680 || (0x2000 <= u
        && u <= 0x200a) || u == 0x2028 || u == 0x2029 || u == 0x202f || u == 0x205f || u == 0x3000
}

/// The characters of `s`, in order.
pub fn chars_of(s: &str) -> (r: Vec<char>)
    ensures
        r@ == s@,
{
    let mut out: Vec<char> = Vec::new();
    for c in it: s.chars()
        invariant
            out@ == it.seq().take(it.index() as int),
            it.seq() == s@,
    {
        out.push(c);
    }
    out
}

/// Whether two strings hold the same characters.
pub fn str_eq(a: &str, b: &str) -> (r: bool)
    ensures
        r == (a@ == b@),
{
    let n: usize = a.unicode_len();
    if n != b.unicode_len() {
        return false;
    }
    let mut i: usize = 0;
    while i < n
        invariant
            n == a@.len(),
            n == b@.len(),
            i <= n,
            forall|k: int| 0 <= k < i ==> a@[k] == b@[k],
        decreases n - i,
    {
        if a.get_char(i) != b.get_char(i) {
            return false;
        }
        i += 1;
    }
    assert(a@ =~= b@);
    true
}

/// The character sequences of a sequence of strings.
pub open spec fn strings_view(v: Seq<String>) -> Seq<Seq<char>> {
    Seq::new(v.len(), |i: int| v[i]@)
}

/// The first position at or after `start` at which `s` holds `c`, or the length
/// of `s` where there is none.
pub open spec fn find_char(s: Seq<char>, start: int, c: char) -> int
    decreases s.len() - start,
{
    if start < 0 || start >= s.len() {
        s.len() as int
    } else if s[start] == c {
        start
    } else {
        find_char(s, start + 1, c)
    }
}

/// The first position at or after `start` at which `s` holds something other
/// than `c`, or the length of `s` where there is none.
pub open spec fn skip_char(s: Seq<char>, start: int, c: char) -> int
    decreases s.len() - start,
{
    if start < 0 || start >= s.len() {
        s.len() as int
    } else if s[start] != c {
        start
    } else {
        skip_char(s, start + 1, c)
    }
}

/// The first position at or after `start` that holds no white space, or the
/// length of `s`.
pub open spec fn skip_space(s: Seq<char>, start: int) -> int
    decreases s.len() - start,
{
    if start < 0 || start >= s.len() {
        s.len() as int
    } else if !is_space(s[start]) {
        start
    } else {
        skip_space(s, start + 1)
    }
}

/// The end of `s[lo..hi]` once the white space at its end is dropped.
pub open spec fn drop_space_end(s: Seq<char>, lo: int, hi: int) -> int
    decreases hi,
{
    if hi <= lo || hi > s.len() || lo < 0 {
        hi
    } else if !is_space(s[hi - 1]) {
        hi
    } else {
        drop_space_end(s, lo, hi - 1)
    }
}

/// `s` without the white space at its two ends.
pub open spec fn trimmed(s: Seq<char>) -> Seq<char> {
    let lo = skip_space(s, 0);
    s.subrange(lo, drop_space_end(s, lo, s.len() as int))
}

/// What `find_char` returns lies between `start` and the end, nothing before
/// it is `c`, and it holds `c` unless it is the end.
pub proof fn lemma_find_char(s: Seq<char>, start: int, c: char)
    requires
        0 <= start <= s.len(),
    ensures
        start <= find_char(s, start, c) <= s.len(),
        find_char(s, start, c) < s.len() ==> s[find_char(s, start, c)] == c,
        forall|k: int| start <= k < find_char(s, start, c) ==> s[k] != c,
    decreases s.len() - start,
{
    if start < s.len() && s[start] != c {
        lemma_find_char(s, start + 1, c);
    }
}

/// What `skip_char` returns lies between `start` and the end, everything
/// before it is `c`, and it holds something else unless it is the end.
pub proof fn lemma_skip_char(s: Seq<char>, start: int, c: char)
    requires
        0 <= start <= s.len(),
    ensures
        start <= skip_char(s, start, c) <= s.len(),
        skip_char(s, start, c) < s.len() ==> s[skip_char(s, start, c)] != c,
        forall|k: int| start <= k < skip_char(s, start, c) ==> s[k] == c,
    decreases s.len() - start,
{
    if start < s.len() && s[start] == c {
        lemma_skip_char(s, start + 1, c);
    }
}

/// The bounds of a trimmed string lie in order inside the string, and no
/// white space stands at either end of it.
pub proof fn lemma_trimmed(s: Seq<char>)
    ensures
        0 <= skip_space(s, 0) <= drop_space_end(s, skip_space(s, 0), s.len() as int) <= s.len(),
        trimmed(s).len() > 0 ==> !is_space(trimmed(s)[0]) && !is_space(trimmed(s).last()),
{
    lemma_skip_space(s, 0);
    lemma_drop_space_end(s, skip_space(s, 0), s.len() as int);
}

/// Bounds of `skip_space`, and what it stops at.
pub proof fn lemma_skip_space(s: Seq<char>, start: int)
    requires
        0 <= start <= s.len(),
    ensures
        start <= skip_space(s, start) <= s.len(),
        skip_space(s, start) < s.len() ==> !is_space(s[skip_space(s, start)]),
        forall|k: int| start <= k < skip_space(s, start) ==> is_space(s[k]),
    decreases s.len() - start,
{
    if start < s.len() && is_space(s[start]) {
        lemma_skip_space(s, start + 1);
    }
}

/// Bounds of `drop_space_end`, and what it stops at.
pub proof fn lemma_drop_space_end(s: Seq<char>, lo: int, hi: int)
    requires
        0 <= lo <= hi <= s.len(),
    ensures
        lo <= drop_space_end(s, lo, hi) <= hi,
        drop_space_end(s, lo, hi) > lo ==> !is_space(s[drop_space_end(s, lo, hi) - 1]),
        forall|k: int| drop_space_end(s, lo, hi) <= k < hi ==> is_space(s[k]),
    decreases hi,
{
    if hi > lo && is_space(s[hi - 1]) {
        lemma_drop_space_end(s, lo, hi - 1);
    }
}

/// Finds the first `c` at or after `start`.
pub fn find(s: &[char], start: usize, c: char) -> (r: usize)
    requires
        start <= s@.len(),
    ensures
        r == find_char(s@, start as int, c),
        start <= r <= s@.len(),
{
    let mut i: usize = start;
    while i < s.len() && s[i] != c
        invariant
            start <= i <= s@.len(),
            find_char(s@, start as int, c) == find_char(s@, i as int, c),
        decreases s@.len() - i,
    {
        i += 1;
    }
    i
}

/// Finds the first character other than `c` at or after `start`.
pub fn skip(s: &[char], start: usize, c: char) -> (r: usize)
    requires
        start <= s@.len(),
    ensures
        r == skip_char(s@, start as int, c),
        start <= r <= s@.len(),
{
    let mut i: usize = start;
    while i < s.len() && s[i] == c
        invariant
            start <= i <= s@.len(),
            skip_char(s@, start as int, c) == skip_char(s@, i as int, c),
        decreases s@.len() - i,
    {
        i += 1;
    }
    i
}

/// Drops the white space at the two ends of `s`.
pub fn trim(s: &[char]) -> (r: &[char])
    ensures
        r@ == trimmed(s@),
{
    let n: usize = s.len();
    let mut lo: usize = 0;
    while lo < n && is_whitespace(s[lo])
        invariant
            n == s@.len(),
            lo <= n,
            skip_space(s@, 0) == skip_space(s@, lo as int),
        decreases n - lo,
    {
        lo += 1;
    }
    let mut hi: usize = n;
    while hi > lo && is_whitespace(s[hi - 1])
        invariant
            n == s@.len(),
            lo <= hi <= n,
            drop_space_end(s@, lo as int, n as int) == drop_space_end(s@, lo as int, hi as int),
        decreases hi,
    {
        hi -= 1;
    }
    &s[lo..hi]
}

/// Builds a string from characters. Calls `Iterator::collect` of std, which
/// for `String` appends the characters in the order in which they come.
#[verifier::external_body]
pub(crate) fn string_from_chars(s: &[char]) -> (r: String)
    ensures
        r@ == s@,
{
    s.iter().collect()
}

} // verus!
