//! The tag grammar shared by the markup parser and the reducers: which
//! characters form a tag name, which count as white space, and where a
//! tag starts and ends.
use vstd::prelude::*;

verus! {

/// An ASCII letter, digit or underscore.
pub open spec fn is_word(c: char) -> bool {
    ('a' as u32 <= c as u32 <= 'z' as u32) || ('A' as u32 <= c as u32 <= 'Z' as u32) || (
    '0' as u32 <= c as u32 <= '9' as u32) || c == '_'
}

/// A character of a tag name: one of the Unicode word characters (the
/// `Alphabetic` and `Join_Control` properties, and the `Decimal_Number`,
/// `Mark` and `Connector_Punctuation` categories).
pub uninterp spec fn word_char(c: char) -> bool;

/// Relies on regex_syntax::is_word_character: whether `c` is a Unicode
/// word character, which depends on `c` alone. On ASCII it is exactly
/// `[0-9A-Za-z_]`, and no white-space character and no `>` is one. It
/// panics without the `unicode-perl` feature, which the default features
/// enable.
#[verifier::external_body]
fn is_word_char(c: char) -> (r: bool)
    ensures
        r == word_char(c),
        (c as u32) < 128 ==> (r == is_word(c)),
        is_space(c) ==> !r,
        c == '>' ==> !r,
{
    regex_syntax::is_word_character(c)
}

/// A Unicode white-space character.
pub open spec fn is_space(c: char) -> bool {
    let n = c as u32;
    (9 <= n <= 13) || n == 32 || n == 0x85 || n == 0xa0 || n == 0x1680 || (0x2000 <= n <= 0x200a)
        || n == 0x2028 || n == 0x2029 || n == 0x202f || n == 0x205f || n == 0x3000
}

/// First index at or after `j` that does not hold a name character.
pub open spec fn word_end(s: Seq<char>, j: int) -> int
    decreases s.len() - j,
{
    if j < 0 || j >= s.len() || !word_char(s[j]) {
        j
    } else {
        word_end(s, j + 1)
    }
}

/// First index at or after `j` that holds `c`, or the length of `s`.
pub open spec fn find_char(s: Seq<char>, c: char, j: int) -> int
    decreases s.len() - j,
{
    if j < 0 || j >= s.len() {
        s.len() as int
    } else if s[j] == c {
        j
    } else {
        find_char(s, c, j + 1)
    }
}

/// The tag that starts at `i`, if any, shaped `<name>`, `</name>`,
/// `<name attrs>` or `</name attrs>`, where attrs starts with white space
/// and runs to the first `>`: its end (one past the `>`), whether it
/// closes, and the bounds of its name.
pub open spec fn tag_at(s: Seq<char>, i: int) -> Option<(int, bool, int, int)> {
    if !(0 <= i < s.len() && s[i] == '<') {
        None
    } else {
        let closing = i + 1 < s.len() && s[i + 1] == '/';
        let j = if closing {
            i + 2
        } else {
            i + 1
        };
        let w = word_end(s, j);
        if w == j || w >= s.len() {
            None
        } else if s[w] == '>' {
            Some((w + 1, closing, j, w))
        } else if is_space(s[w]) && find_char(s, '>', w) < s.len() {
            Some((find_char(s, '>', w) + 1, closing, j, w))
        } else {
            None
        }
    }
}

pub proof fn lemma_word_end(s: Seq<char>, j: int)
    requires
        0 <= j <= s.len(),
    ensures
        j <= word_end(s, j) <= s.len(),
        forall|k: int| j <= k < word_end(s, j) ==> word_char(#[trigger] s[k]),
        word_end(s, j) < s.len() ==> !word_char(s[word_end(s, j)]),
    decreases s.len() - j,
{
    if j < s.len() && word_char(s[j]) {
        lemma_word_end(s, j + 1);
    }
}

pub proof fn lemma_find_char(s: Seq<char>, c: char, j: int)
    requires
        0 <= j <= s.len(),
    ensures
        j <= find_char(s, c, j) <= s.len(),
        forall|k: int| j <= k < find_char(s, c, j) ==> #[trigger] s[k] != c,
        find_char(s, c, j) < s.len() ==> s[find_char(s, c, j)] == c,
    decreases s.len() - j,
{
    if j < s.len() && s[j] != c {
        lemma_find_char(s, c, j + 1);
    }
}

pub proof fn lemma_tag_at(s: Seq<char>, i: int)
    ensures
        tag_at(s, i) matches Some((e, cl, ns, ne)) ==> i < ns < ne < e <= s.len() && ns <= i + 2,
{
    if 0 <= i < s.len() && s[i] == '<' {
        let closing = i + 1 < s.len() && s[i + 1] == '/';
        let j = if closing {
            i + 2
        } else {
            i + 1
        };
        if j <= s.len() {
            lemma_word_end(s, j);
            let w = word_end(s, j);
            if w < s.len() {
                lemma_find_char(s, '>', w);
            }
        }
    }
}

pub fn is_space_char(c: char) -> (r: bool)
    ensures
        r == is_space(c),
{
    let n = c as u32;
    (9 <= n && n <= 13) || n == 32 || n == 0x85 || n == 0xa0 || n == 0x1680 || (0x2000 <= n
        && n <= 0x200a) || n == 0x2028 || n == 0x2029 || n == 0x202f || n == 0x205f || n
        == 0x3000
}

pub fn word_end_from(v: &Vec<char>, j: usize) -> (r: usize)
    requires
        j <= v@.len(),
    ensures
        r == word_end(v@, j as int),
{
    let mut k = j;
    while k < v.len() && is_word_char(v[k])
        invariant
            j <= k <= v@.len(),
            word_end(v@, j as int) == word_end(v@, k as int),
        decreases v@.len() - k,
    {
        k = k + 1;
    }
    k
}

pub fn find_char_from(v: &Vec<char>, c: char, j: usize) -> (r: usize)
    requires
        j <= v@.len(),
    ensures
        r == find_char(v@, c, j as int),
{
    let mut k = j;
    while k < v.len() && v[k] != c
        invariant
            j <= k <= v@.len(),
            find_char(v@, c, j as int) == find_char(v@, c, k as int),
        decreases v@.len() - k,
    {
        k = k + 1;
    }
    k
}

pub fn tag_at_index(v: &Vec<char>, i: usize) -> (r: Option<(usize, bool, usize, usize)>)
    requires
        i < v@.len(),
    ensures
        r matches Some((e, cl, ns, ne)) ==> tag_at(v@, i as int) == Some(
            (e as int, cl, ns as int, ne as int),
        ),
        r is None ==> tag_at(v@, i as int) is None,
{
    if v[i] != '<' {
        return None;
    }
    let closing = i < v.len() - 1 && v[i + 1] == '/';
    let j = if closing {
        i + 2
    } else {
        i + 1
    };
    let w = word_end_from(v, j);
    proof {
        lemma_word_end(v@, j as int);
    }
    if w == j || w >= v.len() {
        None
    } else if v[w] == '>' {
        Some((w + 1, closing, j, w))
    } else if is_space_char(v[w]) {
        let g = find_char_from(v, '>', w);
        proof {
            lemma_find_char(v@, '>', w as int);
        }
        if g < v.len() {
            Some((g + 1, closing, j, w))
        } else {
            None
        }
    } else {
        None
    }
}

/// A copy of `v[lo..hi]`.
pub fn copy_range(v: &Vec<char>, lo: usize, hi: usize) -> (r: Vec<char>)
    requires
        lo <= hi <= v@.len(),
    ensures
        r@ == v@.subrange(lo as int, hi as int),
{
    let mut r: Vec<char> = Vec::new();
    let mut k = lo;
    while k < hi
        invariant
            lo <= k <= hi <= v@.len(),
            r@ == v@.subrange(lo as int, k as int),
        decreases hi - k,
    {
        r.push(v[k]);
        k = k + 1;
        assert(r@ =~= v@.subrange(lo as int, k as int));
    }
    r
}

} // verus!
