//! Plain-text reduction, rich-content detection, link extraction and
//! HTML sanitizing of untrusted notification bodies.
use vstd::prelude::*;
use crate::entities::{decode, decode_into, has_at, lemma_decode_len, matches_at};
use crate::scan::{
    copy_range, find_char, find_char_from, is_space, is_space_char, lemma_find_char, lemma_tag_at,
    tag_at,
};
use crate::markup_parser::{
    after_tag, after_text, initial_state, lemma_merge, newline_segment, parse_model, plain_text,
    scan_from, ParseModel, SegmentModel,
};
use crate::text::{chars_of, string_of};
use std::collections::HashSet;

pub use crate::entities::decode_entities;

verus! {

/// `s` from index `i` on, with every `<...>` run (a `<` up to the first
/// `>` after it) removed, scanning left to right.
pub open spec fn strip_from(s: Seq<char>, i: int) -> Seq<char>
    decreases s.len() - i,
{
    if i < 0 || i >= s.len() {
        Seq::empty()
    } else if s[i] == '<' && i < find_char(s, '>', i + 1) < s.len() {
        strip_from(s, find_char(s, '>', i + 1) + 1)
    } else {
        seq![s[i]] + strip_from(s, i + 1)
    }
}

/// `s` with every `<...>` run removed.
pub open spec fn strip_tags(s: Seq<char>) -> Seq<char> {
    strip_from(s, 0)
}

/// Decodes `s`; where that reveals tags, strips them and repeats on what
/// is left, until decoding reveals no tag.
pub open spec fn reduce(s: Seq<char>) -> Seq<char>
    decreases s.len(),
{
    let dec = decode(s);
    let d = strip_tags(dec);
    if d.len() < dec.len() && dec.len() <= s.len() {
        reduce(d)
    } else {
        dec
    }
}

/// The plain text of `s`: literal tags stripped, then entities decoded
/// and revealed tags stripped until none is revealed.
pub open spec fn plain_of(s: Seq<char>) -> Seq<char> {
    reduce(strip_tags(s))
}

proof fn lemma_strip_from_len(s: Seq<char>, i: int)
    requires
        0 <= i <= s.len(),
    ensures
        strip_from(s, i).len() <= s.len() - i,
        strip_from(s, i).len() == s.len() - i ==> strip_from(s, i) == s.subrange(i, s.len() as int),
    decreases s.len() - i,
{
    if i < s.len() {
        lemma_find_char(s, '>', i + 1);
        if s[i] == '<' && i < find_char(s, '>', i + 1) < s.len() {
            lemma_strip_from_len(s, find_char(s, '>', i + 1) + 1);
        } else {
            lemma_strip_from_len(s, i + 1);
            assert(s.subrange(i, s.len() as int) =~= seq![s[i]] + s.subrange(i + 1, s.len() as int));
        }
    } else {
        assert(s.subrange(i, s.len() as int) =~= Seq::<char>::empty());
    }
}

/// Stripping never lengthens the text, and keeps its length only where it
/// finds no tag.
pub proof fn lemma_strip_len(s: Seq<char>)
    ensures
        strip_tags(s).len() <= s.len(),
        strip_tags(s).len() == s.len() ==> strip_tags(s) == s,
{
    lemma_strip_from_len(s, 0);
    assert(s.subrange(0, s.len() as int) =~= s);
}

/// The reduced text holds no tag: stripping it changes nothing.
pub proof fn lemma_reduce_no_tags(s: Seq<char>)
    ensures
        strip_tags(reduce(s)) == reduce(s),
    decreases s.len(),
{
    let dec = decode(s);
    let d = strip_tags(dec);
    lemma_decode_len(s);
    lemma_strip_len(dec);
    if d.len() < dec.len() && dec.len() <= s.len() {
        lemma_reduce_no_tags(d);
    }
}

/// `v` with every `<...>` run removed.
fn strip_tags_vec(v: &Vec<char>) -> (r: Vec<char>)
    ensures
        r@ == strip_tags(v@),
{
    let n = v.len();
    let mut out: Vec<char> = Vec::new();
    let mut i: usize = 0;
    while i < n
        invariant
            n == v@.len(),
            i <= n,
            out@ + strip_from(v@, i as int) == strip_tags(v@),
        decreases n - i,
    {
        if v[i] == '<' {
            let g = find_char_from(v, '>', i + 1);
            proof {
                lemma_find_char(v@, '>', i + 1);
            }
            if g < n {
                i = g + 1;
                continue;
            }
        }
        let ghost before = out@;
        out.push(v[i]);
        assert(before + strip_from(v@, i as int) == out@ + strip_from(v@, i + 1)) by {
            assert(before + (seq![v@[i as int]] + strip_from(v@, i + 1)) =~= out@ + strip_from(v@, i + 1));
        }
        i = i + 1;
    }
    assert(out@ + strip_from(v@, i as int) =~= out@);
    out
}

/// Strips all markup, returning plain text.
///
/// Literal tags are removed first, while entity-encoded text is still
/// inert; the rest is then decoded, and any tags that decoding revealed
/// are removed, repeating until decoding reveals no further tag. Text
/// between tags is kept as it is, with nothing inserted.
pub fn strip_html(html: &str) -> (r: String)
    ensures
        r@ == plain_of(html@),
        strip_tags(r@) == r@,
{
    let v = chars_of(html);
    let mut s = strip_tags_vec(&v);
    proof {
        lemma_reduce_no_tags(strip_tags(html@));
    }
    loop
        invariant
            reduce(s@) == plain_of(html@),
        decreases s@.len(),
    {
        let mut dec = String::new();
        decode_into(&s, 0, s.len(), &mut dec);
        let dv = chars_of(dec.as_str());
        assert(s@.subrange(0, s@.len() as int) =~= s@);
        assert(dv@ =~= decode(s@));
        let d = strip_tags_vec(&dv);
        proof {
            lemma_decode_len(s@);
            lemma_strip_len(dv@);
        }
        if d.len() < dv.len() {
            s = d;
        } else {
            return dec;
        }
    }
}

/// Skips white space from `j` on.
pub open spec fn skip_spaces(s: Seq<char>, j: int) -> int
    decreases s.len() - j,
{
    if j < 0 || j >= s.len() || !is_space(s[j]) {
        j
    } else {
        skip_spaces(s, j + 1)
    }
}

/// At `k` a tag closes: a `>` there, or white space there and a `>` later.
pub open spec fn tag_closes_at(s: Seq<char>, k: int) -> bool {
    0 <= k < s.len() && (s[k] == '>' || (is_space(s[k]) && find_char(s, '>', k) < s.len()))
}

/// A tag of the allowed vocabulary starts at `i`: `<`, optional white
/// space, an optional `/`, then `b`, `i`, `u`, `a`, `p` or `br` (exactly
/// these lowercase names), closed as `tag_closes_at` says.
pub open spec fn rich_tag_at(s: Seq<char>, i: int) -> bool {
    0 <= i < s.len() && s[i] == '<' && {
        let j0 = skip_spaces(s, i + 1);
        let j = if j0 < s.len() && s[j0] == '/' {
            j0 + 1
        } else {
            j0
        };
        (j < s.len() && (s[j] == 'b' || s[j] == 'i' || s[j] == 'u' || s[j] == 'a' || s[j] == 'p')
            && tag_closes_at(s, j + 1)) || (has_at(s, j, seq!['b', 'r']) && tag_closes_at(s, j + 2))
    }
}

fn skip_spaces_from(v: &Vec<char>, j: usize) -> (r: usize)
    requires
        j <= v@.len(),
    ensures
        r == skip_spaces(v@, j as int),
        j <= r <= v@.len(),
{
    let mut k = j;
    while k < v.len() && is_space_char(v[k])
        invariant
            j <= k <= v@.len(),
            skip_spaces(v@, j as int) == skip_spaces(v@, k as int),
        decreases v@.len() - k,
    {
        k = k + 1;
    }
    k
}

fn tag_closes_at_index(v: &Vec<char>, k: usize) -> (r: bool)
    ensures
        r == tag_closes_at(v@, k as int),
{
    if k >= v.len() {
        return false;
    }
    if v[k] == '>' {
        return true;
    }
    if is_space_char(v[k]) {
        let g = find_char_from(v, '>', k);
        g < v.len()
    } else {
        false
    }
}

fn rich_tag_at_index(v: &Vec<char>, i: usize) -> (r: bool)
    requires
        i < v@.len(),
    ensures
        r == rich_tag_at(v@, i as int),
{
    let n = v.len();
    if v[i] != '<' {
        return false;
    }
    let j0 = skip_spaces_from(v, i + 1);
    let j = if j0 < v.len() && v[j0] == '/' {
        j0 + 1
    } else {
        j0
    };
    let br = vec!['b', 'r'];
    assert(br@ =~= seq!['b', 'r']);
    let single = j < v.len() && (v[j] == 'b' || v[j] == 'i' || v[j] == 'u' || v[j] == 'a' || v[j]
        == 'p') && tag_closes_at_index(v, j + 1);
    if single {
        return true;
    }
    matches_at(v, j, &br) && j <= v.len() - 2 && tag_closes_at_index(v, j + 2)
}

/// Whether `text` holds a tag of the allowed vocabulary (`b`, `i`, `u`,
/// `a`, `p`, `br`). Escaped entities and lone angle brackets do not count.
pub fn has_rich_content(text: &str) -> (r: bool)
    ensures
        r == exists|i: int| rich_tag_at(text@, i),
{
    let v = chars_of(text);
    let n = v.len();
    let mut i: usize = 0;
    while i < n
        invariant
            n == v@.len(),
            v@ == text@,
            i <= n,
            forall|k: int| 0 <= k < i ==> !rich_tag_at(v@, k),
        decreases n - i,
    {
        if rich_tag_at_index(&v, i) {
            return true;
        }
        i = i + 1;
    }
    assert forall|k: int| !rich_tag_at(text@, k) by {
        if 0 <= k < n {
        }
    }
    false
}

pub open spec fn is_quote(c: char) -> bool {
    c == '"' || c == '\''
}

/// First index at or after `j` holding a quote, or the length of `s`.
pub open spec fn quote_from(s: Seq<char>, j: int) -> int
    decreases s.len() - j,
{
    if j < 0 || j >= s.len() {
        s.len() as int
    } else if is_quote(s[j]) {
        j
    } else {
        quote_from(s, j + 1)
    }
}

/// The rest of an anchor whose `href` starts at `h`: white space, `=`,
/// white space, a quote, a non-empty url up to the next quote, the tag's
/// remaining attributes up to `>`, the text up to the next `<`, and then
/// exactly `</a>`. Gives the url's bounds, the text's bounds, and the end.
pub open spec fn anchor_rest(s: Seq<char>, h: int) -> Option<(int, int, int, int, int)> {
    let p = skip_spaces(s, h + 4);
    let q = skip_spaces(s, p + 1);
    let e = quote_from(s, q + 1);
    let g = find_char(s, '>', e + 1);
    let t = find_char(s, '<', g + 1);
    if 0 <= h && p < s.len() && s[p] == '=' && q < s.len() && is_quote(s[q]) && q + 1 < e < s.len()
        && g < s.len() && has_at(s, t, seq!['<', '/', 'a', '>']) {
        Some((q + 1, e, g + 1, t, t + 4))
    } else {
        None
    }
}

pub open spec fn href_word() -> Seq<char> {
    seq!['h', 'r', 'e', 'f']
}

/// The anchor starting at `i`, taking its `href` at the latest position
/// `h` at or below the given one, and above `i + 2`, that completes.
pub open spec fn anchor_from_h(s: Seq<char>, i: int, h: int) -> Option<(int, int, int, int, int)>
    decreases h - i,
{
    if h < i + 3 {
        None
    } else if has_at(s, h, href_word()) && anchor_rest(s, h) is Some {
        anchor_rest(s, h)
    } else {
        anchor_from_h(s, i, h - 1)
    }
}

/// The anchor element starting at `i`, if any: `<a`, white space, other
/// attributes without `>`, then `href` as `anchor_rest` says.
pub open spec fn anchor_at(s: Seq<char>, i: int) -> Option<(int, int, int, int, int)> {
    if has_at(s, i, seq!['<', 'a']) && i + 2 < s.len() && is_space(s[i + 2]) {
        anchor_from_h(s, i, find_char(s, '>', i + 2) - 4)
    } else {
        None
    }
}

/// The (url, text) pairs of the anchors in `s` from `i` on, scanning left
/// to right without overlap.
pub open spec fn anchors_from(s: Seq<char>, i: int) -> Seq<(Seq<char>, Seq<char>)>
    decreases s.len() - i,
{
    if i < 0 || i >= s.len() {
        Seq::empty()
    } else {
        match anchor_at(s, i) {
            Some((ul, uh, tl, th, end)) => if i < end <= s.len() {
                seq![(s.subrange(ul, uh), s.subrange(tl, th))] + anchors_from(s, end)
            } else {
                Seq::empty()
            },
            None => anchors_from(s, i + 1),
        }
    }
}

/// `url` starts with `https://`, `http://` or `mailto:`.
pub open spec fn is_safe_url(url: Seq<char>) -> bool {
    has_at(url, 0, seq!['h', 't', 't', 'p', 's', ':', '/', '/']) || has_at(
        url,
        0,
        seq!['h', 't', 't', 'p', ':', '/', '/'],
    ) || has_at(url, 0, seq!['m', 'a', 'i', 'l', 't', 'o', ':'])
}

/// Some pair of `links` has the url `url`.
pub open spec fn has_url(links: Seq<(Seq<char>, Seq<char>)>, url: Seq<char>) -> bool {
    exists|k: int| 0 <= k < links.len() && (#[trigger] links[k]).0 == url
}

/// The pairs of `found` with a safe url, each url kept at its first
/// occurrence only.
pub open spec fn keep_links(found: Seq<(Seq<char>, Seq<char>)>) -> Seq<(Seq<char>, Seq<char>)>
    decreases found.len(),
{
    if found.len() == 0 {
        found
    } else {
        let acc = keep_links(found.drop_last());
        let x = found.last();
        if is_safe_url(x.0) && !has_url(acc, x.0) {
            acc.push(x)
        } else {
            acc
        }
    }
}

/// The links of `s`: the anchors of `s` itself, then those of its decoded
/// form, filtered and deduplicated by `keep_links`.
pub open spec fn links_of(s: Seq<char>) -> Seq<(Seq<char>, Seq<char>)> {
    keep_links(anchors_from(s, 0) + anchors_from(decode(s), 0))
}

/// Every kept link has a safe url, and no url is kept twice.
pub proof fn lemma_keep_links(found: Seq<(Seq<char>, Seq<char>)>)
    ensures
        forall|k: int| 0 <= k < keep_links(found).len() ==> is_safe_url(
            (#[trigger] keep_links(found)[k]).0,
        ),
        forall|k: int, m: int|
            0 <= k < m < keep_links(found).len() ==> (#[trigger] keep_links(found)[k]).0
                != (#[trigger] keep_links(found)[m]).0,
    decreases found.len(),
{
    if found.len() > 0 {
        lemma_keep_links(found.drop_last());
        let acc = keep_links(found.drop_last());
        let x = found.last();
        if is_safe_url(x.0) && !has_url(acc, x.0) {
            let r = acc.push(x);
            assert forall|k: int, m: int| 0 <= k < m < r.len() implies (#[trigger] r[k]).0 != (
            #[trigger] r[m]).0 by {
                if m == r.len() - 1 {
                    assert(r[k] == acc[k]);
                }
            }
        }
    }
}

/// The pairs of `v` as plain values.
pub open spec fn pairs_view(v: Seq<(String, String)>) -> Seq<(Seq<char>, Seq<char>)> {
    v.map_values(|p: (String, String)| (p.0@, p.1@))
}

fn quote_from_index(v: &Vec<char>, j: usize) -> (r: usize)
    requires
        j <= v@.len(),
    ensures
        r == quote_from(v@, j as int),
        j <= r <= v@.len(),
{
    let mut k = j;
    while k < v.len() && v[k] != '"' && v[k] != '\''
        invariant
            j <= k <= v@.len(),
            quote_from(v@, j as int) == quote_from(v@, k as int),
        decreases v@.len() - k,
    {
        k = k + 1;
    }
    k
}

fn anchor_rest_index(v: &Vec<char>, h: usize) -> (r: Option<(usize, usize, usize, usize, usize)>)
    requires
        h + 4 <= v@.len(),
    ensures
        r matches Some((a, b, c, d, e)) ==> anchor_rest(v@, h as int) == Some(
            (a as int, b as int, c as int, d as int, e as int),
        ) && h < a <= b <= c <= d < e <= v@.len(),
        r is None ==> anchor_rest(v@, h as int) is None,
{
    let n = v.len();
    let p = skip_spaces_from(v, h + 4);
    if p >= n || v[p] != '=' {
        return None;
    }
    let q = skip_spaces_from(v, p + 1);
    if q >= n || (v[q] != '"' && v[q] != '\'') {
        return None;
    }
    let e = quote_from_index(v, q + 1);
    if !(q + 1 < e && e < n) {
        return None;
    }
    let g = find_char_from(v, '>', e + 1);
    proof {
        lemma_find_char(v@, '>', e + 1);
    }
    if g >= n {
        return None;
    }
    let t = find_char_from(v, '<', g + 1);
    proof {
        lemma_find_char(v@, '<', g + 1);
    }
    let close = vec!['<', '/', 'a', '>'];
    assert(close@ =~= seq!['<', '/', 'a', '>']);
    if matches_at(v, t, &close) {
        Some((q + 1, e, g + 1, t, t + 4))
    } else {
        None
    }
}

fn anchor_at_index(v: &Vec<char>, i: usize) -> (r: Option<(usize, usize, usize, usize, usize)>)
    requires
        i < v@.len(),
    ensures
        r matches Some((a, b, c, d, e)) ==> anchor_at(v@, i as int) == Some(
            (a as int, b as int, c as int, d as int, e as int),
        ) && a <= b <= c <= d < e <= v@.len() && i < e,
        r is None ==> anchor_at(v@, i as int) is None,
{
    let n = v.len();
    let open = vec!['<', 'a'];
    assert(open@ =~= seq!['<', 'a']);
    if !(matches_at(v, i, &open) && i + 2 < n && is_space_char(v[i + 2])) {
        return None;
    }
    let g = find_char_from(v, '>', i + 2);
    proof {
        lemma_find_char(v@, '>', i + 2);
    }
    if g - i < 7 {
        return None;
    }
    let word = vec!['h', 'r', 'e', 'f'];
    assert(word@ =~= href_word());
    let mut h: usize = g - 4;
    loop
        invariant
            i + 3 <= h + 1,
            h + 4 <= g <= n,
            n == v@.len(),
            word@ == href_word(),
            anchor_at(v@, i as int) == anchor_from_h(v@, i as int, h as int),
        decreases h,
    {
        if h < i + 3 {
            return None;
        }
        if matches_at(v, h, &word) {
            if let Some(x) = anchor_rest_index(v, h) {
                return Some(x);
            }
        }
        if h == i + 3 {
            assert(anchor_from_h(v@, i as int, h - 1) is None);
            return None;
        }
        h = h - 1;
    }
}

fn anchors_of(v: &Vec<char>) -> (r: Vec<(String, String)>)
    ensures
        pairs_view(r@) == anchors_from(v@, 0),
{
    let n = v.len();
    let mut out: Vec<(String, String)> = Vec::new();
    let mut i: usize = 0;
    while i < n
        invariant
            n == v@.len(),
            i <= n,
            pairs_view(out@) + anchors_from(v@, i as int) == anchors_from(v@, 0),
        decreases n - i,
    {
        match anchor_at_index(v, i) {
            Some((ul, uh, tl, th, end)) => {
                let url = string_of(&copy_range(v, ul, uh));
                let text = string_of(&copy_range(v, tl, th));
                let ghost before = out@;
                out.push((url, text));
                assert(pairs_view(out@) =~= pairs_view(before).push(
                    (v@.subrange(ul as int, uh as int), v@.subrange(tl as int, th as int)),
                ));
                assert(pairs_view(out@) + anchors_from(v@, end as int) =~= pairs_view(before)
                    + anchors_from(v@, i as int));
                i = end;
            },
            None => {
                i = i + 1;
            },
        }
    }
    assert(pairs_view(out@) + anchors_from(v@, i as int) =~= pairs_view(out@));
    out
}

fn safe_url(url: &String) -> (r: bool)
    ensures
        r == is_safe_url(url@),
{
    let u = chars_of(url.as_str());
    let https = vec!['h', 't', 't', 'p', 's', ':', '/', '/'];
    let http = vec!['h', 't', 't', 'p', ':', '/', '/'];
    let mailto = vec!['m', 'a', 'i', 'l', 't', 'o', ':'];
    assert(https@ =~= seq!['h', 't', 't', 'p', 's', ':', '/', '/']);
    assert(http@ =~= seq!['h', 't', 't', 'p', ':', '/', '/']);
    assert(mailto@ =~= seq!['m', 'a', 'i', 'l', 't', 'o', ':']);
    matches_at(&u, 0, &https) || matches_at(&u, 0, &http) || matches_at(&u, 0, &mailto)
}

fn contains_url(links: &Vec<(String, String)>, url: &String) -> (r: bool)
    ensures
        r == has_url(pairs_view(links@), url@),
{
    let mut k: usize = 0;
    while k < links.len()
        invariant
            k <= links@.len(),
            forall|m: int| 0 <= m < k ==> (#[trigger] pairs_view(links@)[m]).0 != url@,
        decreases links@.len() - k,
    {
        if links[k].0 == *url {
            assert(pairs_view(links@)[k as int].0 == url@);
            return true;
        }
        k = k + 1;
    }
    false
}

/// Appends the links of `found` that `keep_links` keeps to `acc`.
fn keep_into(acc: &mut Vec<(String, String)>, found: Vec<(String, String)>, ghost_prefix: Ghost<Seq<(Seq<char>, Seq<char>)>>)
    requires
        pairs_view(old(acc)@) == keep_links(ghost_prefix@),
    ensures
        pairs_view(final(acc)@) == keep_links(ghost_prefix@ + pairs_view(found@)),
{
    let mut i: usize = 0;
    while i < found.len()
        invariant
            i <= found@.len(),
            pairs_view(acc@) == keep_links(ghost_prefix@ + pairs_view(found@).take(i as int)),
        decreases found@.len() - i,
    {
        let ghost all = ghost_prefix@ + pairs_view(found@).take(i + 1);
        assert(all.drop_last() =~= ghost_prefix@ + pairs_view(found@).take(i as int));
        assert(all.last() == pairs_view(found@)[i as int]);
        let (url, text) = (&found[i].0, &found[i].1);
        if safe_url(url) && !contains_url(acc, url) {
            let ghost before = acc@;
            acc.push((url.clone(), text.clone()));
            assert(pairs_view(acc@) =~= pairs_view(before).push(pairs_view(found@)[i as int]));
        }
        i = i + 1;
    }
    assert(pairs_view(found@).take(found@.len() as int) =~= pairs_view(found@));
}

/// Extracts the (url, text) pairs of the anchor elements in `html`.
///
/// Anchors written literally are found first, then those that appear once
/// entities are decoded. A link is kept only where its url starts with
/// `https://`, `http://` or `mailto:`, and each url only at its first
/// occurrence.
pub fn extract_hrefs(html: &str) -> (r: Vec<(String, String)>)
    ensures
        pairs_view(r@) == links_of(html@),
        forall|k: int| 0 <= k < r@.len() ==> is_safe_url((#[trigger] r@[k]).0@),
        forall|k: int, m: int| 0 <= k < m < r@.len() ==> (#[trigger] r@[k]).0@ != (#[trigger] r@[m]).0@,
{
    let v = chars_of(html);
    let raw = anchors_of(&v);
    let decoded = chars_of(decode_entities(html).as_str());
    let encoded = anchors_of(&decoded);
    let mut results: Vec<(String, String)> = Vec::new();
    assert(pairs_view(results@) =~= keep_links(Seq::empty()));
    keep_into(&mut results, raw, Ghost(Seq::empty()));
    assert(Seq::<(Seq<char>, Seq<char>)>::empty() + pairs_view(raw@) =~= pairs_view(raw@));
    keep_into(&mut results, encoded, Ghost(pairs_view(raw@)));
    proof {
        lemma_keep_links(pairs_view(raw@) + pairs_view(encoded@));
        assert forall|k: int| 0 <= k < results@.len() implies is_safe_url(
            (#[trigger] results@[k]).0@,
        ) by {
            assert(pairs_view(results@)[k].0 == results@[k].0@);
        }
        assert forall|k: int, m: int| 0 <= k < m < results@.len() implies (
        #[trigger] results@[k]).0@ != (#[trigger] results@[m]).0@ by {
            assert(pairs_view(results@)[k].0 == results@[k].0@);
            assert(pairs_view(results@)[m].0 == results@[m].0@);
        }
    }
    results
}

/// What ammonia's sanitizer returns for `html` under the policy: allowed
/// `tags`, allowed `generic_attrs` on every tag, allowed `link_attrs` on
/// `link_tag`, allowed url `schemes`, and `rel` set on every link.
pub uninterp spec fn ammonia_cleaned(
    tags: Seq<Seq<char>>,
    generic_attrs: Seq<Seq<char>>,
    link_tag: Seq<char>,
    link_attrs: Seq<Seq<char>>,
    schemes: Seq<Seq<char>>,
    rel: Seq<char>,
    html: Seq<char>,
) -> Seq<char>;

/// The characters of each string.
pub open spec fn names_view(v: Seq<String>) -> Seq<Seq<char>> {
    v.map_values(|t: String| t@)
}

/// Relies on ammonia::Builder (`tags`, `link_rel`, `url_schemes`,
/// `generic_attributes`, `tag_attributes`), `Builder::clean` and the
/// `Display` of its `Document`: the cleaned fragment, which depends on the
/// policy and the input alone. `clean` panics where a tag whose content it
/// removes (`script`, `style`) is also allowed or given attributes, or
/// where `rel` is an allowed attribute while `link_rel` is set: `requires`
/// leaves those out.
#[verifier::external_body]
fn ammonia_clean(
    tags: &Vec<String>,
    generic_attrs: &Vec<String>,
    link_tag: &str,
    link_attrs: &Vec<String>,
    schemes: &Vec<String>,
    rel: &str,
    html: &str,
) -> (r: String)
    requires
        forall|k: int| 0 <= k < tags@.len() ==> !is_content_dropping(#[trigger] tags@[k]@),
        !is_content_dropping(link_tag@),
        forall|k: int| 0 <= k < link_attrs@.len() ==> (#[trigger] link_attrs@[k])@ != rel_word(),
        forall|k: int| 0 <= k < generic_attrs@.len() ==> (#[trigger] generic_attrs@[k])@ != rel_word(),
    ensures
        r@ == ammonia_cleaned(
            names_view(tags@),
            names_view(generic_attrs@),
            link_tag@,
            names_view(link_attrs@),
            names_view(schemes@),
            rel@,
            html@,
        ),
{
    let tags: HashSet<&str> = tags.iter().map(|t| t.as_str()).collect();
    let generic: HashSet<&str> = generic_attrs.iter().map(|t| t.as_str()).collect();
    let attrs: HashSet<&str> = link_attrs.iter().map(|t| t.as_str()).collect();
    let schemes: HashSet<&str> = schemes.iter().map(|t| t.as_str()).collect();
    ammonia::Builder::default()
        .tags(tags)
        .link_rel(Some(rel))
        .url_schemes(schemes)
        .generic_attributes(generic)
        .tag_attributes(std::iter::once((link_tag, attrs)).collect())
        .clean(html)
        .to_string()
}

/// `script` or `style`: tags whose content the sanitizer drops with them.
pub open spec fn is_content_dropping(t: Seq<char>) -> bool {
    t == seq!['s', 'c', 'r', 'i', 'p', 't'] || t == seq!['s', 't', 'y', 'l', 'e']
}

pub open spec fn rel_word() -> Seq<char> {
    seq!['r', 'e', 'l']
}

/// The elements that survive sanitizing: b, i, u, a, br, p.
pub open spec fn allowed_tags() -> Seq<Seq<char>> {
    seq![seq!['b'], seq!['i'], seq!['u'], seq!['a'], seq!['b', 'r'], seq!['p']]
}

/// The url schemes an `href` may use: http, https, mailto.
pub open spec fn allowed_schemes() -> Seq<Seq<char>> {
    seq![
        seq!['h', 't', 't', 'p'],
        seq!['h', 't', 't', 'p', 's'],
        seq!['m', 'a', 'i', 'l', 't', 'o'],
    ]
}

/// The `rel` every retained link carries.
pub open spec fn link_rel_value() -> Seq<char> {
    seq!['n', 'o', 'o', 'p', 'e', 'n', 'e', 'r', ' ', 'n', 'o', 'r', 'e', 'f', 'e', 'r', 'r', 'e', 'r']
}

/// The sanitized form of `html` under this library's allow-list policy.
pub open spec fn sanitized(html: Seq<char>) -> Seq<char> {
    ammonia_cleaned(allowed_tags(), Seq::empty(), seq!['a'], seq![seq!['h', 'r', 'e', 'f']], allowed_schemes(), link_rel_value(), html)
}

fn string_from(v: Vec<char>) -> (r: String)
    ensures
        r@ == v@,
{
    string_of(&v)
}

/// Sanitizes HTML for display in a notification.
///
/// Only `b`, `i`, `u`, `a`, `br` and `p` are kept; the only attribute kept
/// is `href`, on `a`, with an `http`, `https` or `mailto` url; every link
/// gets `rel="noopener noreferrer"`. Other elements are removed, and
/// `script` and `style` with their content. The cleaned markup is then
/// checked against the shapes the policy allows (see `safe_markup`), and
/// replaced by escaped plain text should it hold anything else.
pub fn sanitize_html(html: &str) -> (r: String)
    ensures
        r@ == guarded(sanitized(html@), html@),
        safe_markup(r@),
{
    let t_b = string_from(vec!['b']);
    let t_i = string_from(vec!['i']);
    let t_u = string_from(vec!['u']);
    let t_a = string_from(vec!['a']);
    let t_br = string_from(vec!['b', 'r']);
    let t_p = string_from(vec!['p']);
    assert(t_b@ =~= seq!['b']);
    assert(t_i@ =~= seq!['i']);
    assert(t_u@ =~= seq!['u']);
    assert(t_a@ =~= seq!['a']);
    assert(t_br@ =~= seq!['b', 'r']);
    assert(t_p@ =~= seq!['p']);
    let tags = vec![t_b, t_i, t_u, t_a, t_br, t_p];
    let href = string_from(vec!['h', 'r', 'e', 'f']);
    assert(href@ =~= seq!['h', 'r', 'e', 'f']);
    let attrs = vec![href];
    let s_http = string_from(vec!['h', 't', 't', 'p']);
    let s_https = string_from(vec!['h', 't', 't', 'p', 's']);
    let s_mailto = string_from(vec!['m', 'a', 'i', 'l', 't', 'o']);
    assert(s_http@ =~= seq!['h', 't', 't', 'p']);
    assert(s_https@ =~= seq!['h', 't', 't', 'p', 's']);
    assert(s_mailto@ =~= seq!['m', 'a', 'i', 'l', 't', 'o']);
    let schemes = vec![s_http, s_https, s_mailto];
    let link_tag = string_from(vec!['a']);
    let rel_chars = vec![
        'n', 'o', 'o', 'p', 'e', 'n', 'e', 'r', ' ', 'n', 'o', 'r', 'e', 'f', 'e', 'r', 'r', 'e', 'r',
    ];
    assert(rel_chars@ =~= link_rel_value());
    let rel = string_from(rel_chars);
    assert(names_view(tags@) =~= allowed_tags());
    assert(names_view(attrs@) =~= seq![seq!['h', 'r', 'e', 'f']]);
    assert(names_view(schemes@) =~= allowed_schemes());
    assert(link_tag@ =~= seq!['a']);
    assert(rel@ =~= link_rel_value());
    assert forall|k: int| 0 <= k < tags@.len() implies !is_content_dropping(#[trigger] tags@[k]@) by {
        assert(tags@[k]@ == allowed_tags()[k]);
        assert(allowed_tags()[k].len() <= 2);
    }
    assert(attrs@[0]@ != rel_word()) by {
        assert(attrs@[0]@.len() == 4);
    }
    let generic: Vec<String> = Vec::new();
    assert(names_view(generic@) =~= Seq::<Seq<char>>::empty());
    let cleaned = ammonia_clean(&tags, &generic, link_tag.as_str(), &attrs, &schemes, rel.as_str(), html);
    guard_sanitized(cleaned, html)
}


/// The tags sanitized markup may hold, written out in full, besides a
/// link with an `href` (see `href_tag_at`).
pub open spec fn fixed_tags() -> Seq<Seq<char>> {
    seq![
        "<b>"@,
        "</b>"@,
        "<i>"@,
        "</i>"@,
        "<u>"@,
        "</u>"@,
        "<p>"@,
        "</p>"@,
        "<br>"@,
        "</a>"@,
        "<a rel=\"noopener noreferrer\">"@,
    ]
}

pub open spec fn href_open() -> Seq<char> {
    "<a href=\""@
}

pub open spec fn href_close() -> Seq<char> {
    "\" rel=\"noopener noreferrer\">"@
}

/// `v` starts with `p`, ignoring ASCII case in `v`.
pub open spec fn starts_with_ci(v: Seq<char>, p: Seq<char>) -> bool {
    p.len() <= v.len() && forall|k: int| 0 <= k < p.len() ==> crate::markup_parser::ci_eq(#[trigger] v[k], p[k])
}

/// A character that ends a url's scheme (`:`) or shows there is none.
pub open spec fn is_url_delim(c: char) -> bool {
    c == ':' || c == '/' || c == '?' || c == '#'
}

/// First index at or after `j` holding a url delimiter, or the length of `v`.
pub open spec fn first_delim(v: Seq<char>, j: int) -> int
    decreases v.len() - j,
{
    if j < 0 || j >= v.len() {
        v.len() as int
    } else if is_url_delim(v[j]) {
        j
    } else {
        first_delim(v, j + 1)
    }
}

/// `v` names no scheme: no `:` comes before the first `/`, `?` or `#`.
pub open spec fn no_scheme(v: Seq<char>) -> bool {
    first_delim(v, 0) >= v.len() || v[first_delim(v, 0)] != ':'
}

/// Every `&` in `v` starts one of the escapes a serializer writes in an
/// attribute value: `&amp;`, `&quot;` or `&nbsp;`.
pub open spec fn escapes_ok(v: Seq<char>) -> bool {
    forall|k: int|
        0 <= k < v.len() && #[trigger] v[k] == '&' ==> has_at(v, k, "&amp;"@) || has_at(v, k, "&quot;"@)
            || has_at(v, k, "&nbsp;"@)
}

/// An `href` value sanitized markup may hold: one with an `http`, `https`
/// or `mailto` scheme, or a relative one that names no scheme and holds
/// no entity but the serializer's escapes.
pub open spec fn href_ok(v: Seq<char>) -> bool {
    starts_with_ci(v, "http:"@) || starts_with_ci(v, "https:"@) || starts_with_ci(v, "mailto:"@) || (
    no_scheme(v) && escapes_ok(v))
}

/// End of the fixed tag at `i`, trying the entries of `fixed_tags` from `k` on.
pub open spec fn fixed_tag_from(s: Seq<char>, i: int, k: int) -> Option<int>
    decreases 11 - k,
{
    if k < 0 || k >= 11 {
        None
    } else if has_at(s, i, fixed_tags()[k]) {
        Some(i + fixed_tags()[k].len())
    } else {
        fixed_tag_from(s, i, k + 1)
    }
}

/// End of the link tag at `i`: `<a href="`, a value `href_ok` accepts and
/// that holds no `"`, then `" rel="noopener noreferrer">`.
pub open spec fn href_tag_at(s: Seq<char>, i: int) -> Option<int> {
    let a = i + href_open().len();
    let q = find_char(s, '"', a);
    if has_at(s, i, href_open()) && q < s.len() && href_ok(s.subrange(a, q)) && has_at(s, q, href_close()) {
        Some(q + href_close().len())
    } else {
        None
    }
}

/// End of the allowed tag at `i`, if one starts there.
pub open spec fn allowed_tag_at(s: Seq<char>, i: int) -> Option<int> {
    match fixed_tag_from(s, i, 0) {
        Some(e) => Some(e),
        None => href_tag_at(s, i),
    }
}

/// From `i` on, every `<` starts an allowed tag.
pub open spec fn safe_from(s: Seq<char>, i: int) -> bool
    decreases s.len() - i,
{
    if i < 0 || i >= s.len() {
        true
    } else if s[i] == '<' {
        match allowed_tag_at(s, i) {
            Some(e) => if i < e <= s.len() {
                safe_from(s, e)
            } else {
                false
            },
            None => false,
        }
    } else {
        safe_from(s, i + 1)
    }
}

/// Markup that holds only the allowed elements (b, i, u, a, br, p), no
/// attribute but `href` and `rel="noopener noreferrer"` on links, and only
/// `href` values with an `http`, `https` or `mailto` scheme or with none:
/// read left to right, every `<` starts one of those tags.
pub open spec fn safe_markup(s: Seq<char>) -> bool {
    safe_from(s, 0)
}

/// The text with `&`, `<` and `>` written as entities.
pub open spec fn escape_text(s: Seq<char>) -> Seq<char>
    decreases s.len(),
{
    if s.len() == 0 {
        s
    } else {
        escape_text(s.drop_last()) + (if s.last() == '&' {
            "&amp;"@
        } else if s.last() == '<' {
            "&lt;"@
        } else if s.last() == '>' {
            "&gt;"@
        } else {
            seq![s.last()]
        })
    }
}

/// `cleaned` where it is safe markup, else the escaped plain text of `html`.
pub open spec fn guarded(cleaned: Seq<char>, html: Seq<char>) -> Seq<char> {
    if safe_markup(cleaned) {
        cleaned
    } else {
        escape_text(plain_of(html))
    }
}

proof fn lemma_safe_without_lt(s: Seq<char>, i: int)
    requires
        0 <= i,
        forall|k: int| 0 <= k < s.len() ==> #[trigger] s[k] != '<',
    ensures
        safe_from(s, i),
    decreases s.len() - i,
{
    if i < s.len() {
        lemma_safe_without_lt(s, i + 1);
    }
}

proof fn lemma_escape_no_lt(s: Seq<char>)
    ensures
        forall|k: int| 0 <= k < escape_text(s).len() ==> #[trigger] escape_text(s)[k] != '<',
    decreases s.len(),
{
    reveal_strlit("&amp;");
    reveal_strlit("&lt;");
    reveal_strlit("&gt;");
    if s.len() > 0 {
        lemma_escape_no_lt(s.drop_last());
        let e = escape_text(s.drop_last());
        let t = if s.last() == '&' {
            "&amp;"@
        } else if s.last() == '<' {
            "&lt;"@
        } else if s.last() == '>' {
            "&gt;"@
        } else {
            seq![s.last()]
        };
        assert forall|k: int| 0 <= k < t.len() implies #[trigger] t[k] != '<' by {}
        assert forall|k: int| 0 <= k < escape_text(s).len() implies #[trigger] escape_text(s)[k] != '<' by {
            if k < e.len() {
                assert(escape_text(s)[k] == e[k]);
            } else {
                assert(escape_text(s)[k] == t[k - e.len()]);
            }
        }
    }
}

/// Escaped text is safe markup: it holds no `<` at all.
pub proof fn lemma_escaped_is_safe(s: Seq<char>)
    ensures
        safe_markup(escape_text(s)),
{
    lemma_escape_no_lt(s);
    lemma_safe_without_lt(escape_text(s), 0);
}

fn starts_with_ci_vec(v: &Vec<char>, lo: usize, hi: usize, p: &Vec<char>) -> (r: bool)
    requires
        lo <= hi <= v@.len(),
    ensures
        r == starts_with_ci(v@.subrange(lo as int, hi as int), p@),
{
    let ghost w = v@.subrange(lo as int, hi as int);
    if p.len() > hi - lo {
        return false;
    }
    let mut k: usize = 0;
    while k < p.len()
        invariant
            p@.len() <= hi - lo,
            lo <= hi <= v@.len(),
            w == v@.subrange(lo as int, hi as int),
            k <= p@.len(),
            forall|t: int| 0 <= t < k ==> crate::markup_parser::ci_eq(#[trigger] w[t], p@[t]),
        decreases p@.len() - k,
    {
        let a = v[lo + k];
        let b = p[k];
        let n = a as u32;
        if !(a == b || (65 <= n && n <= 90 && n + 32 == b as u32)) {
            assert(w[k as int] == a);
            return false;
        }
        k = k + 1;
    }
    true
}

fn href_ok_vec(v: &Vec<char>, lo: usize, hi: usize) -> (r: bool)
    requires
        lo <= hi <= v@.len(),
    ensures
        r == href_ok(v@.subrange(lo as int, hi as int)),
{
    let http = chars_of("http:");
    let https = chars_of("https:");
    let mailto = chars_of("mailto:");
    if starts_with_ci_vec(v, lo, hi, &http) || starts_with_ci_vec(v, lo, hi, &https)
        || starts_with_ci_vec(v, lo, hi, &mailto) {
        return true;
    }
    let w = copy_range(v, lo, hi);
    let n = w.len();
    let mut f: usize = 0;
    while f < n && !(w[f] == ':' || w[f] == '/' || w[f] == '?' || w[f] == '#')
        invariant
            n == w@.len(),
            f <= n,
            first_delim(w@, 0) == first_delim(w@, f as int),
        decreases n - f,
    {
        f = f + 1;
    }
    if f < n && w[f] == ':' {
        return false;
    }
    let amp = chars_of("&amp;");
    let quot = chars_of("&quot;");
    let nbsp = chars_of("&nbsp;");
    let mut k: usize = 0;
    while k < n
        invariant
            n == w@.len(),
            k <= n,
            w@ == v@.subrange(lo as int, hi as int),
            !starts_with_ci(w@, "http:"@) && !starts_with_ci(w@, "https:"@) && !starts_with_ci(w@, "mailto:"@),
            amp@ == "&amp;"@,
            quot@ == "&quot;"@,
            nbsp@ == "&nbsp;"@,
            forall|t: int|
                0 <= t < k && #[trigger] w@[t] == '&' ==> has_at(w@, t, "&amp;"@) || has_at(w@, t, "&quot;"@)
                    || has_at(w@, t, "&nbsp;"@),
        decreases n - k,
    {
        if w[k] == '&' && !matches_at(&w, k, &amp) && !matches_at(&w, k, &quot) && !matches_at(&w, k, &nbsp) {
            assert(!escapes_ok(w@)) by {
                assert(w@[k as int] == '&');
            }
            return false;
        }
        k = k + 1;
    }
    true
}

fn fixed_tag_table() -> (r: Vec<Vec<char>>)
    ensures
        r@.len() == 11,
        forall|k: int| 0 <= k < 11 ==> (#[trigger] r@[k])@ == fixed_tags()[k],
{
    let r = vec![
        chars_of("<b>"),
        chars_of("</b>"),
        chars_of("<i>"),
        chars_of("</i>"),
        chars_of("<u>"),
        chars_of("</u>"),
        chars_of("<p>"),
        chars_of("</p>"),
        chars_of("<br>"),
        chars_of("</a>"),
        chars_of("<a rel=\"noopener noreferrer\">"),
    ];
    r
}

fn allowed_tag_end(v: &Vec<char>, i: usize, table: &Vec<Vec<char>>) -> (r: Option<usize>)
    requires
        i < v@.len(),
        table@.len() == 11,
        forall|k: int| 0 <= k < 11 ==> (#[trigger] table@[k])@ == fixed_tags()[k],
    ensures
        match r {
            Some(e) => allowed_tag_at(v@, i as int) == Some(e as int) && i < e <= v@.len(),
            None => allowed_tag_at(v@, i as int) is None,
        },
{
    let n = v.len();
    let mut k: usize = 0;
    while k < 11
        invariant
            k <= 11,
            i < n == v@.len(),
            table@.len() == 11,
            forall|q: int| 0 <= q < 11 ==> (#[trigger] table@[q])@ == fixed_tags()[q],
            fixed_tag_from(v@, i as int, 0) == fixed_tag_from(v@, i as int, k as int),
        decreases 11 - k,
    {
        let t = &table[k];
        if matches_at(v, i, t) {
            assert(fixed_tags()[k as int].len() > 0) by {
                reveal_strlit("<b>");
                reveal_strlit("</b>");
                reveal_strlit("<i>");
                reveal_strlit("</i>");
                reveal_strlit("<u>");
                reveal_strlit("</u>");
                reveal_strlit("<p>");
                reveal_strlit("</p>");
                reveal_strlit("<br>");
                reveal_strlit("</a>");
                reveal_strlit("<a rel=\"noopener noreferrer\">");
            }
            return Some(i + t.len());
        }
        k = k + 1;
    }
    let open = chars_of("<a href=\"");
    let close = chars_of("\" rel=\"noopener noreferrer\">");
    if !matches_at(v, i, &open) {
        return None;
    }
    let a = i + open.len();
    let q = find_char_from(v, '"', a);
    proof {
        lemma_find_char(v@, '"', a as int);
    }
    if q < n && href_ok_vec(v, a, q) && matches_at(v, q, &close) {
        assert(close@.len() > 0) by {
            reveal_strlit("\" rel=\"noopener noreferrer\">");
        }
        Some(q + close.len())
    } else {
        None
    }
}

/// Whether `v` is safe markup.
fn is_safe_markup(v: &Vec<char>) -> (r: bool)
    ensures
        r == safe_markup(v@),
{
    let table = fixed_tag_table();
    let n = v.len();
    let mut i: usize = 0;
    while i < n
        invariant
            n == v@.len(),
            i <= n,
            table@.len() == 11,
            forall|q: int| 0 <= q < 11 ==> (#[trigger] table@[q])@ == fixed_tags()[q],
            safe_markup(v@) == safe_from(v@, i as int),
        decreases n - i,
    {
        if v[i] == '<' {
            match allowed_tag_end(v, i, &table) {
                Some(e) => {
                    i = e;
                },
                None => {
                    return false;
                },
            }
        } else {
            i = i + 1;
        }
    }
    true
}

/// `s` with `&`, `<` and `>` written as entities.
fn escape_string(s: &String) -> (r: String)
    ensures
        r@ == escape_text(s@),
{
    let v = chars_of(s.as_str());
    let mut r = String::new();
    let mut i: usize = 0;
    while i < v.len()
        invariant
            i <= v@.len(),
            v@ == s@,
            r@ == escape_text(v@.take(i as int)),
        decreases v@.len() - i,
    {
        let c = v[i];
        if c == '&' {
            r.append("&amp;");
        } else if c == '<' {
            r.append("&lt;");
        } else if c == '>' {
            r.append("&gt;");
        } else {
            crate::text::push_char(&mut r, c);
        }
        assert(v@.take(i + 1).drop_last() =~= v@.take(i as int));
        i = i + 1;
    }
    assert(v@.take(v@.len() as int) =~= v@);
    r
}

/// Accepts the sanitizer's output `cleaned` for `html` only where it is
/// safe markup; otherwise gives the escaped plain text of `html`.
pub fn guard_sanitized(cleaned: String, html: &str) -> (r: String)
    ensures
        r@ == guarded(cleaned@, html@),
        safe_markup(r@),
{
    let v = chars_of(cleaned.as_str());
    if is_safe_markup(&v) {
        cleaned
    } else {
        let plain = strip_html(html);
        proof {
            lemma_escaped_is_safe(plain@);
        }
        escape_string(&plain)
    }
}

/// `s` without its newlines.
pub open spec fn drop_newlines(s: Seq<char>) -> Seq<char>
    decreases s.len(),
{
    if s.len() == 0 {
        s
    } else if s.last() == '\n' {
        drop_newlines(s.drop_last())
    } else {
        drop_newlines(s.drop_last()).push(s.last())
    }
}

/// `c` does not occur in `s`.
pub open spec fn lacks(s: Seq<char>, c: char) -> bool {
    forall|k: int| 0 <= k < s.len() ==> #[trigger] s[k] != c
}

/// Every `<` in `s` with a `>` after it opens a tag, as the parser reads
/// tags, that ends at the first such `>`.
pub open spec fn tags_well_formed(s: Seq<char>) -> bool {
    forall|i: int|
        0 <= i < s.len() && s[i] == '<' && #[trigger] find_char(s, '>', i + 1) < s.len() ==> (tag_at(s, i) matches Some(
            (e, _, _, _),
        ) && e == find_char(s, '>', i + 1) + 1)
}

proof fn lemma_drop_newlines_concat(a: Seq<char>, b: Seq<char>)
    ensures
        drop_newlines(a + b) == drop_newlines(a) + drop_newlines(b),
    decreases b.len(),
{
    if b.len() == 0 {
        assert(a + b =~= a);
        assert(drop_newlines(a) + drop_newlines(b) =~= drop_newlines(a));
    } else {
        assert((a + b).drop_last() =~= a + b.drop_last());
        lemma_drop_newlines_concat(a, b.drop_last());
        if b.last() != '\n' {
            assert(drop_newlines(a) + drop_newlines(b.drop_last()).push(b.last()) =~= (drop_newlines(a)
                + drop_newlines(b.drop_last())).push(b.last()));
        }
    }
}

proof fn lemma_drop_newlines_none(s: Seq<char>)
    requires
        lacks(s, '\n'),
    ensures
        drop_newlines(s) == s,
    decreases s.len(),
{
    if s.len() > 0 {
        lemma_drop_newlines_none(s.drop_last());
        assert(s.drop_last().push(s.last()) =~= s);
    }
}

proof fn lemma_decode_without_amp(s: Seq<char>)
    requires
        lacks(s, '&'),
    ensures
        decode(s) == s,
    decreases s.len(),
{
    if s.len() > 0 {
        crate::entities::lemma_entity_from_range(s, 0);
        if let Some(j) = crate::entities::entity_from(s, 0) {
            assert(crate::entities::entity_names()[j][0] == '&');
            assert(s.subrange(0, crate::entities::entity_names()[j].len() as int)[0] == s[0]);
            assert(false);
        }
        lemma_decode_without_amp(s.skip(1));
        assert(seq![s[0]] + s.skip(1) =~= s);
    }
}

proof fn lemma_strip_lacks(s: Seq<char>, i: int, c: char)
    requires
        0 <= i,
        forall|k: int| i <= k < s.len() ==> #[trigger] s[k] != c,
    ensures
        lacks(strip_from(s, i), c),
    decreases s.len() - i,
{
    if i < s.len() {
        lemma_find_char(s, '>', i + 1);
        if s[i] == '<' && i < find_char(s, '>', i + 1) < s.len() {
            lemma_strip_lacks(s, find_char(s, '>', i + 1) + 1, c);
        } else {
            lemma_strip_lacks(s, i + 1, c);
            let r = strip_from(s, i);
            assert forall|k: int| 0 <= k < r.len() implies #[trigger] r[k] != c by {
                if k > 0 {
                    assert(r[k] == strip_from(s, i + 1)[k - 1]);
                }
            }
        }
    }
}

/// No `<` in `s` has a `>` after it.
pub open spec fn no_open_tag(s: Seq<char>) -> bool {
    forall|a: int, b: int| 0 <= a < b < s.len() && #[trigger] s[a] == '<' ==> #[trigger] s[b] != '>'
}

proof fn lemma_strip_no_open_tag(s: Seq<char>, i: int)
    requires
        0 <= i,
    ensures
        no_open_tag(strip_from(s, i)),
    decreases s.len() - i,
{
    if i < s.len() {
        lemma_find_char(s, '>', i + 1);
        if s[i] == '<' && i < find_char(s, '>', i + 1) < s.len() {
            lemma_strip_no_open_tag(s, find_char(s, '>', i + 1) + 1);
        } else {
            lemma_strip_no_open_tag(s, i + 1);
            let rest = strip_from(s, i + 1);
            let r = strip_from(s, i);
            if s[i] == '<' {
                lemma_strip_lacks(s, i + 1, '>');
            }
            assert forall|a: int, b: int| 0 <= a < b < r.len() && #[trigger] r[a] == '<' implies #[trigger] r[b]
                != '>' by {
                assert(r[b] == rest[b - 1]);
                if a > 0 {
                    assert(r[a] == rest[a - 1]);
                }
            }
        }
    }
}

proof fn lemma_strip_keeps(r: Seq<char>, j: int)
    requires
        0 <= j <= r.len(),
        no_open_tag(r),
    ensures
        strip_from(r, j) == r.subrange(j, r.len() as int),
    decreases r.len() - j,
{
    if j < r.len() {
        lemma_find_char(r, '>', j + 1);
        if r[j] == '<' && find_char(r, '>', j + 1) < r.len() {
            assert(r[find_char(r, '>', j + 1)] == '>');
        }
        lemma_strip_keeps(r, j + 1);
        assert(r.subrange(j, r.len() as int) =~= seq![r[j]] + r.subrange(j + 1, r.len() as int));
    } else {
        assert(r.subrange(j, r.len() as int) =~= Seq::<char>::empty());
    }
}

proof fn lemma_plain_text_push(segs: Seq<SegmentModel>, x: SegmentModel)
    ensures
        plain_text(segs.push(x)) == plain_text(segs) + x.text,
{
    assert(segs.push(x).drop_last() =~= segs);
}

proof fn lemma_scan_text(s: Seq<char>, i: int, last: int, st: ParseModel)
    requires
        0 <= last <= i <= s.len(),
        lacks(s, '&'),
        lacks(s, '\n'),
        tags_well_formed(s),
    ensures
        drop_newlines(plain_text(scan_from(s, i, last, st).segs))
            == drop_newlines(plain_text(st.segs)) + s.subrange(last, i) + strip_from(s, i),
    decreases s.len() - i,
{
    let t = s.subrange(last, i);
    assert(lacks(t, '&'));
    assert(lacks(t, '\n'));
    lemma_decode_without_amp(t);
    lemma_drop_newlines_none(t);
    let st1 = after_text(st, t);
    assert(drop_newlines(plain_text(st1.segs)) == drop_newlines(plain_text(st.segs)) + t) by {
        if t.len() > 0 {
            lemma_plain_text_push(st.segs, st1.segs.last());
            assert(st1.segs == st.segs.push(st1.segs.last()));
            lemma_drop_newlines_concat(plain_text(st.segs), t);
        } else {
            assert(drop_newlines(plain_text(st.segs)) + t =~= drop_newlines(plain_text(st.segs)));
        }
    }
    if i >= s.len() {
        assert(s.subrange(i, s.len() as int) =~= Seq::<char>::empty());
        assert(strip_from(s, i) == Seq::<char>::empty());
        assert(drop_newlines(plain_text(st.segs)) + t + strip_from(s, i) =~= drop_newlines(plain_text(st.segs)) + t);
    } else {
        lemma_tag_at(s, i);
        lemma_find_char(s, '>', i + 1);
        match tag_at(s, i) {
            Some((e, closing, ns, ne)) => {
                assert(s[i] == '<');
                if find_char(s, '>', i + 1) >= s.len() {
                    let j = if i + 1 < s.len() && s[i + 1] == '/' {
                        i + 2
                    } else {
                        i + 1
                    };
                    crate::scan::lemma_word_end(s, j);
                    let w = crate::scan::word_end(s, j);
                    lemma_find_char(s, '>', w);
                    assert(s[e - 1] == '>');
                    assert(false);
                }
                let st2 = after_tag(st1, closing, s.subrange(ns, ne), s.subrange(i, e));
                assert(drop_newlines(plain_text(st2.segs)) == drop_newlines(plain_text(st1.segs))) by {
                    if st2.segs != st1.segs {
                        assert(st2.segs == st1.segs.push(newline_segment()));
                        lemma_plain_text_push(st1.segs, newline_segment());
                        lemma_drop_newlines_concat(plain_text(st1.segs), seq!['\n']);
                        let nl = seq!['\n'];
                        assert(nl.last() == '\n');
                        assert(nl.drop_last() =~= Seq::<char>::empty());
                        assert(drop_newlines(Seq::<char>::empty()) == Seq::<char>::empty());
                        assert(drop_newlines(nl) == drop_newlines(nl.drop_last()));
                        assert(drop_newlines(nl) =~= Seq::<char>::empty());
                        assert(drop_newlines(plain_text(st1.segs)) + Seq::<char>::empty() =~= drop_newlines(plain_text(st1.segs)));
                    }
                }
                lemma_scan_text(s, e, e, st2);
                assert(s.subrange(e, e) =~= Seq::<char>::empty());
                assert(drop_newlines(plain_text(st2.segs)) + s.subrange(e, e) + strip_from(s, e) =~= drop_newlines(plain_text(st2.segs)) + strip_from(s, e));
                assert(drop_newlines(plain_text(st.segs)) + t + strip_from(s, i) =~= drop_newlines(plain_text(st.segs)) + s.subrange(last, i) + strip_from(s, e));
            },
            None => {
                if s[i] == '<' && find_char(s, '>', i + 1) < s.len() {
                    assert(false);
                }
                lemma_scan_text(s, i + 1, last, st);
                assert(s.subrange(last, i + 1) =~= s.subrange(last, i) + seq![s[i]]);
                assert(drop_newlines(plain_text(st.segs)) + s.subrange(last, i + 1) + strip_from(s, i + 1) =~= drop_newlines(plain_text(st.segs)) + s.subrange(last, i) + (seq![s[i]] + strip_from(s, i + 1)));
            },
        }
    }
}

/// On markup whose every `<` before a `>` opens a tag that ends at that
/// `>`, and that holds no `&` and no newline, the parser's text with its
/// line breaks left out is the stripped text.
pub proof fn lemma_parse_strip_agree(s: Seq<char>)
    requires
        lacks(s, '&'),
        lacks(s, '\n'),
        tags_well_formed(s),
    ensures
        drop_newlines(plain_text(parse_model(s))) == plain_of(s),
{
    let segs = scan_from(s, 0, 0, initial_state()).segs;
    lemma_merge(segs);
    lemma_scan_text(s, 0, 0, initial_state());
    assert(plain_text(initial_state().segs) =~= Seq::<char>::empty());
    assert(drop_newlines(Seq::<char>::empty()) =~= Seq::<char>::empty());
    assert(Seq::<char>::empty() + s.subrange(0, 0) + strip_from(s, 0) =~= strip_tags(s));
    let r = strip_tags(s);
    lemma_strip_lacks(s, 0, '&');
    lemma_strip_no_open_tag(s, 0);
    lemma_decode_without_amp(r);
    lemma_strip_keeps(r, 0);
    assert(r.subrange(0, r.len() as int) =~= r);
}

} // verus!
