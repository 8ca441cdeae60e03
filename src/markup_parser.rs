//! Markup parser: turns notification body markup into styled text segments.
use vstd::prelude::*;
use crate::entities::{decode, decode_into, has_at};
use vstd::string::StringExecFns;
use crate::scan::{copy_range, lemma_tag_at, tag_at, tag_at_index};
use crate::text::chars_of;

verus! {

/// Style flags of a run of text: the union of the styling tags open there.
#[derive(Debug, Clone, Copy, PartialEq, Eq, Structural)]
pub struct TextStyle {
    pub bold: bool,
    pub italic: bool,
    pub underline: bool,
}

/// The style with no flag set.
pub open spec fn plain_style() -> TextStyle {
    TextStyle { bold: false, italic: false, underline: false }
}

impl Default for TextStyle {
    fn default() -> (r: TextStyle)
        ensures
            r == plain_style(),
    {
        TextStyle { bold: false, italic: false, underline: false }
    }
}

/// A run of text with one style and one link target.
#[derive(Debug, Clone, PartialEq, Eq)]
pub struct StyledSegment {
    pub text: String,
    pub style: TextStyle,
    pub link: Option<String>,
}

/// What a segment holds, as plain values.
pub struct SegmentModel {
    pub text: Seq<char>,
    pub style: TextStyle,
    pub link: Option<Seq<char>>,
}

/// The characters of an optional link target.
pub open spec fn link_view(o: Option<String>) -> Option<Seq<char>> {
    match o {
        Some(s) => Some(s@),
        None => None,
    }
}

impl View for StyledSegment {
    type V = SegmentModel;

    open spec fn view(&self) -> SegmentModel {
        SegmentModel { text: self.text@, style: self.style, link: link_view(self.link) }
    }
}

/// The models of a sequence of segments.
pub open spec fn models(v: Seq<StyledSegment>) -> Seq<SegmentModel> {
    v.map_values(|s: StyledSegment| s@)
}

/// Two segments share style and link target, so they would render as one run.
pub open spec fn mergeable(a: SegmentModel, b: SegmentModel) -> bool {
    a.style == b.style && a.link == b.link
}

/// No two neighbouring segments are mergeable.
pub open spec fn no_adjacent_mergeable(s: Seq<SegmentModel>) -> bool {
    forall|k: int| 0 <= k < s.len() - 1 ==> !mergeable(#[trigger] s[k], s[k + 1])
}

/// Appends `x` to `m`, joining it onto the last segment where mergeable.
pub open spec fn merge_onto(m: Seq<SegmentModel>, x: SegmentModel) -> Seq<SegmentModel> {
    if m.len() > 0 && mergeable(m.last(), x) {
        m.update(
            m.len() - 1,
            SegmentModel { text: m.last().text + x.text, style: m.last().style, link: m.last().link },
        )
    } else {
        m.push(x)
    }
}

/// `segs` with each run of mergeable neighbours collapsed into one segment.
pub open spec fn merge(segs: Seq<SegmentModel>) -> Seq<SegmentModel>
    decreases segs.len(),
{
    if segs.len() == 0 {
        segs
    } else {
        merge_onto(merge(segs.drop_last()), segs.last())
    }
}

/// The concatenated text of `segs`.
pub open spec fn plain_text(segs: Seq<SegmentModel>) -> Seq<char>
    decreases segs.len(),
{
    if segs.len() == 0 {
        Seq::empty()
    } else {
        plain_text(segs.drop_last()) + segs.last().text
    }
}

/// Merging keeps no mergeable neighbours and keeps the text.
pub proof fn lemma_merge(segs: Seq<SegmentModel>)
    ensures
        no_adjacent_mergeable(merge(segs)),
        plain_text(merge(segs)) == plain_text(segs),
        merge(segs).len() <= segs.len(),
    decreases segs.len(),
{
    if segs.len() > 0 {
        let m = merge(segs.drop_last());
        let x = segs.last();
        lemma_merge(segs.drop_last());
        if m.len() > 0 && mergeable(m.last(), x) {
            let r = merge_onto(m, x);
            assert(r.drop_last() =~= m.drop_last());
            assert(m.drop_last().push(m.last()) =~= m);
            assert(plain_text(m) == plain_text(m.drop_last()) + m.last().text);
            assert(plain_text(r) == plain_text(m.drop_last()) + (m.last().text + x.text));
            assert forall|k: int| 0 <= k < r.len() - 1 implies !mergeable(#[trigger] r[k], r[k + 1]) by {
                assert(r[k] == m[k]);
            }
        } else {
            let r = m.push(x);
            assert(r.drop_last() =~= m);
            assert forall|k: int| 0 <= k < r.len() - 1 implies !mergeable(#[trigger] r[k], r[k + 1]) by {
                assert(r[k] == m[k]);
            }
        }
    }
}

/// The kinds of tag that change the style or the link.
#[derive(Debug, Clone, Copy, PartialEq, Eq, Structural)]
pub enum TagKind {
    Bold,
    Italic,
    Underline,
    Link,
}

/// A styling or link tag left open: what to restore when it closes.
pub struct FrameModel {
    pub kind: TagKind,
    pub style: TextStyle,
    pub link: Option<Seq<char>>,
}

/// The parser's state between two tags.
pub struct ParseModel {
    pub style: TextStyle,
    pub link: Option<Seq<char>>,
    pub stack: Seq<FrameModel>,
    pub segs: Seq<SegmentModel>,
}

/// `a` equals the lowercase letter or other character `b`, ignoring ASCII case.
pub open spec fn ci_eq(a: char, b: char) -> bool {
    a == b || ('A' as u32 <= a as u32 <= 'Z' as u32 && a as u32 + 32 == b as u32)
}

/// `name` spells the lowercase `p`, ignoring ASCII case.
pub open spec fn name_is(name: Seq<char>, p: Seq<char>) -> bool {
    name.len() == p.len() && forall|k: int| 0 <= k < p.len() ==> ci_eq(#[trigger] name[k], p[k])
}

/// The kind of a tag name, if it is a styling or link tag.
pub open spec fn kind_of(name: Seq<char>) -> Option<TagKind> {
    if name_is(name, seq!['b']) || name_is(name, seq!['s', 't', 'r', 'o', 'n', 'g']) {
        Some(TagKind::Bold)
    } else if name_is(name, seq!['i']) || name_is(name, seq!['e', 'm']) {
        Some(TagKind::Italic)
    } else if name_is(name, seq!['u']) {
        Some(TagKind::Underline)
    } else if name_is(name, seq!['a']) {
        Some(TagKind::Link)
    } else {
        None
    }
}

/// The tag name starts a new line.
pub open spec fn is_break(name: Seq<char>) -> bool {
    name_is(name, seq!['b', 'r']) || name_is(name, seq!['p'])
}

pub open spec fn is_quote(c: char) -> bool {
    c == '"' || c == '\''
}

/// First index at or after `j` holding a quote, or the length of `t`.
pub open spec fn find_quote(t: Seq<char>, j: int) -> int
    decreases t.len() - j,
{
    if j < 0 || j >= t.len() {
        t.len() as int
    } else if is_quote(t[j]) {
        j
    } else {
        find_quote(t, j + 1)
    }
}

pub open spec fn href_eq() -> Seq<char> {
    seq!['h', 'r', 'e', 'f', '=']
}

/// The bounds of the first quoted, non-empty `href=` value in `t` at or
/// after `k`.
pub open spec fn href_from(t: Seq<char>, k: int) -> Option<(int, int)>
    decreases t.len() - k,
{
    if k < 0 || k >= t.len() {
        None
    } else if has_at(t, k, href_eq()) && k + 5 < t.len() && is_quote(t[k + 5]) && k + 6 < find_quote(
        t,
        k + 6,
    ) < t.len() {
        Some((k + 6, find_quote(t, k + 6)))
    } else {
        href_from(t, k + 1)
    }
}

/// The newline segment a line-break tag emits.
pub open spec fn newline_segment() -> SegmentModel {
    SegmentModel { text: seq!['\n'], style: plain_style(), link: None }
}

/// The state after the literal text `t`: its decoded form, if not empty,
/// becomes a segment in the current style and link.
pub open spec fn after_text(st: ParseModel, t: Seq<char>) -> ParseModel {
    if t.len() > 0 && decode(t).len() > 0 {
        ParseModel {
            segs: st.segs.push(SegmentModel { text: decode(t), style: st.style, link: st.link }),
            ..st
        }
    } else {
        st
    }
}

/// The state after opening a frame of `kind` with the new style and link.
pub open spec fn opened(
    st: ParseModel,
    kind: TagKind,
    style: TextStyle,
    link: Option<Seq<char>>,
) -> ParseModel {
    ParseModel {
        style: style,
        link: link,
        stack: st.stack.push(FrameModel { kind: kind, style: st.style, link: st.link }),
        segs: st.segs,
    }
}

/// The state after the tag `raw`, named `name`.
pub open spec fn after_tag(st: ParseModel, closing: bool, name: Seq<char>, raw: Seq<char>) -> ParseModel {
    if closing {
        match kind_of(name) {
            Some(k) => if st.stack.len() > 0 && st.stack.last().kind == k {
                ParseModel {
                    style: st.stack.last().style,
                    link: st.stack.last().link,
                    stack: st.stack.drop_last(),
                    segs: st.segs,
                }
            } else {
                st
            },
            None => st,
        }
    } else if is_break(name) {
        ParseModel { segs: st.segs.push(newline_segment()), ..st }
    } else {
        match kind_of(name) {
            Some(TagKind::Bold) => opened(st, TagKind::Bold, TextStyle { bold: true, ..st.style }, st.link),
            Some(TagKind::Italic) => opened(
                st,
                TagKind::Italic,
                TextStyle { italic: true, ..st.style },
                st.link,
            ),
            Some(TagKind::Underline) => opened(
                st,
                TagKind::Underline,
                TextStyle { underline: true, ..st.style },
                st.link,
            ),
            Some(TagKind::Link) => match href_from(raw, 0) {
                Some((a, b)) => opened(
                    st,
                    TagKind::Link,
                    TextStyle { underline: true, ..st.style },
                    Some(decode(raw.subrange(a, b))),
                ),
                None => st,
            },
            None => st,
        }
    }
}

/// The state at the end of `s`, scanning from `i` with pending text from `last`.
pub open spec fn scan_from(s: Seq<char>, i: int, last: int, st: ParseModel) -> ParseModel
    decreases s.len() - i,
{
    if i < 0 || i >= s.len() {
        after_text(st, s.subrange(last, s.len() as int))
    } else {
        match tag_at(s, i) {
            Some((e, closing, ns, ne)) => if e > i {
                scan_from(
                    s,
                    e,
                    e,
                    after_tag(
                        after_text(st, s.subrange(last, i)),
                        closing,
                        s.subrange(ns, ne),
                        s.subrange(i, e),
                    ),
                )
            } else {
                st
            },
            None => scan_from(s, i + 1, last, st),
        }
    }
}

/// The state before any text.
pub open spec fn initial_state() -> ParseModel {
    ParseModel { style: plain_style(), link: None, stack: Seq::empty(), segs: Seq::empty() }
}

/// The segments of `s`: its text between tags, decoded and styled by the
/// tags open there, with mergeable neighbours collapsed.
pub open spec fn parse_model(s: Seq<char>) -> Seq<SegmentModel> {
    merge(scan_from(s, 0, 0, initial_state()).segs)
}

impl StyledSegment {
    /// A segment with no style and no link.
    pub fn plain(text: &str) -> (r: StyledSegment)
        ensures
            r@ == (SegmentModel { text: text@, style: plain_style(), link: None }),
    {
        StyledSegment { text: String::from_str(text), style: TextStyle::default(), link: None }
    }

    /// A segment with the given style and no link.
    pub fn styled(text: &str, style: TextStyle) -> (r: StyledSegment)
        ensures
            r@ == (SegmentModel { text: text@, style: style, link: None }),
    {
        StyledSegment { text: String::from_str(text), style, link: None }
    }

    /// A segment with no style that links to `url`.
    pub fn link(text: &str, url: &str) -> (r: StyledSegment)
        ensures
            r@ == (SegmentModel { text: text@, style: plain_style(), link: Some(url@) }),
    {
        StyledSegment {
            text: String::from_str(text),
            style: TextStyle::default(),
            link: Some(String::from_str(url)),
        }
    }
}

fn clone_link(o: &Option<String>) -> (r: Option<String>)
    ensures
        link_view(r) == link_view(*o),
{
    match o {
        Some(s) => Some(s.clone()),
        None => None,
    }
}

fn same_link(a: &Option<String>, b: &Option<String>) -> (r: bool)
    ensures
        r == (link_view(*a) == link_view(*b)),
{
    match (a, b) {
        (Some(x), Some(y)) => *x == *y,
        (None, None) => true,
        _ => false,
    }
}

/// Collapses each run of neighbouring segments that share style and link
/// into one segment.
pub fn merge_segments(segments: Vec<StyledSegment>) -> (r: Vec<StyledSegment>)
    ensures
        models(r@) == merge(models(segments@)),
        no_adjacent_mergeable(models(r@)),
{
    let mut merged: Vec<StyledSegment> = Vec::new();
    let mut i: usize = 0;
    while i < segments.len()
        invariant
            i <= segments@.len(),
            models(merged@) == merge(models(segments@.take(i as int))),
        decreases segments@.len() - i,
    {
        let seg = &segments[i];
        let ghost x = seg@;
        assert(models(segments@.take(i + 1)).drop_last() =~= models(segments@.take(i as int)));
        assert(models(segments@.take(i + 1)).last() == x);
        let n = merged.len();
        if n > 0 && merged[n - 1].style == seg.style && same_link(&merged[n - 1].link, &seg.link) {
            let ghost m0 = merged@;
            let mut last = merged.pop().unwrap();
            last.text.append(seg.text.as_str());
            merged.push(last);
            assert(models(merged@) =~= merge_onto(models(m0), x));
        } else {
            let ghost before = merged@;
            merged.push(StyledSegment { text: seg.text.clone(), style: seg.style, link: clone_link(&seg.link) });
            assert(models(merged@) =~= models(before).push(x));
        }
        i = i + 1;
    }
    assert(segments@.take(segments@.len() as int) =~= segments@);
    proof {
        lemma_merge(models(segments@));
    }
    merged
}

/// The concatenated text of `segments`.
pub fn segments_to_plain_text(segments: &[StyledSegment]) -> (r: String)
    ensures
        r@ == plain_text(models(segments@)),
{
    let mut r = String::new();
    let mut i: usize = 0;
    while i < segments.len()
        invariant
            i <= segments@.len(),
            r@ == plain_text(models(segments@.take(i as int))),
        decreases segments@.len() - i,
    {
        r.append(segments[i].text.as_str());
        assert(models(segments@.take(i + 1)).drop_last() =~= models(segments@.take(i as int)));
        i = i + 1;
    }
    assert(segments@.take(segments@.len() as int) =~= segments@);
    r
}

struct Frame {
    kind: TagKind,
    style: TextStyle,
    link: Option<String>,
}

impl View for Frame {
    type V = FrameModel;

    closed spec fn view(&self) -> FrameModel {
        FrameModel { kind: self.kind, style: self.style, link: link_view(self.link) }
    }
}

struct ParseState {
    style: TextStyle,
    link: Option<String>,
    stack: Vec<Frame>,
    segments: Vec<StyledSegment>,
}

impl View for ParseState {
    type V = ParseModel;

    closed spec fn view(&self) -> ParseModel {
        ParseModel {
            style: self.style,
            link: link_view(self.link),
            stack: self.stack@.map_values(|f: Frame| f@),
            segs: models(self.segments@),
        }
    }
}

fn ci_eq_char(a: char, b: char) -> (r: bool)
    ensures
        r == ci_eq(a, b),
{
    let n = a as u32;
    a == b || (65 <= n && n <= 90 && n + 32 == b as u32)
}

fn name_matches(v: &Vec<char>, ns: usize, ne: usize, p: &Vec<char>) -> (r: bool)
    requires
        ns <= ne <= v@.len(),
    ensures
        r == name_is(v@.subrange(ns as int, ne as int), p@),
{
    let ghost name = v@.subrange(ns as int, ne as int);
    if ne - ns != p.len() {
        return false;
    }
    let mut k: usize = 0;
    while k < p.len()
        invariant
            ne - ns == p@.len(),
            ns <= ne <= v@.len(),
            name == v@.subrange(ns as int, ne as int),
            k <= p@.len(),
            forall|t: int| 0 <= t < k ==> ci_eq(#[trigger] name[t], p@[t]),
        decreases p@.len() - k,
    {
        if !ci_eq_char(v[ns + k], p[k]) {
            assert(name[k as int] == v@[ns + k]);
            return false;
        }
        k = k + 1;
    }
    true
}

fn kind_of_name(v: &Vec<char>, ns: usize, ne: usize) -> (r: Option<TagKind>)
    requires
        ns <= ne <= v@.len(),
    ensures
        r == kind_of(v@.subrange(ns as int, ne as int)),
{
    let b = vec!['b'];
    let strong = vec!['s', 't', 'r', 'o', 'n', 'g'];
    let i = vec!['i'];
    let em = vec!['e', 'm'];
    let u = vec!['u'];
    let a = vec!['a'];
    assert(b@ =~= seq!['b']);
    assert(strong@ =~= seq!['s', 't', 'r', 'o', 'n', 'g']);
    assert(i@ =~= seq!['i']);
    assert(em@ =~= seq!['e', 'm']);
    assert(u@ =~= seq!['u']);
    assert(a@ =~= seq!['a']);
    if name_matches(v, ns, ne, &b) || name_matches(v, ns, ne, &strong) {
        Some(TagKind::Bold)
    } else if name_matches(v, ns, ne, &i) || name_matches(v, ns, ne, &em) {
        Some(TagKind::Italic)
    } else if name_matches(v, ns, ne, &u) {
        Some(TagKind::Underline)
    } else if name_matches(v, ns, ne, &a) {
        Some(TagKind::Link)
    } else {
        None
    }
}

fn is_break_name(v: &Vec<char>, ns: usize, ne: usize) -> (r: bool)
    requires
        ns <= ne <= v@.len(),
    ensures
        r == is_break(v@.subrange(ns as int, ne as int)),
{
    let br = vec!['b', 'r'];
    let p = vec!['p'];
    assert(br@ =~= seq!['b', 'r']);
    assert(p@ =~= seq!['p']);
    name_matches(v, ns, ne, &br) || name_matches(v, ns, ne, &p)
}

fn find_quote_from(t: &Vec<char>, j: usize) -> (r: usize)
    requires
        j <= t@.len(),
    ensures
        r == find_quote(t@, j as int),
        j <= r <= t@.len(),
{
    let mut k = j;
    while k < t.len() && t[k] != '"' && t[k] != '\''
        invariant
            j <= k <= t@.len(),
            find_quote(t@, j as int) == find_quote(t@, k as int),
        decreases t@.len() - k,
    {
        k = k + 1;
    }
    k
}

fn href_bounds(t: &Vec<char>) -> (r: Option<(usize, usize)>)
    ensures
        r matches Some((a, b)) ==> href_from(t@, 0) == Some((a as int, b as int)) && a <= b
            <= t@.len(),
        r is None ==> href_from(t@, 0) is None,
{
    let pat = vec!['h', 'r', 'e', 'f', '='];
    assert(pat@ =~= href_eq());
    let n = t.len();
    let mut k: usize = 0;
    while k < n
        invariant
            n == t@.len(),
            k <= n,
            pat@ == href_eq(),
            href_from(t@, 0) == href_from(t@, k as int),
        decreases n - k,
    {
        if crate::entities::matches_at(t, k, &pat) && k + 5 < n && (t[k + 5] == '"' || t[k
            + 5] == '\'') {
            let q = find_quote_from(t, k + 6);
            if k + 6 < q && q < n {
                return Some((k + 6, q));
            }
        }
        k = k + 1;
    }
    None
}

fn push_text(st: &mut ParseState, v: &Vec<char>, lo: usize, hi: usize)
    requires
        lo <= hi <= v@.len(),
    ensures
        final(st)@ == after_text(old(st)@, v@.subrange(lo as int, hi as int)),
{
    if lo < hi {
        let mut text = String::new();
        decode_into(v, lo, hi, &mut text);
        assert(text@ =~= decode(v@.subrange(lo as int, hi as int)));
        if !text.as_str().is_empty() {
            let ghost before = st.segments@;
            st.segments.push(StyledSegment { text, style: st.style, link: clone_link(&st.link) });
            assert(models(st.segments@) =~= models(before).push(st.segments@.last()@));
        }
    }
}

fn open_frame(st: &mut ParseState, kind: TagKind, style: TextStyle, link: Option<String>)
    ensures
        final(st)@ == opened(old(st)@, kind, style, link_view(link)),
{
    let ghost before = st.stack@;
    let prev_link = clone_link(&st.link);
    st.stack.push(Frame { kind, style: st.style, link: prev_link });
    st.style = style;
    st.link = link;
    assert(st.stack@.map_values(|f: Frame| f@) =~= before.map_values(|f: Frame| f@).push(
        st.stack@.last()@,
    ));
}

fn apply_tag(
    st: &mut ParseState,
    v: &Vec<char>,
    i: usize,
    e: usize,
    closing: bool,
    ns: usize,
    ne: usize,
)
    requires
        i <= e <= v@.len(),
        ns <= ne <= v@.len(),
    ensures
        final(st)@ == after_tag(
            old(st)@,
            closing,
            v@.subrange(ns as int, ne as int),
            v@.subrange(i as int, e as int),
        ),
{
    let kind = kind_of_name(v, ns, ne);
    if closing {
        if let Some(k) = kind {
            let n = st.stack.len();
            if n > 0 && st.stack[n - 1].kind == k {
                let ghost before = st.stack@;
                let f = st.stack.pop().unwrap();
                st.style = f.style;
                st.link = f.link;
                assert(st.stack@.map_values(|f: Frame| f@) =~= before.map_values(|f: Frame| f@).drop_last());
            }
        }
    } else if is_break_name(v, ns, ne) {
        let ghost before = st.segments@;
        proof {
            reveal_strlit("\n");
        }
        assert("\n"@ =~= seq!['\n']);
        st.segments.push(StyledSegment::plain("\n"));
        assert(models(st.segments@) =~= models(before).push(newline_segment()));
    } else {
        match kind {
            Some(TagKind::Bold) => {
                let style = TextStyle { bold: true, ..st.style };
                let link = clone_link(&st.link);
                open_frame(st, TagKind::Bold, style, link);
            },
            Some(TagKind::Italic) => {
                let style = TextStyle { italic: true, ..st.style };
                let link = clone_link(&st.link);
                open_frame(st, TagKind::Italic, style, link);
            },
            Some(TagKind::Underline) => {
                let style = TextStyle { underline: true, ..st.style };
                let link = clone_link(&st.link);
                open_frame(st, TagKind::Underline, style, link);
            },
            Some(TagKind::Link) => {
                let raw = copy_range(v, i, e);
                if let Some((a, b)) = href_bounds(&raw) {
                    let mut url = String::new();
                    decode_into(&raw, a, b, &mut url);
                    assert(url@ =~= decode(raw@.subrange(a as int, b as int)));
                    let style = TextStyle { underline: true, ..st.style };
                    open_frame(st, TagKind::Link, style, Some(url));
                }
            },
            None => {},
        }
    }
}

/// Parses notification markup into styled segments.
///
/// Text between tags is entity-decoded and takes the style of the tags
/// open around it: `b`/`strong` bold, `i`/`em` italic, `u` underline, and
/// `a` with an `href` a link, underlined. `br` and `p` give a newline. A
/// closing tag restores the state only when it closes the innermost open
/// tag of its kind. Neighbouring segments with equal style and link are
/// merged.
pub fn parse_markup(html: &str) -> (r: Vec<StyledSegment>)
    ensures
        models(r@) == parse_model(html@),
        no_adjacent_mergeable(models(r@)),
{
    let v = chars_of(html);
    let mut st = ParseState {
        style: TextStyle::default(),
        link: None,
        stack: Vec::new(),
        segments: Vec::new(),
    };
    assert(st@.stack =~= Seq::<FrameModel>::empty());
    assert(st@.segs =~= Seq::<SegmentModel>::empty());
    let n = v.len();
    let mut i: usize = 0;
    let mut last: usize = 0;
    while i < n
        invariant
            n == v@.len(),
            last <= i <= n,
            scan_from(v@, 0, 0, initial_state()) == scan_from(v@, i as int, last as int, st@),
        decreases n - i,
    {
        proof {
            lemma_tag_at(v@, i as int);
        }
        match tag_at_index(&v, i) {
            Some((e, closing, ns, ne)) => {
                push_text(&mut st, &v, last, i);
                apply_tag(&mut st, &v, i, e, closing, ns, ne);
                i = e;
                last = e;
            },
            None => {
                i = i + 1;
            },
        }
    }
    push_text(&mut st, &v, last, n);
    merge_segments(st.segments)
}

} // verus!
