//! Entity decoder: one left-to-right pass over a fixed table of character
//! references, with `&amp;` last in the table.
use vstd::prelude::*;
use crate::text::{chars_of, push_char};

verus! {

/// The names of the decoded character references, in table order.
pub open spec fn entity_names() -> Seq<Seq<char>> {
    seq![
        seq!['&', 'l', 't', ';'],
        seq!['&', 'g', 't', ';'],
        seq!['&', 'q', 'u', 'o', 't', ';'],
        seq!['&', '#', '3', '9', ';'],
        seq!['&', '#', 'x', '2', '7', ';'],
        seq!['&', '#', '5', '8', ';'],
        seq!['&', '#', 'x', '3', 'A', ';'],
        seq!['&', '#', '4', '7', ';'],
        seq!['&', '#', 'x', '2', 'F', ';'],
        seq!['&', '#', '3', '2', ';'],
        seq!['&', '#', '6', '1', ';'],
        seq!['&', 'n', 'b', 's', 'p', ';'],
        seq!['&', 'a', 'm', 'p', ';'],
    ]
}

/// The character each reference of `entity_names` stands for.
pub open spec fn entity_chars() -> Seq<char> {
    seq!['<', '>', '"', '\'', '\'', ':', ':', '/', '/', ' ', '=', ' ', '&']
}

/// `s` holds `p` starting at index `i`.
pub open spec fn has_at(s: Seq<char>, i: int, p: Seq<char>) -> bool {
    0 <= i && i + p.len() <= s.len() && s.subrange(i, i + p.len()) == p
}

/// Index of the first table entry, from entry `k` on, that `s` starts with.
pub open spec fn entity_from(s: Seq<char>, k: int) -> Option<int>
    decreases 13 - k,
{
    if k < 0 || k >= 13 {
        None
    } else if has_at(s, 0, entity_names()[k]) {
        Some(k)
    } else {
        entity_from(s, k + 1)
    }
}

/// `s` with every table reference replaced by its character, in one pass.
pub open spec fn decode(s: Seq<char>) -> Seq<char>
    decreases s.len(),
{
    if s.len() == 0 {
        s
    } else {
        match entity_from(s, 0) {
            Some(k) => if 0 <= k < 13 && 0 < entity_names()[k].len() <= s.len() {
                seq![entity_chars()[k]].add(decode(s.skip(entity_names()[k].len() as int)))
            } else {
                s
            },
            None => seq![s[0]].add(decode(s.skip(1))),
        }
    }
}

pub(crate) proof fn lemma_entity_from_range(s: Seq<char>, k: int)
    requires
        0 <= k,
    ensures
        entity_from(s, k) matches Some(j) ==> k <= j < 13 && has_at(s, 0, entity_names()[j])
            && entity_names()[j].len() >= 4,
    decreases 13 - k,
{
    if k < 13 && !has_at(s, 0, entity_names()[k]) {
        lemma_entity_from_range(s, k + 1);
    }
}

/// Decoding never lengthens the text, and keeps its length only where it
/// changes nothing.
pub proof fn lemma_decode_len(s: Seq<char>)
    ensures
        decode(s).len() <= s.len(),
        decode(s).len() == s.len() ==> decode(s) == s,
    decreases s.len(),
{
    if s.len() > 0 {
        lemma_entity_from_range(s, 0);
        match entity_from(s, 0) {
            Some(k) => {
                lemma_decode_len(s.skip(entity_names()[k].len() as int));
            },
            None => {
                lemma_decode_len(s.skip(1));
                assert(s =~= seq![s[0]].add(s.skip(1)));
            },
        }
    }
}

/// `p` occurs in `v` at index `i`.
pub(crate) fn matches_at(v: &Vec<char>, i: usize, p: &Vec<char>) -> (r: bool)
    requires
        i <= v@.len(),
    ensures
        r == has_at(v@, i as int, p@),
{
    let vl = v.len();
    if p.len() > vl - i {
        return false;
    }
    let mut j: usize = 0;
    while j < p.len()
        invariant
            i + p@.len() <= v@.len(),
            vl == v@.len(),
            j <= p@.len(),
            forall|t: int| 0 <= t < j ==> v@[i + t] == p@[t],
        decreases p@.len() - j,
    {
        if v[i + j] != p[j] {
            assert(v@.subrange(i as int, i + p@.len())[j as int] != p@[j as int]);
            return false;
        }
        j = j + 1;
    }
    assert(v@.subrange(i as int, i + p@.len()) =~= p@);
    true
}

/// The table of references, as executable data, in table order.
fn entity_table() -> (r: (Vec<Vec<char>>, Vec<char>))
    ensures
        r.0@.len() == 13,
        r.1@ == entity_chars(),
        forall|k: int| 0 <= k < 13 ==> (#[trigger] r.0@[k])@ == entity_names()[k],
{
    let names = vec![
        vec!['&', 'l', 't', ';'],
        vec!['&', 'g', 't', ';'],
        vec!['&', 'q', 'u', 'o', 't', ';'],
        vec!['&', '#', '3', '9', ';'],
        vec!['&', '#', 'x', '2', '7', ';'],
        vec!['&', '#', '5', '8', ';'],
        vec!['&', '#', 'x', '3', 'A', ';'],
        vec!['&', '#', '4', '7', ';'],
        vec!['&', '#', 'x', '2', 'F', ';'],
        vec!['&', '#', '3', '2', ';'],
        vec!['&', '#', '6', '1', ';'],
        vec!['&', 'n', 'b', 's', 'p', ';'],
        vec!['&', 'a', 'm', 'p', ';'],
    ];
    let chars = vec!['<', '>', '"', '\'', '\'', ':', ':', '/', '/', ' ', '=', ' ', '&'];
    assert(chars@ =~= entity_chars());
    assert forall|k: int| 0 <= k < 13 implies (#[trigger] names@[k])@ == entity_names()[k] by {
        assert(names@[0]@ =~= entity_names()[0]);
        assert(names@[1]@ =~= entity_names()[1]);
        assert(names@[2]@ =~= entity_names()[2]);
        assert(names@[3]@ =~= entity_names()[3]);
        assert(names@[4]@ =~= entity_names()[4]);
        assert(names@[5]@ =~= entity_names()[5]);
        assert(names@[6]@ =~= entity_names()[6]);
        assert(names@[7]@ =~= entity_names()[7]);
        assert(names@[8]@ =~= entity_names()[8]);
        assert(names@[9]@ =~= entity_names()[9]);
        assert(names@[10]@ =~= entity_names()[10]);
        assert(names@[11]@ =~= entity_names()[11]);
        assert(names@[12]@ =~= entity_names()[12]);
    }
    (names, chars)
}

/// Decodes the table's references in `v` from index `start` on, appending
/// to `out`.
pub(crate) fn decode_into(v: &Vec<char>, start: usize, end: usize, out: &mut String)
    requires
        start <= end <= v@.len(),
    ensures
        final(out)@ == old(out)@ + decode(v@.subrange(start as int, end as int)),
{
    let (names, chars) = entity_table();
    let ghost w = v@.subrange(start as int, end as int);
    let mut i: usize = start;
    while i < end
        invariant
            start <= i <= end <= v@.len(),
            w == v@.subrange(start as int, end as int),
            names@.len() == 13,
            chars@ == entity_chars(),
            forall|k: int| 0 <= k < 13 ==> (#[trigger] names@[k])@ == entity_names()[k],
            old(out)@ + decode(w) == out@ + decode(v@.subrange(i as int, end as int)),
        decreases end - i,
    {
        let ghost rest = v@.subrange(i as int, end as int);
        let mut k: usize = 0;
        let mut found = false;
        while k < 13 && !found
            invariant
                k <= 13,
                i < end <= v@.len(),
                rest == v@.subrange(i as int, end as int),
                names@.len() == 13,
                forall|q: int| 0 <= q < 13 ==> (#[trigger] names@[q])@ == entity_names()[q],
                !found ==> entity_from(rest, 0) == entity_from(rest, k as int),
                found ==> k >= 1 && entity_from(rest, 0) == Some((k - 1) as int),
            decreases 13 - k + if found { 0int } else { 1int },
        {
            if names[k].len() <= end - i && matches_at(v, i, &names[k]) {
                assert(rest.subrange(0, names@[k as int]@.len() as int) =~= v@.subrange(
                    i as int,
                    i + names@[k as int]@.len(),
                ));
                found = true;
            } else {
                assert(!has_at(rest, 0, entity_names()[k as int])) by {
                    if has_at(rest, 0, entity_names()[k as int]) {
                        assert(rest.subrange(0, names@[k as int]@.len() as int) =~= v@.subrange(
                            i as int,
                            i + names@[k as int]@.len(),
                        ));
                    }
                }
            }
            k = k + 1;
        }
        proof {
            lemma_entity_from_range(rest, 0);
        }
        if found {
            let n = names[k - 1].len();
            push_char(out, chars[k - 1]);
            assert(rest.skip(n as int) =~= v@.subrange(i + n, end as int));
            i = i + n;
        } else {
            push_char(out, v[i]);
            assert(rest.skip(1) =~= v@.subrange(i + 1, end as int));
            i = i + 1;
        }
    }
    assert(v@.subrange(i as int, end as int) =~= Seq::<char>::empty());
}

/// Decodes the fixed set of character references in `text` in one pass.
pub fn decode_entities(text: &str) -> (r: String)
    ensures
        r@ == decode(text@),
{
    let v = chars_of(text);
    let mut out = String::new();
    decode_into(&v, 0, v.len(), &mut out);
    assert(v@.subrange(0, v@.len() as int) =~= text@);
    out
}

} // verus!
