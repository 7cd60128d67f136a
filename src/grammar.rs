//! Where the timestamp pair of a line stands, in each of the two grammars.
//!
//! A timestamp field is `D+:D+:D+` then `.` or `,` then `D+`, where `D` is an
//! ASCII digit; it ends where its last run of digits ends. Spaces are ASCII
//! whitespace.
//!
//! Sequential-block lines carry `<field> <spaces>--><spaces> <field>` anywhere in
//! the line; the leftmost such pair is taken.
//!
//! Tagged-dialogue lines carry `,<field>,<field>,` after the first tag
//! `Dialogue<spaces>:` of the line; the last such pair is taken.
use vstd::prelude::*;
use crate::codec::{digits_end, is_frac_sep, scan_digits};
use crate::text::{is_white_space, white_space};

verus! {

/// The two supported subtitle grammars.
#[derive(Clone, Copy, Debug, PartialEq, Eq, Structural)]
pub enum Grammar {
    /// Numbered caption blocks with `start --> end` lines; milliseconds after `,`.
    SequentialBlock,
    /// `Dialogue:` lines with comma-separated fields; centiseconds after `.`.
    TaggedDialogue,
}

/// The first index at or after `i` that does not hold a space.
pub open spec fn spaces_end(s: Seq<char>, i: int) -> int
    decreases s.len() - i,
{
    if 0 <= i < s.len() && is_white_space(s[i]) {
        spaces_end(s, i + 1)
    } else {
        i
    }
}

/// The end of the timestamp field that starts at `i`, if one starts there.
pub open spec fn field_end(s: Seq<char>, i: int) -> Option<int> {
    let a = digits_end(s, i);
    let b = digits_end(s, a + 1);
    let c = digits_end(s, b + 1);
    let d = digits_end(s, c + 1);
    if 0 <= i && i < a && a < s.len() && s[a] == ':' && a + 1 < b && b < s.len() && s[b] == ':'
        && b + 1 < c && c < s.len() && is_frac_sep(s[c]) && c + 1 < d {
        Some(d)
    } else {
        None
    }
}

/// The end of `<spaces>--><spaces>` starting at `j`, if it stands there.
pub open spec fn arrow_end(s: Seq<char>, j: int) -> Option<int> {
    let w = spaces_end(s, j);
    let k = spaces_end(s, w + 3);
    if 0 <= j && j < w && w + 3 <= s.len() && s[w] == '-' && s[w + 1] == '-' && s[w + 2] == '>'
        && w + 3 < k {
        Some(k)
    } else {
        None
    }
}

/// The spans `(a, b, c, d)` of the two fields `s[a..b]` and `s[c..d]` of a
/// sequential-block pair starting at `i`.
pub open spec fn block_pair_at(s: Seq<char>, i: int) -> Option<(int, int, int, int)> {
    match field_end(s, i) {
        Some(b) => match arrow_end(s, b) {
            Some(c) => match field_end(s, c) {
                Some(d) => Some((i, b, c, d)),
                None => None,
            },
            None => None,
        },
        None => None,
    }
}

/// The first sequential-block pair that starts at or after `i`.
pub open spec fn first_block_pair(s: Seq<char>, i: int) -> Option<(int, int, int, int)>
    decreases s.len() - i,
{
    if 0 <= i < s.len() {
        if block_pair_at(s, i) is Some {
            block_pair_at(s, i)
        } else {
            first_block_pair(s, i + 1)
        }
    } else {
        None
    }
}

pub open spec fn is_tag_at(s: Seq<char>, p: int) -> bool {
    0 <= p && p + 8 <= s.len() && s.subrange(p, p + 8) == seq![
        'D',
        'i',
        'a',
        'l',
        'o',
        'g',
        'u',
        'e',
    ]
}

/// The end of the tag `Dialogue<spaces>:` that starts at `p`, if one does.
pub open spec fn tag_end(s: Seq<char>, p: int) -> Option<int> {
    let w = spaces_end(s, p + 8);
    if is_tag_at(s, p) && w < s.len() && s[w] == ':' {
        Some(w + 1)
    } else {
        None
    }
}

/// The end of the first tag that starts at or after `p`.
pub open spec fn first_tag_end(s: Seq<char>, p: int) -> Option<int>
    decreases s.len() - p,
{
    if 0 <= p < s.len() {
        if tag_end(s, p) is Some {
            tag_end(s, p)
        } else {
            first_tag_end(s, p + 1)
        }
    } else {
        None
    }
}

/// The spans of the fields of `,<field>,<field>,` when it starts at `q`.
pub open spec fn dialogue_pair_at(s: Seq<char>, q: int) -> Option<(int, int, int, int)> {
    if 0 <= q < s.len() && s[q] == ',' {
        match field_end(s, q + 1) {
            Some(b) => if b < s.len() && s[b] == ',' {
                match field_end(s, b + 1) {
                    Some(d) => if d < s.len() && s[d] == ',' {
                        Some((q + 1, b, b + 1, d))
                    } else {
                        None
                    },
                    None => None,
                }
            } else {
                None
            },
            None => None,
        }
    } else {
        None
    }
}

/// The last dialogue pair that starts in `lo..=q`.
pub open spec fn last_dialogue_pair(s: Seq<char>, q: int, lo: int) -> Option<(int, int, int, int)>
    decreases q + 1 - lo,
{
    if lo <= q {
        if dialogue_pair_at(s, q) is Some {
            dialogue_pair_at(s, q)
        } else {
            last_dialogue_pair(s, q - 1, lo)
        }
    } else {
        None
    }
}

/// The spans `(a, b, c, d)` of the start field `s[a..b]` and the end field
/// `s[c..d]` of the timestamp pair of line `s`, if it has one.
pub open spec fn pair_span(g: Grammar, s: Seq<char>) -> Option<(int, int, int, int)> {
    match g {
        Grammar::SequentialBlock => first_block_pair(s, 0),
        Grammar::TaggedDialogue => match first_tag_end(s, 0) {
            Some(e) => last_dialogue_pair(s, s.len() - 1, e),
            None => None,
        },
    }
}

pub open spec fn opt_usize(r: Option<usize>) -> Option<int> {
    match r {
        Some(x) => Some(x as int),
        None => None,
    }
}

pub open spec fn opt_span(r: Option<(usize, usize, usize, usize)>) -> Option<(int, int, int, int)> {
    match r {
        Some(x) => Some((x.0 as int, x.1 as int, x.2 as int, x.3 as int)),
        None => None,
    }
}

fn skip_spaces(v: &Vec<char>, i: usize) -> (r: usize)
    requires
        i <= v@.len(),
    ensures
        r as int == spaces_end(v@, i as int),
        i <= r <= v@.len(),
{
    let mut j: usize = i;
    while j < v.len() && white_space(v[j])
        invariant
            i <= j <= v@.len(),
            spaces_end(v@, i as int) == spaces_end(v@, j as int),
        decreases v@.len() - j,
    {
        j = j + 1;
    }
    j
}

fn field_end_at(v: &Vec<char>, i: usize) -> (r: Option<usize>)
    requires
        i <= v@.len(),
    ensures
        opt_usize(r) == field_end(v@, i as int),
        r matches Some(d) ==> d <= v@.len(),
{
    let n = v.len();
    let (a, _) = scan_digits(v, i);
    if !(i < a && a < n && v[a] == ':') {
        return None;
    }
    let (b, _) = scan_digits(v, a + 1);
    if !(a + 1 < b && b < n && v[b] == ':') {
        return None;
    }
    let (c, _) = scan_digits(v, b + 1);
    if !(b + 1 < c && c < n && (v[c] == '.' || v[c] == ',')) {
        return None;
    }
    let (d, _) = scan_digits(v, c + 1);
    if !(c + 1 < d) {
        return None;
    }
    Some(d)
}

fn arrow_end_at(v: &Vec<char>, j: usize) -> (r: Option<usize>)
    requires
        j <= v@.len(),
    ensures
        opt_usize(r) == arrow_end(v@, j as int),
        r matches Some(k) ==> k <= v@.len(),
{
    let w = skip_spaces(v, j);
    if !(j < w && w < v.len() && v.len() - w >= 3 && v[w] == '-' && v[w + 1] == '-' && v[w + 2] == '>') {
        return None;
    }
    let k = skip_spaces(v, w + 3);
    if !(w + 3 < k) {
        return None;
    }
    Some(k)
}

fn block_pair_at_exec(v: &Vec<char>, i: usize) -> (r: Option<(usize, usize, usize, usize)>)
    requires
        i <= v@.len(),
    ensures
        opt_span(r) == block_pair_at(v@, i as int),
        r matches Some(x) ==> x.3 <= v@.len(),
{
    match field_end_at(v, i) {
        Some(b) => match arrow_end_at(v, b) {
            Some(c) => match field_end_at(v, c) {
                Some(d) => Some((i, b, c, d)),
                None => None,
            },
            None => None,
        },
        None => None,
    }
}

fn tag_end_at(v: &Vec<char>, p: usize) -> (r: Option<usize>)
    requires
        p <= v@.len(),
    ensures
        opt_usize(r) == tag_end(v@, p as int),
        r matches Some(e) ==> e <= v@.len(),
{
    if !(v.len() - p >= 8 && v[p] == 'D' && v[p + 1] == 'i' && v[p + 2] == 'a' && v[p + 3] == 'l'
        && v[p + 4] == 'o' && v[p + 5] == 'g' && v[p + 6] == 'u' && v[p + 7] == 'e') {
        assert(!is_tag_at(v@, p as int)) by {
            if is_tag_at(v@, p as int) {
                assert(v@.subrange(p as int, p + 8)[0] == v@[p as int]);
                assert(v@.subrange(p as int, p + 8)[1] == v@[p + 1]);
                assert(v@.subrange(p as int, p + 8)[2] == v@[p + 2]);
                assert(v@.subrange(p as int, p + 8)[3] == v@[p + 3]);
                assert(v@.subrange(p as int, p + 8)[4] == v@[p + 4]);
                assert(v@.subrange(p as int, p + 8)[5] == v@[p + 5]);
                assert(v@.subrange(p as int, p + 8)[6] == v@[p + 6]);
                assert(v@.subrange(p as int, p + 8)[7] == v@[p + 7]);
            }
        }
        return None;
    }
    assert(is_tag_at(v@, p as int)) by {
        assert(v@.subrange(p as int, p + 8) =~= seq!['D', 'i', 'a', 'l', 'o', 'g', 'u', 'e']);
    }
    let w = skip_spaces(v, p + 8);
    if !(w < v.len() && v[w] == ':') {
        return None;
    }
    Some(w + 1)
}

fn dialogue_pair_at_exec(v: &Vec<char>, q: usize) -> (r: Option<(usize, usize, usize, usize)>)
    requires
        q <= v@.len(),
    ensures
        opt_span(r) == dialogue_pair_at(v@, q as int),
        r matches Some(x) ==> x.3 <= v@.len(),
{
    if !(q < v.len() && v[q] == ',') {
        return None;
    }
    match field_end_at(v, q + 1) {
        Some(b) => {
            if !(b < v.len() && v[b] == ',') {
                return None;
            }
            match field_end_at(v, b + 1) {
                Some(d) => {
                    if !(d < v.len() && v[d] == ',') {
                        return None;
                    }
                    Some((q + 1, b, b + 1, d))
                },
                None => None,
            }
        },
        None => None,
    }
}

/// Finds the timestamp pair of line `v` in grammar `g`.
pub fn find_pair(g: Grammar, v: &Vec<char>) -> (r: Option<(usize, usize, usize, usize)>)
    ensures
        opt_span(r) == pair_span(g, v@),
        r matches Some(x) ==> x.0 <= x.1 <= x.2 <= x.3 <= v@.len(),
{
    match g {
        Grammar::SequentialBlock => {
            let mut i: usize = 0;
            while i < v.len()
                invariant
                    g == Grammar::SequentialBlock,
                    i <= v@.len(),
                    first_block_pair(v@, 0) == first_block_pair(v@, i as int),
                decreases v@.len() - i,
            {
                let r = block_pair_at_exec(v, i);
                if r.is_some() {
                    assert(first_block_pair(v@, i as int) == block_pair_at(v@, i as int));
                    return r;
                }
                assert(first_block_pair(v@, i as int) == first_block_pair(v@, i + 1));
                i = i + 1;
            }
            None
        },
        Grammar::TaggedDialogue => {
            let mut p: usize = 0;
            let mut e: Option<usize> = None;
            while p < v.len() && e.is_none()
                invariant
                    p <= v@.len(),
                    e is None ==> first_tag_end(v@, 0) == first_tag_end(v@, p as int),
                    e is Some ==> opt_usize(e) == first_tag_end(v@, 0),
                    e matches Some(x) ==> x <= v@.len(),
                decreases v@.len() - p, (if e is None { 1int } else { 0int }),
            {
                let t = tag_end_at(v, p);
                if t.is_some() {
                    assert(first_tag_end(v@, p as int) == tag_end(v@, p as int));
                    e = t;
                } else {
                    assert(first_tag_end(v@, p as int) == first_tag_end(v@, p + 1));
                    p = p + 1;
                }
            }
            let lo = match e {
                Some(x) => x,
                None => {
                    return None;
                },
            };
            let mut q: usize = v.len();
            while q > lo
                invariant
                    g == Grammar::TaggedDialogue,
                    opt_usize(e) == first_tag_end(v@, 0),
                    e == Some(lo),
                    lo <= q <= v@.len(),
                    last_dialogue_pair(v@, v@.len() - 1, lo as int) == last_dialogue_pair(
                        v@,
                        q - 1,
                        lo as int,
                    ),
                decreases q,
            {
                let r = dialogue_pair_at_exec(v, q - 1);
                if r.is_some() {
                    assert(last_dialogue_pair(v@, q - 1, lo as int) == dialogue_pair_at(
                        v@,
                        q - 1,
                    ));
                    return r;
                }
                assert(last_dialogue_pair(v@, q - 1, lo as int) == last_dialogue_pair(
                    v@,
                    q - 2,
                    lo as int,
                ));
                q = q - 1;
            }
            None
        },
    }
}

} // verus!
