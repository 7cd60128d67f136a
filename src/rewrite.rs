//! Rewrites the timestamp pair of a line, and the resolver that holds the delta
//! across the lines of one file.
use vstd::prelude::*;
use crate::codec::{format_ms, ms2str, parse_chars, parse_ms, MAX_TIMESTAMP_MS};
use crate::grammar::{find_pair, pair_span, Grammar};
use crate::offset::{mode_in_range, OffsetMode};
use crate::text::{chars_of, push_char, push_range};

verus! {

/// Why a line could not be rewritten.
#[derive(Clone, Copy, Debug, PartialEq, Eq, Structural)]
pub enum LineError {
    /// A timestamp of the pair passes `MAX_TIMESTAMP_MS`.
    TimestampOutOfRange,
}

/// The sub-second marker with which a grammar writes timestamps.
pub open spec fn marker(g: Grammar) -> char {
    match g {
        Grammar::SequentialBlock => ',',
        Grammar::TaggedDialogue => '.',
    }
}

/// What a grammar writes between the two timestamps of a pair.
pub open spec fn joiner(g: Grammar) -> Seq<char> {
    match g {
        Grammar::SequentialBlock => seq![' ', '-', '-', '>', ' '],
        Grammar::TaggedDialogue => seq![','],
    }
}

/// The millisecond values of the pair of line `s`, where it has one and both read.
pub open spec fn pair_values(g: Grammar, s: Seq<char>) -> Option<(int, int)> {
    match pair_span(g, s) {
        Some((a, b, c, d)) => match (parse_ms(s.subrange(a, b)), parse_ms(s.subrange(c, d))) {
            (Some(x), Some(y)) => Some((x, y)),
            _ => None,
        },
        None => None,
    }
}

/// Line `s` with both timestamps of its pair moved by `delta`: everything
/// before the start field and after the end field is kept. A line without a
/// pair is kept whole; `None` where a timestamp of the pair does not read.
pub open spec fn rewritten(g: Grammar, s: Seq<char>, delta: int) -> Option<Seq<char>> {
    match pair_span(g, s) {
        None => Some(s),
        Some((a, b, c, d)) => match pair_values(g, s) {
            Some((x, y)) => Some(
                s.subrange(0, a) + format_ms(x + delta, marker(g)) + joiner(g) + format_ms(
                    y + delta,
                    marker(g),
                ) + s.subrange(d, s.len() as int),
            ),
            None => None,
        },
    }
}

fn copy_range(v: &Vec<char>, from: usize, to: usize) -> (r: Vec<char>)
    requires
        from <= to <= v@.len(),
    ensures
        r@ == v@.subrange(from as int, to as int),
{
    let mut r: Vec<char> = Vec::new();
    let mut i: usize = from;
    while i < to
        invariant
            from <= i <= to <= v@.len(),
            r@ == v@.subrange(from as int, i as int),
        decreases to - i,
    {
        r.push(v[i]);
        i = i + 1;
    }
    r
}

/// The values of the timestamp pair of `v`: `Ok(None)` where it has no pair.
fn read_pair(g: Grammar, v: &Vec<char>) -> (r: Result<
    Option<((usize, usize, usize, usize), i64, i64)>,
    LineError,
>)
    ensures
        r matches Ok(None) ==> pair_span(g, v@) is None,
        r matches Ok(Some((sp, x, y))) ==> pair_span(g, v@) == Some(
            (sp.0 as int, sp.1 as int, sp.2 as int, sp.3 as int),
        ) && pair_values(g, v@) == Some((x as int, y as int)) && sp.0 <= sp.1 <= sp.2 <= sp.3
            <= v@.len() && 0 <= x <= MAX_TIMESTAMP_MS && 0 <= y <= MAX_TIMESTAMP_MS,
        r is Err ==> pair_span(g, v@) is Some && pair_values(g, v@) is None,
{
    match find_pair(g, v) {
        None => Ok(None),
        Some(sp) => {
            let first = copy_range(v, sp.0, sp.1);
            let second = copy_range(v, sp.2, sp.3);
            match (parse_chars(&first), parse_chars(&second)) {
                (Some(x), Some(y)) => Ok(Some((sp, x, y))),
                _ => Err(LineError::TimestampOutOfRange),
            }
        },
    }
}

/// Writes `v` with its pair, at `sp`, replaced by `x + delta` and `y + delta`.
fn write_shifted(
    g: Grammar,
    v: &Vec<char>,
    sp: (usize, usize, usize, usize),
    x: i64,
    y: i64,
    delta: i64,
) -> (r: String)
    requires
        sp.0 <= sp.3 <= v@.len(),
        0 <= x <= MAX_TIMESTAMP_MS,
        0 <= y <= MAX_TIMESTAMP_MS,
        -MAX_TIMESTAMP_MS <= delta <= MAX_TIMESTAMP_MS,
    ensures
        r@ == v@.subrange(0, sp.0 as int) + format_ms(x + delta, marker(g)) + joiner(g)
            + format_ms(y + delta, marker(g)) + v@.subrange(sp.3 as int, v@.len() as int),
{
    let mk = match g {
        Grammar::SequentialBlock => ',',
        Grammar::TaggedDialogue => '.',
    };
    let mut out = String::new();
    push_range(&mut out, v, 0, sp.0);
    let start = ms2str(x + delta, mk);
    let end = ms2str(y + delta, mk);
    out.append(start.as_str());
    match g {
        Grammar::SequentialBlock => {
            push_char(&mut out, ' ');
            push_char(&mut out, '-');
            push_char(&mut out, '-');
            push_char(&mut out, '>');
            push_char(&mut out, ' ');
        },
        Grammar::TaggedDialogue => {
            push_char(&mut out, ',');
        },
    }
    out.append(end.as_str());
    push_range(&mut out, v, sp.3, v.len());
    assert(out@ =~= v@.subrange(0, sp.0 as int) + format_ms(x + delta, marker(g)) + joiner(g)
        + format_ms(y + delta, marker(g)) + v@.subrange(sp.3 as int, v@.len() as int));
    out
}

/// Moves both timestamps of the pair of `line` by `delta` milliseconds.
pub fn shift_line(g: Grammar, line: &str, delta: i64) -> (r: Result<String, LineError>)
    requires
        -MAX_TIMESTAMP_MS <= delta <= MAX_TIMESTAMP_MS,
    ensures
        r matches Ok(t) ==> rewritten(g, line@, delta as int) == Some(t@),
        r is Err ==> rewritten(g, line@, delta as int) is None,
{
    let v = chars_of(line);
    match read_pair(g, &v) {
        Ok(None) => Ok(line.to_owned()),
        Ok(Some((sp, x, y))) => Ok(write_shifted(g, &v, sp, x, y, delta)),
        Err(e) => Err(e),
    }
}

/// The delta state of one file: fixed from the start, or, in anchor mode,
/// fixed by the first timestamp pair that is read.
#[derive(Clone, Copy, Debug, PartialEq, Eq, Structural)]
pub struct Resolver {
    pub anchor_mode: bool,
    /// In anchor mode, where the first event is to start.
    pub target: i64,
    /// The delta, once it is known.
    pub delta: Option<i64>,
}

/// The delta that `r` applies to a line whose start timestamp is `first`.
pub open spec fn delta_for(r: Resolver, first: int) -> int {
    match r.delta {
        Some(d) => d as int,
        None => r.target - first,
    }
}

impl Resolver {
    pub open spec fn wf(&self) -> bool {
        &&& (!self.anchor_mode ==> self.delta is Some)
        &&& 0 <= self.target <= MAX_TIMESTAMP_MS
        &&& (self.delta matches Some(d) ==> -MAX_TIMESTAMP_MS <= d <= MAX_TIMESTAMP_MS)
    }

    /// A resolver for `mode`: a fixed shift is known at once; an anchor waits
    /// for the first timestamp pair.
    pub fn new(mode: OffsetMode) -> (r: Resolver)
        requires
            mode_in_range(mode),
        ensures
            r.wf(),
            mode matches OffsetMode::Shift(d) ==> r == (Resolver {
                anchor_mode: false,
                target: 0,
                delta: Some(d),
            }),
            mode matches OffsetMode::AnchorAt(t) ==> r == (Resolver {
                anchor_mode: true,
                target: t,
                delta: None,
            }),
    {
        match mode {
            OffsetMode::Shift(d) => Resolver { anchor_mode: false, target: 0, delta: Some(d) },
            OffsetMode::AnchorAt(t) => Resolver { anchor_mode: true, target: t, delta: None },
        }
    }

    /// Rewrites one line of a file in grammar `g`. The first line with a
    /// readable pair fixes the delta of an anchored resolver.
    pub fn rewrite_line(&mut self, g: Grammar, line: &str) -> (r: Result<String, LineError>)
        requires
            old(self).wf(),
        ensures
            final(self).wf(),
            pair_values(g, line@) is None ==> *final(self) == *old(self),
            pair_span(g, line@) is None ==> (r matches Ok(t) && t@ == line@),
            pair_span(g, line@) is Some && pair_values(g, line@) is None ==> r
                == Err::<String, LineError>(LineError::TimestampOutOfRange),
            pair_values(g, line@) matches Some((x, y)) ==> {
                &&& final(self).delta == Some(delta_for(*old(self), x) as i64)
                &&& final(self).anchor_mode == old(self).anchor_mode
                &&& final(self).target == old(self).target
                &&& (r matches Ok(t) && rewritten(g, line@, delta_for(*old(self), x)) == Some(t@))
            },
    {
        let v = chars_of(line);
        match read_pair(g, &v) {
            Ok(None) => Ok(line.to_owned()),
            Ok(Some((sp, x, y))) => {
                let d = match self.delta {
                    Some(d) => d,
                    None => self.target - x,
                };
                self.delta = Some(d);
                Ok(write_shifted(g, &v, sp, x, y, d))
            },
            Err(e) => Err(e),
        }
    }
}

/// The grammar of a file with extension `ext` (without its dot): `srt` and `ass`.
pub fn grammar_for_extension(ext: &str) -> (r: Option<Grammar>)
    ensures
        ext@ == seq!['s', 'r', 't'] <==> r == Some(Grammar::SequentialBlock),
        ext@ == seq!['a', 's', 's'] <==> r == Some(Grammar::TaggedDialogue),
        r is None <==> ext@ != seq!['s', 'r', 't'] && ext@ != seq!['a', 's', 's'],
{
    let v = chars_of(ext);
    if v.len() == 3 && v[0] == 's' && v[1] == 'r' && v[2] == 't' {
        assert(v@ =~= seq!['s', 'r', 't']);
        Some(Grammar::SequentialBlock)
    } else if v.len() == 3 && v[0] == 'a' && v[1] == 's' && v[2] == 's' {
        assert(v@ =~= seq!['a', 's', 's']);
        Some(Grammar::TaggedDialogue)
    } else {
        assert(v@ != seq!['s', 'r', 't'] && v@ != seq!['a', 's', 's']) by {
            if v@ == seq!['s', 'r', 't'] || v@ == seq!['a', 's', 's'] {
                assert(v@.len() == 3);
            }
        }
        None
    }
}

} // verus!
