//! The offset expression: `[+-]?D+:D+:D+(,D+)?`.
//!
//! With a sign it is a fixed shift; without one it is the time at which the
//! first event of the file is to start.
use vstd::prelude::*;
use crate::codec::{digits_end, parse_chars, parse_ms, scan_digits, MAX_TIMESTAMP_MS};
use crate::text::chars_of;

verus! {

/// How the delta applied to every timestamp is found.
#[derive(Clone, Copy, Debug, PartialEq, Eq, Structural)]
pub enum OffsetMode {
    /// Add this many milliseconds to every timestamp.
    Shift(i64),
    /// Move the first event to start at this many milliseconds, and every other
    /// timestamp by the same delta.
    AnchorAt(i64),
}

/// The mode as `(anchored, milliseconds)`.
pub open spec fn mode_view(m: OffsetMode) -> (bool, int) {
    match m {
        OffsetMode::Shift(d) => (false, d as int),
        OffsetMode::AnchorAt(t) => (true, t as int),
    }
}

/// `D+:D+:D+` with an optional `,D+`, and nothing else.
pub open spec fn offset_body_ok(t: Seq<char>) -> bool {
    let a = digits_end(t, 0);
    let b = digits_end(t, a + 1);
    let c = digits_end(t, b + 1);
    let d = digits_end(t, c + 1);
    0 < a && a < t.len() && t[a] == ':' && a + 1 < b && b < t.len() && t[b] == ':' && b + 1 < c
        && (c == t.len() || (t[c] == ',' && c + 1 < d && d == t.len()))
}

/// The mode that the expression `e` gives, as `(anchored, milliseconds)`.
pub open spec fn offset_spec(e: Seq<char>) -> Option<(bool, int)> {
    if e.len() > 0 && (e[0] == '+' || e[0] == '-') {
        let body = e.drop_first();
        if offset_body_ok(body) {
            match parse_ms(body) {
                Some(v) => Some((false, if e[0] == '+' { v } else { -v })),
                None => None,
            }
        } else {
            None
        }
    } else if offset_body_ok(e) {
        match parse_ms(e) {
            Some(v) => Some((true, v)),
            None => None,
        }
    } else {
        None
    }
}

/// A mode whose milliseconds lie within what the codec reads.
pub open spec fn mode_in_range(m: OffsetMode) -> bool {
    match m {
        OffsetMode::Shift(d) => -MAX_TIMESTAMP_MS <= d <= MAX_TIMESTAMP_MS,
        OffsetMode::AnchorAt(t) => 0 <= t <= MAX_TIMESTAMP_MS,
    }
}

fn body_ok(v: &Vec<char>) -> (r: bool)
    ensures
        r == offset_body_ok(v@),
{
    let n = v.len();
    let (a, _) = scan_digits(v, 0);
    if !(0 < a && a < n && v[a] == ':') {
        return false;
    }
    let (b, _) = scan_digits(v, a + 1);
    if !(a + 1 < b && b < n && v[b] == ':') {
        return false;
    }
    let (c, _) = scan_digits(v, b + 1);
    if !(b + 1 < c) {
        return false;
    }
    if c == n {
        return true;
    }
    let (d, _) = scan_digits(v, c + 1);
    v[c] == ',' && c + 1 < d && d == n
}

/// Reads an offset expression. `None` where it does not have the shape
/// `[+-]?D+:D+:D+(,D+)?` or its time passes `MAX_TIMESTAMP_MS`.
pub fn parse_offset(expr: &str) -> (r: Option<OffsetMode>)
    ensures
        r matches Some(m) ==> offset_spec(expr@) == Some(mode_view(m)) && mode_in_range(m),
        r is None ==> offset_spec(expr@) is None,
{
    let v = chars_of(expr);
    if v.len() > 0 && (v[0] == '+' || v[0] == '-') {
        let mut body: Vec<char> = Vec::new();
        let mut i: usize = 1;
        while i < v.len()
            invariant
                1 <= i <= v@.len(),
                body@ == v@.subrange(1, i as int),
            decreases v@.len() - i,
        {
            body.push(v[i]);
            i = i + 1;
        }
        assert(body@ =~= v@.drop_first());
        if !body_ok(&body) {
            return None;
        }
        match parse_chars(&body) {
            Some(x) => {
                if v[0] == '+' {
                    Some(OffsetMode::Shift(x))
                } else {
                    Some(OffsetMode::Shift(-x))
                }
            },
            None => None,
        }
    } else {
        if !body_ok(&v) {
            return None;
        }
        match parse_chars(&v) {
            Some(x) => Some(OffsetMode::AnchorAt(x)),
            None => None,
        }
    }
}

} // verus!
