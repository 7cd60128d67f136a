//! Timestamp codec: timestamp text to milliseconds and back.
//!
//! A timestamp is read, once leading and trailing Unicode whitespace is set
//! aside, as three or four groups of ASCII digits, separated by
//! `:`, `,` or `.`: hours, minutes, seconds and an optional fraction. A fraction
//! of three digits counts milliseconds, one of two digits centiseconds; a
//! fraction of any other length counts nothing.
//!
//! A timestamp is written as `HH:MM:SS` followed by the sub-second marker and
//! three digits of milliseconds; with the marker `.` it is written `H:MM:SS.cc`
//! instead, the hours without zero padding and two digits of centiseconds
//! (truncated). A negative count is split by truncating division,
//! so each nonzero part carries its own minus sign, and the sign counts toward
//! the field's width (`-5` in a field of three is written `-05`).
use vstd::prelude::*;
use crate::text::{chars_of, is_white_space, push_all, push_char, white_space};

verus! {

/// The largest millisecond count that the codec reads.
pub const MAX_TIMESTAMP_MS: i64 = 2147483647;

pub open spec fn is_digit(c: char) -> bool {
    '0' <= c && c <= '9'
}

pub open spec fn is_frac_sep(c: char) -> bool {
    c == '.' || c == ','
}

pub open spec fn is_sep(c: char) -> bool {
    c == ':' || is_frac_sep(c)
}

pub open spec fn digit_value(c: char) -> nat {
    if is_digit(c) {
        (c as int - '0' as int) as nat
    } else {
        0
    }
}

/// The value of a run of decimal digits.
pub open spec fn num(s: Seq<char>) -> nat
    decreases s.len(),
{
    if s.len() == 0 {
        0
    } else {
        num(s.drop_last()) * 10 + digit_value(s.last())
    }
}

/// The first index at or after `i` that does not hold a digit.
pub open spec fn digits_end(s: Seq<char>, i: int) -> int
    decreases s.len() - i,
{
    if 0 <= i < s.len() && is_digit(s[i]) {
        digits_end(s, i + 1)
    } else {
        i
    }
}

/// Milliseconds denoted by a fraction group.
pub open spec fn frac_ms(f: Seq<char>) -> nat {
    if f.len() == 3 {
        num(f)
    } else if f.len() == 2 {
        num(f) * 10
    } else {
        0
    }
}

pub open spec fn hms_ms(h: nat, m: nat, s: nat, frac: nat) -> nat {
    ((h * 60 + m) * 60 + s) * 1000 + frac
}

/// The millisecond count written in `t`, if `t` has the shape of a timestamp.
pub open spec fn timestamp_value(t: Seq<char>) -> Option<nat> {
    let a = digits_end(t, 0);
    let b = digits_end(t, a + 1);
    let c = digits_end(t, b + 1);
    if 0 < a && a < t.len() && is_sep(t[a]) && a + 1 < b && b < t.len() && is_sep(t[b]) && b
        + 1 < c {
        let h = num(t.subrange(0, a));
        let m = num(t.subrange(a + 1, b));
        let s = num(t.subrange(b + 1, c));
        if c == t.len() {
            Some(hms_ms(h, m, s, 0))
        } else {
            let d = digits_end(t, c + 1);
            if is_sep(t[c]) && c + 1 < d && d == t.len() {
                Some(hms_ms(h, m, s, frac_ms(t.subrange(c + 1, d))))
            } else {
                None
            }
        }
    } else {
        None
    }
}

/// What `str2ms` reads from `t`: its value, where `t` is a timestamp whose
/// value does not pass `MAX_TIMESTAMP_MS`.
pub open spec fn parse_ms(t: Seq<char>) -> Option<int> {
    match timestamp_value(t) {
        Some(v) => if v <= MAX_TIMESTAMP_MS {
            Some(v as int)
        } else {
            None
        },
        None => None,
    }
}

/// `n` where it does not pass `MAX_TIMESTAMP_MS`, else one more than that.
pub open spec fn capped(n: nat) -> nat {
    if n <= MAX_TIMESTAMP_MS {
        n
    } else {
        (MAX_TIMESTAMP_MS + 1) as nat
    }
}

pub(crate) proof fn lemma_num_push(s: Seq<char>, c: char)
    ensures
        num(s.push(c)) == num(s) * 10 + digit_value(c),
{
    assert(s.push(c).drop_last() =~= s);
}

/// Reads the run of digits of `v` that starts at `i`: its end, and its value capped.
pub(crate) fn scan_digits(v: &Vec<char>, i: usize) -> (r: (usize, u64))
    requires
        i <= v@.len(),
    ensures
        r.0 == digits_end(v@, i as int),
        i <= r.0 <= v@.len(),
        r.1 == capped(num(v@.subrange(i as int, r.0 as int))),
{
    let mut j: usize = i;
    let mut val: u64 = 0;
    assert(v@.subrange(i as int, i as int) =~= Seq::<char>::empty());
    while j < v.len() && '0' <= v[j] && v[j] <= '9'
        invariant
            i <= j <= v@.len(),
            digits_end(v@, i as int) == digits_end(v@, j as int),
            val == capped(num(v@.subrange(i as int, j as int))),
        decreases v@.len() - j,
    {
        let d = (v[j] as u32 - '0' as u32) as u64;
        proof {
            lemma_num_push(v@.subrange(i as int, j as int), v@[j as int]);
            assert(v@.subrange(i as int, j as int).push(v@[j as int]) =~= v@.subrange(
                i as int,
                j + 1,
            ));
        }
        if val > MAX_TIMESTAMP_MS as u64 {
            val = (MAX_TIMESTAMP_MS + 1) as u64;
        } else {
            val = val * 10 + d;
            if val > MAX_TIMESTAMP_MS as u64 {
                val = (MAX_TIMESTAMP_MS + 1) as u64;
            }
        }
        j = j + 1;
    }
    (j, val)
}

/// Reads the timestamp in `v`.
pub fn parse_chars(v: &Vec<char>) -> (r: Option<i64>)
    ensures
        r matches Some(x) ==> parse_ms(v@) == Some(x as int),
        r is None ==> parse_ms(v@) is None,
{
    let t = Ghost(v@);
    let n = v.len();
    let (a, h) = scan_digits(v, 0);
    if !(0 < a && a < n && (v[a] == ':' || v[a] == '.' || v[a] == ',')) {
        return None;
    }
    let (b, m) = scan_digits(v, a + 1);
    if !(a + 1 < b && b < n && (v[b] == ':' || v[b] == '.' || v[b] == ',')) {
        return None;
    }
    let (c, s) = scan_digits(v, b + 1);
    if !(b + 1 < c) {
        return None;
    }
    let mut f: u64 = 0;
    if c < n {
        if !(v[c] == ':' || v[c] == '.' || v[c] == ',') {
            return None;
        }
        let (d, fv) = scan_digits(v, c + 1);
        if !(c + 1 < d && d == n) {
            return None;
        }
        if d - (c + 1) == 3 {
            f = fv;
        } else if d - (c + 1) == 2 {
            f = fv * 10;
        }
        proof {
            let fs = t@.subrange(c + 1, d as int);
            if fs.len() == 2 || fs.len() == 3 {
                lemma_num_small(fs);
            }
            assert(f == frac_ms(fs));
        }
    }
    let ghost hn = num(t@.subrange(0, a as int));
    let ghost mn = num(t@.subrange(a + 1, b as int));
    let ghost sn = num(t@.subrange(b + 1, c as int));
    let ghost fr: nat = if c == n { 0 } else { frac_ms(t@.subrange(c + 1, n as int)) };
    assert(timestamp_value(t@) == Some(hms_ms(hn, mn, sn, fr)));
    assert(hms_ms(hn, mn, sn, fr) == hn * 3600000 + mn * 60000 + sn * 1000 + fr) by (nonlinear_arith);
    if h > MAX_TIMESTAMP_MS as u64 || m > MAX_TIMESTAMP_MS as u64 || s > MAX_TIMESTAMP_MS as u64 {
        assert(hn * 3600000 >= hn && mn * 60000 >= mn && sn * 1000 >= sn) by (nonlinear_arith);
        return None;
    }
    assert(h * 3600000 <= MAX_TIMESTAMP_MS * 3600000) by (nonlinear_arith)
        requires h <= MAX_TIMESTAMP_MS;
    assert(m * 60000 <= MAX_TIMESTAMP_MS * 60000) by (nonlinear_arith)
        requires m <= MAX_TIMESTAMP_MS;
    assert(s * 1000 <= MAX_TIMESTAMP_MS * 1000) by (nonlinear_arith)
        requires s <= MAX_TIMESTAMP_MS;
    let total: u64 = h * 3600000 + m * 60000 + s * 1000 + f;
    if total > MAX_TIMESTAMP_MS as u64 {
        return None;
    }
    Some(total as i64)
}

proof fn lemma_num_small(s: Seq<char>)
    requires
        s.len() <= 3,
    ensures
        num(s) < 1000,
        s.len() <= 2 ==> num(s) < 100,
        s.len() <= 1 ==> num(s) < 10,
    decreases s.len(),
{
    if s.len() > 0 {
        lemma_num_small(s.drop_last());
    }
}

/// The first index at or after `i` that does not hold whitespace.
pub open spec fn white_end(t: Seq<char>, i: int) -> int
    decreases t.len() - i,
{
    if 0 <= i < t.len() && is_white_space(t[i]) {
        white_end(t, i + 1)
    } else {
        i
    }
}

/// The last index at or before `j` that does not follow whitespace.
pub open spec fn white_start(t: Seq<char>, j: int) -> int
    decreases j,
{
    if 0 < j <= t.len() && is_white_space(t[j - 1]) {
        white_start(t, j - 1)
    } else {
        j
    }
}

/// `t` without its leading and trailing whitespace.
pub open spec fn trimmed(t: Seq<char>) -> Seq<char> {
    let i = white_end(t, 0);
    let j = white_start(t, t.len() as int);
    if i <= j {
        t.subrange(i, j)
    } else {
        Seq::empty()
    }
}

proof fn lemma_white_start_le(t: Seq<char>, j: int)
    requires
        0 <= j,
    ensures
        white_start(t, j) <= j,
    decreases j,
{
    if 0 < j <= t.len() && is_white_space(t[j - 1]) {
        lemma_white_start_le(t, j - 1);
    }
}

fn trim_chars(v: &Vec<char>) -> (r: Vec<char>)
    ensures
        r@ == trimmed(v@),
{
    let n = v.len();
    let mut i: usize = 0;
    while i < n && white_space(v[i])
        invariant
            n == v@.len(),
            i <= n,
            white_end(v@, 0) == white_end(v@, i as int),
        decreases n - i,
    {
        i = i + 1;
    }
    let mut j: usize = n;
    while j > i && white_space(v[j - 1])
        invariant
            n == v@.len(),
            i <= j <= n,
            i < n ==> !is_white_space(v@[i as int]) && i < j,
            white_start(v@, n as int) == white_start(v@, j as int),
        decreases j,
    {
        j = j - 1;
    }
    let mut r: Vec<char> = Vec::new();
    let mut k: usize = i;
    while k < j
        invariant
            i <= k <= j <= v@.len(),
            r@ == v@.subrange(i as int, k as int),
        decreases j - k,
    {
        r.push(v[k]);
        k = k + 1;
    }
    proof {
        if i == n {
            lemma_white_start_le(v@, n as int);
            assert(r@ =~= trimmed(v@));
        }
    }
    r
}

/// What `str2ms` reads from `t`: the timestamp that stands in `t` once its
/// leading and trailing whitespace is set aside.
pub open spec fn read_ms(t: Seq<char>) -> Option<int> {
    parse_ms(trimmed(t))
}

/// Reads a timestamp, leading and trailing whitespace aside: three or four digit
/// groups separated by `:`, `,` or `.`. `None` where the text has another shape
/// or its value passes `MAX_TIMESTAMP_MS`.
pub fn str2ms(t: &str) -> (r: Option<i64>)
    ensures
        r matches Some(x) ==> read_ms(t@) == Some(x as int),
        r is None ==> read_ms(t@) is None,
{
    let v = chars_of(t);
    let w = trim_chars(&v);
    parse_chars(&w)
}

pub open spec fn digit_char(d: nat) -> char {
    if d == 0 {
        '0'
    } else if d == 1 {
        '1'
    } else if d == 2 {
        '2'
    } else if d == 3 {
        '3'
    } else if d == 4 {
        '4'
    } else if d == 5 {
        '5'
    } else if d == 6 {
        '6'
    } else if d == 7 {
        '7'
    } else if d == 8 {
        '8'
    } else {
        '9'
    }
}

/// The decimal digits of `n`, without leading zeros.
pub open spec fn decimal(n: nat) -> Seq<char>
    decreases n,
{
    if n < 10 {
        seq![digit_char(n)]
    } else {
        decimal(n / 10).push(digit_char(n % 10))
    }
}

/// `d` preceded by as many `0` as bring it to `w` characters.
pub open spec fn zero_pad(d: Seq<char>, w: nat) -> Seq<char> {
    if d.len() >= w {
        d
    } else {
        Seq::new((w - d.len()) as nat, |_i: int| '0') + d
    }
}

/// `v` written in a zero-padded field of width `w`; a minus sign counts toward
/// the width and stands before the zeros.
pub open spec fn padded(v: int, w: nat) -> Seq<char> {
    if v < 0 {
        seq!['-'] + zero_pad(decimal((-v) as nat), (w - 1) as nat)
    } else {
        zero_pad(decimal(v as nat), w)
    }
}

/// Division that truncates toward zero.
pub open spec fn tdiv(a: int, b: int) -> int {
    if a >= 0 {
        a / b
    } else {
        -((-a) / b)
    }
}

/// Remainder of `tdiv`: it has the sign of `a`.
pub open spec fn trem(a: int, b: int) -> int {
    if a >= 0 {
        a % b
    } else {
        -((-a) % b)
    }
}

pub open spec fn signed(neg: bool, mag: int) -> int {
    if neg {
        -mag
    } else {
        mag
    }
}

pub open spec fn millis_part(t: int) -> int {
    trem(t, 1000)
}

pub open spec fn seconds_part(t: int) -> int {
    trem(tdiv(t, 1000), 60)
}

pub open spec fn minutes_part(t: int) -> int {
    trem(tdiv(tdiv(t, 1000), 60), 60)
}

pub open spec fn hours_part(t: int) -> int {
    tdiv(tdiv(tdiv(t, 1000), 60), 60)
}

/// The width of the hours field: none with the marker `.`, else two.
pub open spec fn hour_width(marker: char) -> nat {
    if marker == '.' {
        1
    } else {
        2
    }
}

/// The text `ms2str` writes for `t` with the sub-second marker `marker`:
/// centiseconds after `.`, milliseconds after any other marker.
pub open spec fn format_ms(t: int, marker: char) -> Seq<char> {
    let hms = padded(hours_part(t), hour_width(marker)) + seq![':'] + padded(minutes_part(t), 2) + seq![':']
        + padded(seconds_part(t), 2);
    if marker == '.' {
        hms + seq!['.'] + padded(tdiv(millis_part(t), 10), 2)
    } else {
        hms + seq![marker] + padded(millis_part(t), 3)
    }
}

proof fn lemma_signed_div(neg: bool, x: int, b: int)
    requires
        x >= 0,
        b > 0,
    ensures
        tdiv(signed(neg, x), b) == signed(neg, x / b),
        trem(signed(neg, x), b) == signed(neg, x % b),
{
    if neg && x == 0 {
        assert(0int / b == 0) by (nonlinear_arith)
            requires b > 0;
        assert(0int % b == 0) by (nonlinear_arith)
            requires b > 0;
    }
}

fn digit_char_of(d: u64) -> (c: char)
    requires
        d < 10,
    ensures
        c == digit_char(d as nat),
{
    match d {
        0 => '0',
        1 => '1',
        2 => '2',
        3 => '3',
        4 => '4',
        5 => '5',
        6 => '6',
        7 => '7',
        8 => '8',
        _ => '9',
    }
}

fn decimal_of(n: u64) -> (r: Vec<char>)
    ensures
        r@ == decimal(n as nat),
{
    let mut cur: u64 = n;
    let mut d: Vec<char> = Vec::new();
    while cur >= 10
        invariant
            decimal(n as nat) == decimal(cur as nat) + d@,
        decreases cur,
    {
        let c = digit_char_of(cur % 10);
        let ghost before = d@;
        d.insert(0, c);
        assert(decimal(cur as nat) == decimal((cur / 10) as nat).push(c));
        assert(decimal((cur / 10) as nat).push(c) + before =~= decimal((cur / 10) as nat) + d@);
        cur = cur / 10;
    }
    let c = digit_char_of(cur);
    let ghost before = d@;
    d.insert(0, c);
    assert(decimal(cur as nat) + before =~= d@);
    d
}

/// Appends `signed(neg, mag)` written in a zero-padded field of width `w`.
fn push_padded(out: &mut String, neg: bool, mag: u64, w: usize)
    requires
        1 <= w <= 3,
    ensures
        final(out)@ == old(out)@ + padded(signed(neg, mag as int), w as nat),
{
    let digits = decimal_of(mag);
    let mut width: usize = w;
    if neg && mag > 0 {
        push_char(out, '-');
        width = w - 1;
    }
    let ghost mid = out@;
    let mut k: usize = digits.len();
    while k < width
        invariant
            digits.len() <= k,
            k == digits.len() || k <= width,
            out@ == mid + Seq::new((k - digits.len()) as nat, |_i: int| '0'),
        decreases width - k,
    {
        push_char(out, '0');
        k = k + 1;
        assert(out@ =~= mid + Seq::new((k - digits.len()) as nat, |_i: int| '0'));
    }
    push_all(out, &digits);
    proof {
        let v = signed(neg, mag as int);
        let z = Seq::new((k - digits.len()) as nat, |_i: int| '0');
        assert(out@ == mid + z + digits@);
        if v < 0 {
            assert(mid == old(out)@.push('-'));
            assert(width == w - 1);
            assert(decimal((-v) as nat) == digits@);
            assert(out@ =~= old(out)@ + padded(v, w as nat));
        } else {
            assert(decimal(v as nat) == digits@);
            assert(mid == old(out)@);
            assert(width == w);
            if digits.len() >= w {
                assert(z =~= Seq::<char>::empty());
            }
            assert(out@ =~= old(out)@ + padded(v, w as nat));
        }
    }
}

/// Writes `ts` milliseconds as `HH:MM:SS`, then `ms_marker`, then three digits of
/// milliseconds; with the marker `.`, as `H:MM:SS.cc` instead.
pub fn ms2str(ts: i64, ms_marker: char) -> (r: String)
    ensures
        r@ == format_ms(ts as int, ms_marker),
{
    let neg = ts < 0;
    let n: u64 = if neg { (-(ts as i128)) as u64 } else { ts as u64 };
    let ms = n % 1000;
    let s = n / 1000 % 60;
    let m = n / 1000 / 60 % 60;
    let h = n / 1000 / 60 / 60;
    proof {
        let t = ts as int;
        assert(t == signed(neg, n as int));
        lemma_signed_div(neg, n as int, 1000);
        lemma_signed_div(neg, (n / 1000) as int, 60);
        lemma_signed_div(neg, (n / 1000 / 60) as int, 60);
        lemma_signed_div(neg, (n % 1000) as int, 10);
    }
    let mut out = String::new();
    let hw: usize = if ms_marker == '.' {
        1
    } else {
        2
    };
    push_padded(&mut out, neg, h, hw);
    push_char(&mut out, ':');
    push_padded(&mut out, neg, m, 2);
    push_char(&mut out, ':');
    push_padded(&mut out, neg, s, 2);
    push_char(&mut out, ms_marker);
    if ms_marker == '.' {
        push_padded(&mut out, neg, ms / 10, 2);
    } else {
        push_padded(&mut out, neg, ms, 3);
    }
    assert(out@ =~= format_ms(ts as int, ms_marker));
    out
}

} // verus!
