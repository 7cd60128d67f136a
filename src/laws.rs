//! What holds across the codec and the rewriter.
use vstd::prelude::*;
use vstd::arithmetic::div_mod::lemma_fundamental_div_mod_converse;
use crate::codec::{
    decimal, digit_char, digit_value, digits_end, format_ms, frac_ms, hms_ms, hours_part,
    is_digit, is_sep, lemma_num_push, millis_part, minutes_part, num, padded, parse_ms,
    read_ms, seconds_part, tdiv, trimmed, timestamp_value, zero_pad, MAX_TIMESTAMP_MS,
};
use crate::grammar::{
    arrow_end, block_pair_at, dialogue_pair_at, field_end, first_block_pair, first_tag_end,
    last_dialogue_pair, pair_span, spaces_end, Grammar,
};
use crate::rewrite::{joiner, marker, pair_values, rewritten};

verus! {

pub open spec fn all_digits(s: Seq<char>) -> bool {
    forall|k: int| 0 <= k < s.len() ==> is_digit(#[trigger] s[k])
}

proof fn lemma_digit_char(k: nat)
    requires
        k < 10,
    ensures
        is_digit(digit_char(k)),
        digit_value(digit_char(k)) == k,
{
}

proof fn lemma_decimal(n: nat)
    ensures
        1 <= decimal(n).len(),
        all_digits(decimal(n)),
        num(decimal(n)) == n,
        n < 100 ==> decimal(n).len() <= 2,
        n < 1000 ==> decimal(n).len() <= 3,
    decreases n,
{
    if n < 10 {
        lemma_digit_char(n);
        assert(seq![digit_char(n)].drop_last() =~= Seq::<char>::empty());
        assert(num(Seq::<char>::empty()) == 0);
        assert(num(seq![digit_char(n)]) == num(Seq::<char>::empty()) * 10 + digit_value(
            digit_char(n),
        ));
    } else {
        lemma_decimal(n / 10);
        lemma_digit_char(n % 10);
        lemma_num_push(decimal(n / 10), digit_char(n % 10));
        assert(n == (n / 10) * 10 + n % 10);
    }
}

proof fn lemma_num_zeros(z: Seq<char>)
    requires
        forall|k: int| 0 <= k < z.len() ==> z[k] == '0',
    ensures
        num(z) == 0,
    decreases z.len(),
{
    if z.len() > 0 {
        lemma_num_zeros(z.drop_last());
    }
}

proof fn lemma_num_zeros_prefix(z: Seq<char>, d: Seq<char>)
    requires
        forall|k: int| 0 <= k < z.len() ==> z[k] == '0',
    ensures
        num(z + d) == num(d),
    decreases d.len(),
{
    if d.len() == 0 {
        assert(z + d =~= z);
        lemma_num_zeros(z);
    } else {
        assert((z + d).drop_last() =~= z + d.drop_last());
        lemma_num_zeros_prefix(z, d.drop_last());
    }
}

/// The zero-padded decimal text of `n`: its digits, value and length.
proof fn lemma_padded_digits(n: nat, w: nat)
    ensures
        all_digits(zero_pad(decimal(n), w)),
        num(zero_pad(decimal(n), w)) == n,
        1 <= zero_pad(decimal(n), w).len(),
        w <= zero_pad(decimal(n), w).len(),
        n < 100 && w == 2 ==> zero_pad(decimal(n), w).len() == 2,
        n < 1000 && w == 3 ==> zero_pad(decimal(n), w).len() == 3,
{
    lemma_decimal(n);
    let d = decimal(n);
    if d.len() < w {
        let z = Seq::new((w - d.len()) as nat, |_i: int| '0');
        lemma_num_zeros_prefix(z, d);
        assert forall|k: int| 0 <= k < (z + d).len() implies is_digit(#[trigger] (z + d)[k]) by {
            if k >= z.len() {
                assert((z + d)[k] == d[k - z.len()]);
            }
        }
    }
}

proof fn lemma_digits_end(s: Seq<char>, i: int, j: int)
    requires
        0 <= i <= j <= s.len(),
        forall|k: int| i <= k < j ==> is_digit(#[trigger] s[k]),
        j == s.len() || !is_digit(s[j]),
    ensures
        digits_end(s, i) == j,
    decreases j - i,
{
    if i < j {
        lemma_digits_end(s, i + 1, j);
    }
}

/// Text made of three digit groups and a fraction, joined by separators,
/// reads as the time of its groups.
proof fn lemma_read_groups(hd: Seq<char>, md: Seq<char>, sd: Seq<char>, fd: Seq<char>, sep: char)
    requires
        all_digits(hd),
        all_digits(md),
        all_digits(sd),
        all_digits(fd),
        hd.len() > 0,
        md.len() > 0,
        sd.len() > 0,
        fd.len() > 0,
        is_sep(sep),
    ensures
        timestamp_value(hd + seq![':'] + md + seq![':'] + sd + seq![sep] + fd) == Some(
            hms_ms(num(hd), num(md), num(sd), frac_ms(fd)),
        ),
{
    let t = hd + seq![':'] + md + seq![':'] + sd + seq![sep] + fd;
    let a = hd.len() as int;
    let b = a + 1 + md.len();
    let c = b + 1 + sd.len();
    assert(t.subrange(0, a) =~= hd);
    assert(t.subrange(a + 1, b) =~= md);
    assert(t.subrange(b + 1, c) =~= sd);
    assert(t.subrange(c + 1, t.len() as int) =~= fd);
    assert(t[a] == ':');
    assert(t[b] == ':');
    assert(t[c] == sep);
    assert forall|k: int| 0 <= k < a implies is_digit(#[trigger] t[k]) by {
        assert(t[k] == t.subrange(0, a)[k]);
    }
    assert forall|k: int| a + 1 <= k < b implies is_digit(#[trigger] t[k]) by {
        assert(t[k] == t.subrange(a + 1, b)[k - (a + 1)]);
    }
    assert forall|k: int| b + 1 <= k < c implies is_digit(#[trigger] t[k]) by {
        assert(t[k] == t.subrange(b + 1, c)[k - (b + 1)]);
    }
    assert forall|k: int| c + 1 <= k < t.len() implies is_digit(#[trigger] t[k]) by {
        assert(t[k] == t.subrange(c + 1, t.len() as int)[k - (c + 1)]);
    }
    lemma_digits_end(t, 0, a);
    lemma_digits_end(t, a + 1, b);
    lemma_digits_end(t, b + 1, c);
    lemma_digits_end(t, c + 1, t.len() as int);
}

/// A non-negative time and its parts, as `format_ms` splits it.
proof fn lemma_parts(v: int)
    requires
        v >= 0,
    ensures
        hours_part(v) >= 0,
        0 <= minutes_part(v) < 60,
        0 <= seconds_part(v) < 60,
        0 <= millis_part(v) < 1000,
        v == hms_ms(
            hours_part(v) as nat,
            minutes_part(v) as nat,
            seconds_part(v) as nat,
            millis_part(v) as nat,
        ),
{
    let q1 = v / 1000;
    let q2 = q1 / 60;
    let q3 = q2 / 60;
    assert(v == q1 * 1000 + v % 1000);
    assert(q1 == q2 * 60 + q1 % 60);
    assert(q2 == q3 * 60 + q2 % 60);
    assert(tdiv(v, 1000) == q1);
    assert(tdiv(q1, 60) == q2);
}

/// Every timestamp written in canonical sequential-block form `HH:MM:SS,mmm`
/// (minutes and seconds under 60) reads as its time, and writing that time in
/// the same style gives back the same text.
pub proof fn law_canonical_round_trip(h: nat, m: nat, s: nat, ms: nat)
    requires
        m < 60,
        s < 60,
        ms < 1000,
        hms_ms(h, m, s, ms) <= MAX_TIMESTAMP_MS,
    ensures
        ({
            let text = padded(h as int, 2) + seq![':'] + padded(m as int, 2) + seq![':'] + padded(
                s as int,
                2,
            ) + seq![','] + padded(ms as int, 3);
            &&& parse_ms(text) == Some(hms_ms(h, m, s, ms) as int)
            &&& read_ms(text) == Some(hms_ms(h, m, s, ms) as int)
            &&& format_ms(hms_ms(h, m, s, ms) as int, ',') == text
        }),
{
    let v = hms_ms(h, m, s, ms) as int;
    let q1 = (h * 60 + m) * 60 + s;
    lemma_fundamental_div_mod_converse(v, 1000, q1 as int, ms as int);
    lemma_fundamental_div_mod_converse(q1 as int, 60, (h * 60 + m) as int, s as int);
    lemma_fundamental_div_mod_converse((h * 60 + m) as int, 60, h as int, m as int);
    lemma_parts(v);
    assert(hours_part(v) == h);
    assert(minutes_part(v) == m);
    assert(seconds_part(v) == s);
    assert(millis_part(v) == ms);
    lemma_padded_digits(h, 2);
    lemma_padded_digits(m, 2);
    lemma_padded_digits(s, 2);
    lemma_padded_digits(ms, 3);
    lemma_read_groups(
        zero_pad(decimal(h), 2),
        zero_pad(decimal(m), 2),
        zero_pad(decimal(s), 2),
        zero_pad(decimal(ms), 3),
        ',',
    );
    let text = zero_pad(decimal(h), 2) + seq![':'] + zero_pad(decimal(m), 2) + seq![':']
        + zero_pad(decimal(s), 2) + seq![','] + zero_pad(decimal(ms), 3);
    assert(text[0] == zero_pad(decimal(h), 2)[0]);
    assert(text[text.len() - 1] == zero_pad(decimal(ms), 3)[2]);
    assert(trimmed(text) =~= text);
}

/// A non-negative time written in the dialogue style reads back truncated to
/// the centisecond.
proof fn lemma_read_dialogue_style(v: int)
    requires
        0 <= v <= MAX_TIMESTAMP_MS,
    ensures
        parse_ms(format_ms(v, '.')) == Some(v - v % 10),
{
    lemma_parts(v);
    let h = hours_part(v) as nat;
    let m = minutes_part(v) as nat;
    let s = seconds_part(v) as nat;
    let ms = millis_part(v) as nat;
    let cs = tdiv(ms as int, 10) as nat;
    assert(cs == ms / 10);
    assert(cs < 100);
    lemma_padded_digits(h, 1);
    lemma_padded_digits(m, 2);
    lemma_padded_digits(s, 2);
    lemma_padded_digits(cs, 2);
    lemma_read_groups(
        zero_pad(decimal(h), 1),
        zero_pad(decimal(m), 2),
        zero_pad(decimal(s), 2),
        zero_pad(decimal(cs), 2),
        '.',
    );
    assert(format_ms(v, '.') =~= zero_pad(decimal(h), 1) + seq![':'] + zero_pad(decimal(m), 2)
        + seq![':'] + zero_pad(decimal(s), 2) + seq!['.'] + zero_pad(decimal(cs), 2));
    lemma_centi_total(v, h, m, s, ms, cs);
}

proof fn lemma_centi_total(v: int, h: nat, m: nat, s: nat, ms: nat, cs: nat)
    requires
        v == hms_ms(h, m, s, ms),
        ms < 1000,
        cs == ms / 10,
        v >= 0,
    ensures
        hms_ms(h, m, s, cs * 10) == v - v % 10,
{
    let q = (h * 60 + m) * 60 + s;
    assert(v == q * 1000 + ms);
    assert(v == (q * 100 + cs) * 10 + ms % 10) by (nonlinear_arith)
        requires
            v == q * 1000 + ms,
            cs == ms / 10,
            ms == (ms / 10) * 10 + ms % 10,
    ;
    lemma_fundamental_div_mod_converse(v, 10, (q * 100 + cs) as int, (ms % 10) as int);
}

/// A non-negative time written in the sequential-block style reads back as
/// itself, so shifting a timestamp by `d` and then by `-d` brings it back to
/// where it was. Written in the dialogue style it reads back truncated to the
/// centisecond.
pub proof fn law_shift_back(x: int, d: int)
    requires
        0 <= x <= MAX_TIMESTAMP_MS,
        0 <= x + d <= MAX_TIMESTAMP_MS,
    ensures
        parse_ms(format_ms(x + d, ',')) == Some(x + d),
        parse_ms(format_ms(x + d, ',')).unwrap() + (-d) == x,
        parse_ms(format_ms(x + d, '.')) == Some(x + d - (x + d) % 10),
        (x + d) % 10 == 0 ==> parse_ms(format_ms(x + d, '.')).unwrap() + (-d) == x,
{
    let v = x + d;
    lemma_parts(v);
    let h = hours_part(v) as nat;
    let m = minutes_part(v) as nat;
    let s = seconds_part(v) as nat;
    let ms = millis_part(v) as nat;
    law_canonical_round_trip(h, m, s, ms);
    lemma_read_dialogue_style(v);
}

proof fn lemma_digits_end_bounds(s: Seq<char>, i: int)
    requires
        0 <= i <= s.len(),
    ensures
        i <= digits_end(s, i) <= s.len(),
    decreases s.len() - i,
{
    if i < s.len() && is_digit(s[i]) {
        lemma_digits_end_bounds(s, i + 1);
    }
}

proof fn lemma_spaces_end_bounds(s: Seq<char>, i: int)
    requires
        0 <= i <= s.len(),
    ensures
        i <= spaces_end(s, i) <= s.len(),
    decreases s.len() - i,
{
    if i < s.len() && crate::text::is_white_space(s[i]) {
        lemma_spaces_end_bounds(s, i + 1);
    }
}

proof fn lemma_field_end_bounds(s: Seq<char>, i: int)
    requires
        field_end(s, i) is Some,
    ensures
        0 <= i < field_end(s, i)->0 <= s.len(),
{
    let a = digits_end(s, i);
    let b = digits_end(s, a + 1);
    let c = digits_end(s, b + 1);
    lemma_digits_end_bounds(s, c + 1);
}

proof fn lemma_block_pair_at_bounds(s: Seq<char>, i: int)
    requires
        block_pair_at(s, i) is Some,
    ensures
        ({
            let (a, b, c, d) = block_pair_at(s, i)->0;
            0 <= a <= b <= c <= d <= s.len()
        }),
{
    lemma_field_end_bounds(s, i);
    let b = field_end(s, i)->0;
    let w = spaces_end(s, b);
    lemma_spaces_end_bounds(s, b);
    lemma_spaces_end_bounds(s, w + 3);
    let c = arrow_end(s, b)->0;
    lemma_field_end_bounds(s, c);
}

proof fn lemma_first_block_pair_bounds(s: Seq<char>, i: int)
    requires
        first_block_pair(s, i) is Some,
    ensures
        ({
            let (a, b, c, d) = first_block_pair(s, i)->0;
            0 <= a <= b <= c <= d <= s.len()
        }),
    decreases s.len() - i,
{
    if block_pair_at(s, i) is Some {
        lemma_block_pair_at_bounds(s, i);
    } else {
        lemma_first_block_pair_bounds(s, i + 1);
    }
}

proof fn lemma_last_dialogue_pair_bounds(s: Seq<char>, q: int, lo: int)
    requires
        last_dialogue_pair(s, q, lo) is Some,
    ensures
        ({
            let (a, b, c, d) = last_dialogue_pair(s, q, lo)->0;
            0 <= a <= b <= c <= d <= s.len()
        }),
    decreases q + 1 - lo,
{
    if dialogue_pair_at(s, q) is Some {
        lemma_field_end_bounds(s, q + 1);
        let b = field_end(s, q + 1)->0;
        lemma_field_end_bounds(s, b + 1);
    } else {
        lemma_last_dialogue_pair_bounds(s, q - 1, lo);
    }
}

proof fn lemma_pair_span_bounds(g: Grammar, s: Seq<char>)
    requires
        pair_span(g, s) is Some,
    ensures
        ({
            let (a, b, c, d) = pair_span(g, s)->0;
            0 <= a <= b <= c <= d <= s.len()
        }),
{
    match g {
        Grammar::SequentialBlock => lemma_first_block_pair_bounds(s, 0),
        Grammar::TaggedDialogue => {
            let e = first_tag_end(s, 0)->0;
            lemma_last_dialogue_pair_bounds(s, s.len() - 1, e);
        },
    }
}

proof fn lemma_reassemble(s: Seq<char>, a: int, b: int, c: int, d: int)
    requires
        0 <= a <= b <= c <= d <= s.len(),
    ensures
        s.subrange(0, a) + s.subrange(a, b) + s.subrange(b, c) + s.subrange(c, d) + s.subrange(
            d,
            s.len() as int,
        ) == s,
{
    assert(s.subrange(0, a) + s.subrange(a, b) =~= s.subrange(0, b));
    assert(s.subrange(0, b) + s.subrange(b, c) =~= s.subrange(0, c));
    assert(s.subrange(0, c) + s.subrange(c, d) =~= s.subrange(0, d));
    assert(s.subrange(0, d) + s.subrange(d, s.len() as int) =~= s);
}

/// With a zero delta a line is left as it was, where its timestamps and the
/// text between them already stand as the grammar writes them; a line without
/// a pair is always left as it was.
pub proof fn law_zero_shift(g: Grammar, s: Seq<char>)
    requires
        pair_span(g, s) matches Some((a, b, c, d)) ==> {
            &&& s.subrange(b, c) == joiner(g)
            &&& pair_values(g, s) matches Some((x, y))
            &&& s.subrange(a, b) == format_ms(x, marker(g))
            &&& s.subrange(c, d) == format_ms(y, marker(g))
        },
    ensures
        rewritten(g, s, 0) == Some(s),
{
    if pair_span(g, s) is Some {
        lemma_pair_span_bounds(g, s);
        let (a, b, c, d) = pair_span(g, s)->0;
        let (x, y) = pair_values(g, s)->0;
        assert(x + 0 == x && y + 0 == y);
        lemma_reassemble(s, a, b, c, d);
    }
}

} // verus!
