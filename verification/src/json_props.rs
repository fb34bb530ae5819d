//! Round-trip laws of the persisted format: parsing an encoded value yields
//! the value back, with the rest of the input untouched.
use vstd::prelude::*;
use vstd::seq_lib::lemma_concat_associative;

use crate::catalog::CatalogAbs;
use crate::json_spec::digit_char;
use crate::json_spec::enc_book;
use crate::json_spec::enc_book_items;
use crate::json_spec::enc_book_tail;
use crate::json_spec::enc_books;
use crate::json_spec::enc_catalog;
use crate::json_spec::p_book;
use crate::json_spec::p_book_items;
use crate::json_spec::p_book_tail;
use crate::json_spec::p_books;
use crate::json_spec::p_catalog;
use crate::model::BookAbs;
use crate::json_spec::enc_date;
use crate::json_spec::enc_highlight;
use crate::json_spec::enc_highlights;
use crate::json_spec::enc_hl_items;
use crate::json_spec::enc_opt_timestamp;
use crate::json_spec::enc_opt_u32;
use crate::json_spec::enc_timespan;
use crate::json_spec::enc_timestamp;
use crate::json_spec::enc_u8_items;
use crate::json_spec::enc_week;
use crate::json_spec::p_date;
use crate::json_spec::p_highlight;
use crate::json_spec::p_highlights;
use crate::json_spec::p_hl_items;
use crate::json_spec::p_opt_timestamp;
use crate::json_spec::p_opt_u32;
use crate::json_spec::p_timespan;
use crate::json_spec::p_timestamp;
use crate::json_spec::p_u8_items;
use crate::json_spec::p_week;
use crate::model::Date;
use crate::model::TextHighlight;
use crate::model::TimeSpan;
use crate::model::Timestamp;
use crate::json_spec::enc_bool;
use crate::json_spec::enc_color;
use crate::json_spec::enc_str;
use crate::json_spec::esc_char;
use crate::json_spec::esc_str;
use crate::json_spec::p_bool;
use crate::json_spec::p_color;
use crate::json_spec::p_str;
use crate::json_spec::p_str_body;
use crate::model::TextHighlightColor;
use crate::json_spec::enc_i32;
use crate::json_spec::enc_nat;
use crate::json_spec::p_digits;
use crate::json_spec::p_i32;
use crate::json_spec::p_lit;
use crate::json_spec::p_u16;
use crate::json_spec::p_u32;
use crate::json_spec::p_u64;
use crate::json_spec::p_u8;
use crate::json_spec::digit_val;
use crate::json_spec::is_digit;
use crate::json_spec::is_lhex;
use crate::json_spec::lhex_char;
use crate::json_spec::lhex_val;

verus! {

/// Powers of ten, used to relate digit-by-digit parsing to the encoded value.
pub open spec fn pow10(k: nat) -> nat
    decreases k,
{
    if k == 0 {
        1nat
    } else {
        10 * pow10((k - 1) as nat)
    }
}

/// Digit characters carry their value and are digits; the hexadecimal ones
/// likewise.
proof fn lemma_digit_char(d: nat)
    requires
        d < 10,
    ensures
        is_digit(digit_char(d)),
        digit_val(digit_char(d)) == d,
        d > 0 ==> digit_char(d) != '0',
{
}

proof fn lemma_lhex_char(d: nat)
    requires
        d < 16,
    ensures
        is_lhex(lhex_char(d)),
        lhex_val(lhex_char(d)) == d,
{
}

/// The shape of an encoded number: at least one character, all of them
/// digits, and no leading zero unless the number is zero.
proof fn lemma_enc_nat_shape(n: nat)
    ensures
        enc_nat(n).len() >= 1,
        forall|i: int| 0 <= i < enc_nat(n).len() ==> is_digit(#[trigger] enc_nat(n)[i]),
        is_digit(enc_nat(n)[0]),
        n >= 1 ==> enc_nat(n)[0] != '0',
        n == 0 ==> enc_nat(n)[0] == '0',
    decreases n,
{
    if n < 10 {
        lemma_digit_char(n);
    } else {
        lemma_enc_nat_shape(n / 10);
        lemma_digit_char(n % 10);
        assert(n / 10 >= 1);
        let e = enc_nat(n);
        assert(e == enc_nat(n / 10) + seq![digit_char(n % 10)]);
        assert(e[0] == enc_nat(n / 10)[0]);
        assert forall|i: int| 0 <= i < e.len() implies is_digit(#[trigger] e[i]) by {
            if i < enc_nat(n / 10).len() {
                assert(e[i] == enc_nat(n / 10)[i]);
            } else {
                assert(e[i] == digit_char(n % 10));
            }
        }
    }
}

/// Greedy digit parsing walks over an encoded number, folding its value into
/// the accumulator, and goes on with what follows.
proof fn lemma_digits_append(n: nat, rest: Seq<char>, acc: nat)
    ensures
        p_digits(enc_nat(n) + rest, acc) == p_digits(rest, acc * pow10(enc_nat(n).len()) + n),
    decreases n,
{
    lemma_enc_nat_shape(n);
    let s = enc_nat(n) + rest;
    if n < 10 {
        lemma_digit_char(n);
        assert(s[0] == digit_char(n));
        assert(s.drop_first() =~= rest);
        assert(p_digits(s, acc) == p_digits(rest, acc * 10 + n));
        assert(pow10(0) == 1);
        assert(pow10(1) == 10);
        assert(acc * pow10(1) == acc * 10);
    } else {
        let hi = n / 10;
        let lo = n % 10;
        lemma_digit_char(lo);
        let mid = seq![digit_char(lo)] + rest;
        assert(s =~= enc_nat(hi) + mid);
        lemma_digits_append(hi, mid, acc);
        let k = enc_nat(hi).len();
        let acc2 = acc * pow10(k) + hi;
        assert(p_digits(s, acc) == p_digits(mid, acc2));
        assert(mid[0] == digit_char(lo));
        assert(mid.drop_first() =~= rest);
        assert(p_digits(mid, acc2) == p_digits(rest, acc2 * 10 + lo));
        assert(enc_nat(n).len() == k + 1);
        assert(pow10(k + 1) == 10 * pow10(k));
        assert(acc2 * 10 + lo == acc * pow10(k + 1) + n) by (nonlinear_arith)
            requires
                acc2 == acc * pow10(k) + hi,
                pow10(k + 1) == 10 * pow10(k),
                hi == n / 10,
                lo == n % 10,
                n >= 10,
        {
            assert(n == 10 * (n / 10) + n % 10);
        }
    }
}

/// Parsing the encoding of a 64-bit number yields the number back, provided a
/// digit does not immediately follow it.
pub proof fn lemma_p_u64_enc(n: u64, rest: Seq<char>)
    requires
        rest.len() == 0 || !is_digit(rest[0]),
    ensures
        p_u64(enc_nat(n as nat) + rest) == Some((n, rest)),
{
    lemma_enc_nat_shape(n as nat);
    let s = enc_nat(n as nat) + rest;
    assert(s[0] == enc_nat(n as nat)[0]);
    if n == 0 {
        assert(enc_nat(0) == seq![digit_char(0)]);
        assert(s[0] == '0');
        assert(s.drop_first() =~= rest);
    } else {
        assert(s[0] != '0');
        lemma_digits_append(n as nat, rest, 0);
        assert(p_digits(rest, 0 * pow10(enc_nat(n as nat).len()) + n as nat) == p_digits(
            rest,
            n as nat,
        ));
        assert(p_digits(rest, n as nat) == (n as nat, rest));
    }
}

pub proof fn lemma_p_u32_enc(n: u32, rest: Seq<char>)
    requires
        rest.len() == 0 || !is_digit(rest[0]),
    ensures
        p_u32(enc_nat(n as nat) + rest) == Some((n, rest)),
{
    lemma_p_u64_enc(n as u64, rest);
}

pub proof fn lemma_p_u16_enc(n: u16, rest: Seq<char>)
    requires
        rest.len() == 0 || !is_digit(rest[0]),
    ensures
        p_u16(enc_nat(n as nat) + rest) == Some((n, rest)),
{
    lemma_p_u64_enc(n as u64, rest);
}

pub proof fn lemma_p_u8_enc(n: u8, rest: Seq<char>)
    requires
        rest.len() == 0 || !is_digit(rest[0]),
    ensures
        p_u8(enc_nat(n as nat) + rest) == Some((n, rest)),
{
    lemma_p_u64_enc(n as u64, rest);
}

/// Parsing the encoding of a signed 32-bit number yields the number back.
pub proof fn lemma_p_i32_enc(y: i32, rest: Seq<char>)
    requires
        rest.len() == 0 || !is_digit(rest[0]),
    ensures
        p_i32(enc_i32(y) + rest) == Some((y, rest)),
{
    if y >= 0 {
        lemma_enc_nat_shape(y as nat);
        let s = enc_i32(y) + rest;
        assert(s[0] == enc_nat(y as nat)[0]);
        assert(s[0] != '-');
        lemma_p_u64_enc(y as u64, rest);
        assert(enc_i32(y) == enc_nat(y as nat));
    } else {
        let m = (-(y as int)) as nat;
        let s = enc_i32(y) + rest;
        assert(s[0] == '-');
        assert(s.drop_first() =~= enc_nat(m) + rest);
        let mu = m as u64;
        assert(mu as nat == m);
        lemma_p_u64_enc(mu, rest);
        assert(1 <= mu <= 0x8000_0000);
        assert((-(mu as int)) as i32 == y);
    }
}

/// An expected literal consumes exactly itself.
pub proof fn lemma_p_lit(l: Seq<char>, rest: Seq<char>)
    ensures
        p_lit(l, l + rest) == Some(rest),
{
    let s = l + rest;
    assert(l.is_prefix_of(s)) by {
        assert(s.subrange(0, l.len() as int) =~= l);
    }
    assert(s.skip(l.len() as int) =~= rest);
}

/// A literal that disagrees at one position, or is longer than the input,
/// is not a prefix of it.
pub proof fn lemma_p_lit_none(l: Seq<char>, s: Seq<char>, k: int)
    requires
        l.len() > s.len() || (0 <= k < l.len() && k < s.len() && l[k] != s[k]),
    ensures
        p_lit(l, s) is None,
{
    if l.len() <= s.len() {
        assert(s.subrange(0, l.len() as int)[k] == s[k]);
        assert(!l.is_prefix_of(s));
    }
}

/// Parsing an escaped string body, up to the closing quote, yields the
/// original characters.
proof fn lemma_p_str_body_enc(t: Seq<char>, rest: Seq<char>)
    ensures
        p_str_body(esc_str(t) + (seq!['"'] + rest)) == Some((t, rest)),
    decreases t.len(),
{
    let s = esc_str(t) + (seq!['"'] + rest);
    if t.len() == 0 {
        assert(s =~= seq!['"'] + rest);
        assert(s[0] == '"');
        assert(s.drop_first() =~= rest);
    } else {
        let c = t[0];
        let tail = t.drop_first();
        lemma_p_str_body_enc(tail, rest);
        let inner = esc_str(tail) + (seq!['"'] + rest);
        assert(s =~= esc_char(c) + inner);
        if c == '"' || c == '\\' {
            assert(s[0] == '\\');
            assert(s[1] == c);
            assert(s.skip(2) =~= inner);
            assert(seq![s[1]] + tail =~= t);
        } else if (c as u32) < 32 {
            let code = c as u32;
            lemma_lhex_char((code / 16) as nat);
            lemma_lhex_char((code % 16) as nat);
            assert(s[0] == '\\');
            assert(s[1] == 'u');
            assert(s[2] == '0');
            assert(s[3] == '0');
            assert(s[4] == lhex_char((code / 16) as nat));
            assert(s[5] == lhex_char((code % 16) as nat));
            assert(lhex_val(s[4]) * 16 + lhex_val(s[5]) == code);
            assert(s.skip(6) =~= inner);
            let v = lhex_val(s[4]) * 16 + lhex_val(s[5]);
            let ch = (v as u8) as char;
            assert(ch as u32 == c as u32);
            vstd::utf8::char_u32_cast(ch, ch as u32);
            vstd::utf8::char_u32_cast(c, c as u32);
            assert(ch == c);
            assert((((lhex_val(s[4]) * 16 + lhex_val(s[5])) as u8) as char) == c);
            assert(seq![(((lhex_val(s[4]) * 16 + lhex_val(s[5])) as u8) as char)] + tail =~= t);
        } else {
            assert(s[0] == c);
            assert(s.drop_first() =~= inner);
            assert(seq![c] + tail =~= t);
        }
    }
}

/// Parsing an encoded string yields the string back.
pub proof fn lemma_p_str_enc(t: Seq<char>, rest: Seq<char>)
    ensures
        p_str(enc_str(t) + rest) == Some((t, rest)),
{
    let s = enc_str(t) + rest;
    assert(s[0] == '"');
    lemma_p_str_body_enc(t, rest);
    assert(s.drop_first() =~= esc_str(t) + (seq!['"'] + rest));
}

/// Parsing an encoded boolean yields it back.
pub proof fn lemma_p_bool_enc(b: bool, rest: Seq<char>)
    ensures
        p_bool(enc_bool(b) + rest) == Some((b, rest)),
{
    reveal_strlit("true");
    reveal_strlit("false");
    if b {
        lemma_p_lit(("true")@, rest);
    } else {
        lemma_p_lit_none(("true")@, ("false")@ + rest, 0);
        lemma_p_lit(("false")@, rest);
    }
}

/// Parsing an encoded color name yields the color back.
pub proof fn lemma_p_color_enc(c: TextHighlightColor, rest: Seq<char>)
    ensures
        p_color(enc_color(c) + rest) == Some((c, rest)),
{
    reveal_strlit("\"RED\"");
    reveal_strlit("\"BLUE\"");
    reveal_strlit("\"CYAN\"");
    reveal_strlit("\"GREEN\"");
    reveal_strlit("\"GRAY\"");
    reveal_strlit("\"PINK\"");
    reveal_strlit("\"YELLOW\"");
    reveal_strlit("\"PURPLE\"");
    let s = enc_color(c) + rest;
    lemma_p_lit(enc_color(c), rest);
    match c {
        TextHighlightColor::RED => {
        },
        TextHighlightColor::BLUE => {
            lemma_p_lit_none(("\"RED\"")@, s, 1);
        },
        TextHighlightColor::CYAN => {
            lemma_p_lit_none(("\"RED\"")@, s, 1);
            lemma_p_lit_none(("\"BLUE\"")@, s, 1);
        },
        TextHighlightColor::GREEN => {
            lemma_p_lit_none(("\"RED\"")@, s, 1);
            lemma_p_lit_none(("\"BLUE\"")@, s, 1);
            lemma_p_lit_none(("\"CYAN\"")@, s, 1);
        },
        TextHighlightColor::GRAY => {
            lemma_p_lit_none(("\"RED\"")@, s, 1);
            lemma_p_lit_none(("\"BLUE\"")@, s, 1);
            lemma_p_lit_none(("\"CYAN\"")@, s, 1);
            lemma_p_lit_none(("\"GREEN\"")@, s, 3);
        },
        TextHighlightColor::PINK => {
            lemma_p_lit_none(("\"RED\"")@, s, 1);
            lemma_p_lit_none(("\"BLUE\"")@, s, 1);
            lemma_p_lit_none(("\"CYAN\"")@, s, 1);
            lemma_p_lit_none(("\"GREEN\"")@, s, 1);
            lemma_p_lit_none(("\"GRAY\"")@, s, 1);
        },
        TextHighlightColor::YELLOW => {
            lemma_p_lit_none(("\"RED\"")@, s, 1);
            lemma_p_lit_none(("\"BLUE\"")@, s, 1);
            lemma_p_lit_none(("\"CYAN\"")@, s, 1);
            lemma_p_lit_none(("\"GREEN\"")@, s, 1);
            lemma_p_lit_none(("\"GRAY\"")@, s, 1);
            lemma_p_lit_none(("\"PINK\"")@, s, 1);
        },
        TextHighlightColor::PURPLE => {
            lemma_p_lit_none(("\"RED\"")@, s, 1);
            lemma_p_lit_none(("\"BLUE\"")@, s, 1);
            lemma_p_lit_none(("\"CYAN\"")@, s, 1);
            lemma_p_lit_none(("\"GREEN\"")@, s, 1);
            lemma_p_lit_none(("\"GRAY\"")@, s, 1);
            lemma_p_lit_none(("\"PINK\"")@, s, 2);
            lemma_p_lit_none(("\"YELLOW\"")@, s, 1);
        },
    }
}

/// Parsing an encoded optional number yields it back.
pub proof fn lemma_p_opt_u32_enc(v: Option<u32>, rest: Seq<char>)
    requires
        rest.len() == 0 || !is_digit(rest[0]),
    ensures
        p_opt_u32(enc_opt_u32(v) + rest) == Some((v, rest)),
{
    reveal_strlit("null");
    match v {
        None => {
            lemma_p_lit(("null")@, rest);
        },
        Some(n) => {
            lemma_enc_nat_shape(n as nat);
            let s = enc_nat(n as nat) + rest;
            assert(s[0] == enc_nat(n as nat)[0]);
            lemma_p_lit_none(("null")@, s, 0);
            lemma_p_u32_enc(n, rest);
        },
    }
}

/// Parsing an encoded time span yields it back.
pub proof fn lemma_p_timespan_enc(t: TimeSpan, rest: Seq<char>)
    ensures
        p_timespan(enc_timespan(t) + rest) == Some((t, rest)),
        enc_timespan(t).len() >= 1,
        enc_timespan(t)[0] == '{',
{
    reveal_strlit("{\"secs\":");
    reveal_strlit(",\"nanos\":");
    reveal_strlit("}");
    let l1 = ("{\"secs\":")@;
    let l2 = (",\"nanos\":")@;
    let l3 = ("}")@;
    let e1 = enc_nat(t.secs as nat);
    let e2 = enc_nat(t.nanos as nat);
    let s = enc_timespan(t) + rest;
    let s1 = e1 + (l2 + (e2 + (l3 + rest)));
    assert(s =~= l1 + s1);
    lemma_p_lit(l1, s1);
    let s2 = l2 + (e2 + (l3 + rest));
    assert(s1 =~= e1 + s2);
    assert(!is_digit(s2[0]));
    lemma_p_u64_enc(t.secs, s2);
    let s3 = e2 + (l3 + rest);
    lemma_p_lit(l2, s3);
    let s4 = l3 + rest;
    assert(s3 =~= e2 + s4);
    assert(!is_digit(s4[0]));
    lemma_p_u32_enc(t.nanos, s4);
    lemma_p_lit(l3, rest);
    assert((TimeSpan { secs: t.secs, nanos: t.nanos }) == t);
}

/// Parsing an encoded timestamp yields it back.
pub proof fn lemma_p_timestamp_enc(t: Timestamp, rest: Seq<char>)
    ensures
        p_timestamp(enc_timestamp(t) + rest) == Some((t, rest)),
        enc_timestamp(t).len() >= 1,
        enc_timestamp(t)[0] == '{',
{
    reveal_strlit("{\"secs_since_epoch\":");
    reveal_strlit(",\"nanos_since_epoch\":");
    reveal_strlit("}");
    let l1 = ("{\"secs_since_epoch\":")@;
    let l2 = (",\"nanos_since_epoch\":")@;
    let l3 = ("}")@;
    let e1 = enc_nat(t.secs as nat);
    let e2 = enc_nat(t.nanos as nat);
    let s = enc_timestamp(t) + rest;
    let s1 = e1 + (l2 + (e2 + (l3 + rest)));
    assert(s =~= l1 + s1);
    lemma_p_lit(l1, s1);
    let s2 = l2 + (e2 + (l3 + rest));
    assert(s1 =~= e1 + s2);
    assert(!is_digit(s2[0]));
    lemma_p_u64_enc(t.secs, s2);
    let s3 = e2 + (l3 + rest);
    lemma_p_lit(l2, s3);
    let s4 = l3 + rest;
    assert(s3 =~= e2 + s4);
    assert(!is_digit(s4[0]));
    lemma_p_u32_enc(t.nanos, s4);
    lemma_p_lit(l3, rest);
    assert((Timestamp { secs: t.secs, nanos: t.nanos }) == t);
}

/// Parsing an encoded optional timestamp yields it back.
pub proof fn lemma_p_opt_timestamp_enc(v: Option<Timestamp>, rest: Seq<char>)
    ensures
        p_opt_timestamp(enc_opt_timestamp(v) + rest) == Some((v, rest)),
{
    reveal_strlit("null");
    match v {
        None => {
            lemma_p_lit(("null")@, rest);
        },
        Some(t) => {
            lemma_p_timestamp_enc(t, rest);
            let s = enc_timestamp(t) + rest;
            assert(s[0] == '{');
            lemma_p_lit_none(("null")@, s, 0);
        },
    }
}

/// Parsing an encoded date yields it back.
pub proof fn lemma_p_date_enc(d: Date, rest: Seq<char>)
    ensures
        p_date(enc_date(d) + rest) == Some((d, rest)),
{
    reveal_strlit("{\"year\":");
    reveal_strlit(",\"month\":");
    reveal_strlit(",\"day\":");
    reveal_strlit("}");
    let l1 = ("{\"year\":")@;
    let l2 = (",\"month\":")@;
    let l3 = (",\"day\":")@;
    let l4 = ("}")@;
    let e1 = enc_i32(d.year);
    let e2 = enc_nat(d.month as nat);
    let e3 = enc_nat(d.day as nat);
    let s = enc_date(d) + rest;
    let s1 = e1 + (l2 + (e2 + (l3 + (e3 + (l4 + rest)))));
    assert(s =~= l1 + s1);
    lemma_p_lit(l1, s1);
    let s2 = l2 + (e2 + (l3 + (e3 + (l4 + rest))));
    assert(s1 =~= e1 + s2);
    assert(!is_digit(s2[0]));
    lemma_p_i32_enc(d.year, s2);
    let s3 = e2 + (l3 + (e3 + (l4 + rest)));
    lemma_p_lit(l2, s3);
    let s4 = l3 + (e3 + (l4 + rest));
    assert(s3 =~= e2 + s4);
    assert(!is_digit(s4[0]));
    lemma_p_u32_enc(d.month, s4);
    let s5 = e3 + (l4 + rest);
    lemma_p_lit(l3, s5);
    let s6 = l4 + rest;
    assert(s5 =~= e3 + s6);
    assert(!is_digit(s6[0]));
    lemma_p_u32_enc(d.day, s6);
    lemma_p_lit(l4, rest);
    assert((Date { year: d.year, month: d.month, day: d.day }) == d);
}

/// Parsing an encoded highlight yields it back.
#[verifier::rlimit(100)]
pub proof fn lemma_p_highlight_enc(h: TextHighlight, rest: Seq<char>)
    ensures
        p_highlight(enc_highlight(h) + rest) == Some((h, rest)),
        enc_highlight(h).len() >= 1,
        enc_highlight(h)[0] == '{',
{
    reveal_strlit("{\"page_number\":");
    reveal_strlit(",\"line_number\":");
    reveal_strlit(",\"start_pos\":");
    reveal_strlit(",\"length\":");
    reveal_strlit(",\"color\":");
    reveal_strlit("}");
    let l1 = ("{\"page_number\":")@;
    let l2 = (",\"line_number\":")@;
    let l3 = (",\"start_pos\":")@;
    let l4 = (",\"length\":")@;
    let l5 = (",\"color\":")@;
    let l6 = ("}")@;
    let e1 = enc_nat(h.page_number as nat);
    let e2 = enc_nat(h.line_number as nat);
    let e3 = enc_nat(h.start_pos as nat);
    let e4 = enc_nat(h.length as nat);
    let e5 = enc_color(h.color);
    let s = enc_highlight(h) + rest;
    let s1 = e1 + (l2 + (e2 + (l3 + (e3 + (l4 + (e4 + (l5 + (e5 + (l6 + rest)))))))));
    lemma_concat_associative(l1 + e1 + l2 + e2 + l3 + e3 + l4 + e4 + l5 + e5, l6, rest);
    lemma_concat_associative(l1 + e1 + l2 + e2 + l3 + e3 + l4 + e4 + l5, e5, l6 + (rest));
    lemma_concat_associative(l1 + e1 + l2 + e2 + l3 + e3 + l4 + e4, l5, e5 + (l6 + (rest)));
    lemma_concat_associative(l1 + e1 + l2 + e2 + l3 + e3 + l4, e4, l5 + (e5 + (l6 + (rest))));
    lemma_concat_associative(l1 + e1 + l2 + e2 + l3 + e3, l4, e4 + (l5 + (e5 + (l6 + (rest)))));
    lemma_concat_associative(l1 + e1 + l2 + e2 + l3, e3, l4 + (e4 + (l5 + (e5 + (l6 + (rest))))));
    lemma_concat_associative(l1 + e1 + l2 + e2, l3, e3 + (l4 + (e4 + (l5 + (e5 + (l6 + (rest)))))));
    lemma_concat_associative(l1 + e1 + l2, e2, l3 + (e3 + (l4 + (e4 + (l5 + (e5 + (l6 + (rest))))))));
    lemma_concat_associative(l1 + e1, l2, e2 + (l3 + (e3 + (l4 + (e4 + (l5 + (e5 + (l6 + (rest)))))))));
    lemma_concat_associative(l1, e1, l2 + (e2 + (l3 + (e3 + (l4 + (e4 + (l5 + (e5 + (l6 + (rest))))))))));
    assert(s == l1 + s1);
    lemma_p_lit(l1, s1);
    let s2 = l2 + (e2 + (l3 + (e3 + (l4 + (e4 + (l5 + (e5 + (l6 + rest))))))));
    assert(s1 =~= e1 + s2);
    assert(!is_digit(s2[0]));
    lemma_p_u16_enc(h.page_number, s2);
    let s3 = e2 + (l3 + (e3 + (l4 + (e4 + (l5 + (e5 + (l6 + rest)))))));
    lemma_p_lit(l2, s3);
    let s4 = l3 + (e3 + (l4 + (e4 + (l5 + (e5 + (l6 + rest))))));
    assert(s3 =~= e2 + s4);
    assert(!is_digit(s4[0]));
    lemma_p_u16_enc(h.line_number, s4);
    let s5 = e3 + (l4 + (e4 + (l5 + (e5 + (l6 + rest)))));
    lemma_p_lit(l3, s5);
    let s6 = l4 + (e4 + (l5 + (e5 + (l6 + rest))));
    assert(s5 =~= e3 + s6);
    assert(!is_digit(s6[0]));
    lemma_p_u16_enc(h.start_pos, s6);
    let s7 = e4 + (l5 + (e5 + (l6 + rest)));
    lemma_p_lit(l4, s7);
    let s8 = l5 + (e5 + (l6 + rest));
    assert(s7 =~= e4 + s8);
    assert(!is_digit(s8[0]));
    lemma_p_u16_enc(h.length, s8);
    let s9 = e5 + (l6 + rest);
    lemma_p_lit(l5, s9);
    let s10 = l6 + rest;
    assert(s9 =~= e5 + s10);
    lemma_p_color_enc(h.color, s10);
    lemma_p_lit(l6, rest);
    assert((TextHighlight {
        page_number: h.page_number,
        line_number: h.line_number,
        start_pos: h.start_pos,
        length: h.length,
        color: h.color,
    }) == h);
}

/// Parsing the items of a non-empty encoded highlight list yields them back.
#[verifier::rlimit(100)]
proof fn lemma_p_hl_items_enc(v: Seq<TextHighlight>, rest: Seq<char>)
    requires
        v.len() >= 1,
    ensures
        p_hl_items(enc_hl_items(v) + rest) == Some((v, rest)),
    decreases v.len(),
{
    let s = enc_hl_items(v) + rest;
    if v.len() == 1 {
        let r = seq![']'] + rest;
        lemma_concat_associative(enc_highlight(v[0]), seq![']'], rest);
        assert(s == enc_highlight(v[0]) + r);
        lemma_p_highlight_enc(v[0], r);
        assert(r.len() < s.len());
        assert(r[0] == ']');
        assert(r.drop_first() =~= rest);
        assert(seq![v[0]] =~= v);
    } else {
        let tail = v.drop_first();
        let r = seq![','] + (enc_hl_items(tail) + rest);
        lemma_concat_associative(enc_highlight(v[0]) + seq![','], enc_hl_items(tail), rest);
        lemma_concat_associative(enc_highlight(v[0]), seq![','], enc_hl_items(tail) + rest);
        assert(s == enc_highlight(v[0]) + r);
        lemma_p_highlight_enc(v[0], r);
        assert(r.len() < s.len());
        assert(r[0] == ',');
        assert(r.drop_first() =~= enc_hl_items(tail) + rest);
        lemma_p_hl_items_enc(tail, rest);
        assert(seq![v[0]] + tail =~= v);
    }
}

/// Parsing an encoded highlight list yields it back.
pub proof fn lemma_p_highlights_enc(v: Seq<TextHighlight>, rest: Seq<char>)
    ensures
        p_highlights(enc_highlights(v) + rest) == Some((v, rest)),
{
    reveal_strlit("[]");
    if v.len() == 0 {
        lemma_p_lit(("[]")@, rest);
        assert(Seq::<TextHighlight>::empty() =~= v);
    } else {
        let s = enc_highlights(v) + rest;
        assert(s =~= seq!['['] + (enc_hl_items(v) + rest));
        lemma_p_highlight_enc(v[0], Seq::empty());
        assert(enc_hl_items(v)[0] == enc_highlight(v[0])[0]);
        assert(s[1] == '{');
        lemma_p_lit_none(("[]")@, s, 1);
        assert(s[0] == '[');
        assert(s.drop_first() =~= enc_hl_items(v) + rest);
        lemma_p_hl_items_enc(v, rest);
    }
}

/// Parsing `k` encoded weekly counters yields them back.
proof fn lemma_p_u8_items_enc(v: Seq<u8>, rest: Seq<char>)
    requires
        v.len() >= 1,
    ensures
        p_u8_items(enc_u8_items(v) + rest, v.len()) == Some((v, rest)),
    decreases v.len(),
{
    reveal_strlit("]");
    reveal_strlit(",");
    let s = enc_u8_items(v) + rest;
    if v.len() == 1 {
        let r = seq![']'] + rest;
        assert(s =~= enc_nat(v[0] as nat) + r);
        assert(!is_digit(r[0]));
        lemma_p_u8_enc(v[0], r);
        assert(("]")@ =~= seq![']']);
        assert(r =~= ("]")@ + rest);
        lemma_p_lit(("]")@, rest);
        assert(seq![v[0]] =~= v);
    } else {
        let tail = v.drop_first();
        let r = seq![','] + (enc_u8_items(tail) + rest);
        assert(s =~= enc_nat(v[0] as nat) + r);
        assert(!is_digit(r[0]));
        lemma_p_u8_enc(v[0], r);
        assert((",")@ =~= seq![',']);
        assert(r =~= (",")@ + (enc_u8_items(tail) + rest));
        lemma_p_lit((",")@, enc_u8_items(tail) + rest);
        lemma_p_u8_items_enc(tail, rest);
        assert(seq![v[0]] + tail =~= v);
    }
}

/// Parsing an encoded week of counters yields it back.
pub proof fn lemma_p_week_enc(v: Seq<u8>, rest: Seq<char>)
    requires
        v.len() == 7,
    ensures
        p_week(enc_week(v) + rest) == Some((v, rest)),
{
    let s = enc_week(v) + rest;
    assert(s[0] == '[');
    assert(s.drop_first() =~= enc_u8_items(v) + rest);
    lemma_p_u8_items_enc(v, rest);
}

/// Parsing the second half of an encoded book record completes the record.
#[verifier::rlimit(100)]
proof fn lemma_p_book_tail_enc(b: BookAbs, rest: Seq<char>)
    ensures
        p_book_tail(
            b.id,
            b.name,
            b.description,
            b.current_page,
            b.page_count,
            b.score,
            enc_book_tail(b) + rest,
        ) == Some((b, rest)),
{
    reveal_strlit(",\"is_favorite\":");
    reveal_strlit(",\"is_open\":");
    reveal_strlit(",\"time_spent\":");
    reveal_strlit(",\"completed_at\":");
    reveal_strlit(",\"last_time_opened\":");
    reveal_strlit(",\"text_highlights\":");
    reveal_strlit(",\"file_size\":");
    reveal_strlit(",\"book_path\":");
    reveal_strlit(",\"thumbnail_path\":");
    reveal_strlit("}");
    let l1 = (",\"is_favorite\":")@;
    let l2 = (",\"is_open\":")@;
    let l3 = (",\"time_spent\":")@;
    let l4 = (",\"completed_at\":")@;
    let l5 = (",\"last_time_opened\":")@;
    let l6 = (",\"text_highlights\":")@;
    let l7 = (",\"file_size\":")@;
    let l8 = (",\"book_path\":")@;
    let l9 = (",\"thumbnail_path\":")@;
    let l10 = ("}")@;
    reveal(p_book_tail);
    let e1 = enc_bool(b.is_favorite);
    let e2 = enc_bool(b.is_open);
    let e3 = enc_timespan(b.time_spent);
    let e4 = enc_opt_timestamp(b.completed_at);
    let e5 = enc_opt_timestamp(b.last_time_opened);
    let e6 = enc_highlights(b.text_highlights);
    let e7 = enc_nat(b.file_size as nat);
    let e8 = enc_str(b.book_path);
    let e9 = enc_str(b.thumbnail_path);
    let s = enc_book_tail(b) + rest;
    let t9 = e9 + (l10 + rest);
    let t8 = e8 + (l9 + t9);
    let t7 = e7 + (l8 + t8);
    let t6 = e6 + (l7 + t7);
    let t5 = e5 + (l6 + t6);
    let t4 = e4 + (l5 + t5);
    let t3 = e3 + (l4 + t4);
    let t2 = e2 + (l3 + t3);
    let t1 = e1 + (l2 + t2);
    lemma_concat_associative(l1 + e1 + l2 + e2 + l3 + e3 + l4 + e4 + l5 + e5 + l6 + e6 + l7 + e7 + l8 + e8 + l9 + e9, l10, rest);
    lemma_concat_associative(l1 + e1 + l2 + e2 + l3 + e3 + l4 + e4 + l5 + e5 + l6 + e6 + l7 + e7 + l8 + e8 + l9, e9, l10 + (rest));
    lemma_concat_associative(l1 + e1 + l2 + e2 + l3 + e3 + l4 + e4 + l5 + e5 + l6 + e6 + l7 + e7 + l8 + e8, l9, e9 + (l10 + (rest)));
    lemma_concat_associative(l1 + e1 + l2 + e2 + l3 + e3 + l4 + e4 + l5 + e5 + l6 + e6 + l7 + e7 + l8, e8, l9 + (e9 + (l10 + (rest))));
    lemma_concat_associative(l1 + e1 + l2 + e2 + l3 + e3 + l4 + e4 + l5 + e5 + l6 + e6 + l7 + e7, l8, e8 + (l9 + (e9 + (l10 + (rest)))));
    lemma_concat_associative(l1 + e1 + l2 + e2 + l3 + e3 + l4 + e4 + l5 + e5 + l6 + e6 + l7, e7, l8 + (e8 + (l9 + (e9 + (l10 + (rest))))));
    lemma_concat_associative(l1 + e1 + l2 + e2 + l3 + e3 + l4 + e4 + l5 + e5 + l6 + e6, l7, e7 + (l8 + (e8 + (l9 + (e9 + (l10 + (rest)))))));
    lemma_concat_associative(l1 + e1 + l2 + e2 + l3 + e3 + l4 + e4 + l5 + e5 + l6, e6, l7 + (e7 + (l8 + (e8 + (l9 + (e9 + (l10 + (rest))))))));
    lemma_concat_associative(l1 + e1 + l2 + e2 + l3 + e3 + l4 + e4 + l5 + e5, l6, e6 + (l7 + (e7 + (l8 + (e8 + (l9 + (e9 + (l10 + (rest)))))))));
    lemma_concat_associative(l1 + e1 + l2 + e2 + l3 + e3 + l4 + e4 + l5, e5, l6 + (e6 + (l7 + (e7 + (l8 + (e8 + (l9 + (e9 + (l10 + (rest))))))))));
    lemma_concat_associative(l1 + e1 + l2 + e2 + l3 + e3 + l4 + e4, l5, e5 + (l6 + (e6 + (l7 + (e7 + (l8 + (e8 + (l9 + (e9 + (l10 + (rest)))))))))));
    lemma_concat_associative(l1 + e1 + l2 + e2 + l3 + e3 + l4, e4, l5 + (e5 + (l6 + (e6 + (l7 + (e7 + (l8 + (e8 + (l9 + (e9 + (l10 + (rest))))))))))));
    lemma_concat_associative(l1 + e1 + l2 + e2 + l3 + e3, l4, e4 + (l5 + (e5 + (l6 + (e6 + (l7 + (e7 + (l8 + (e8 + (l9 + (e9 + (l10 + (rest)))))))))))));
    lemma_concat_associative(l1 + e1 + l2 + e2 + l3, e3, l4 + (e4 + (l5 + (e5 + (l6 + (e6 + (l7 + (e7 + (l8 + (e8 + (l9 + (e9 + (l10 + (rest))))))))))))));
    lemma_concat_associative(l1 + e1 + l2 + e2, l3, e3 + (l4 + (e4 + (l5 + (e5 + (l6 + (e6 + (l7 + (e7 + (l8 + (e8 + (l9 + (e9 + (l10 + (rest)))))))))))))));
    lemma_concat_associative(l1 + e1 + l2, e2, l3 + (e3 + (l4 + (e4 + (l5 + (e5 + (l6 + (e6 + (l7 + (e7 + (l8 + (e8 + (l9 + (e9 + (l10 + (rest))))))))))))))));
    lemma_concat_associative(l1 + e1, l2, e2 + (l3 + (e3 + (l4 + (e4 + (l5 + (e5 + (l6 + (e6 + (l7 + (e7 + (l8 + (e8 + (l9 + (e9 + (l10 + (rest)))))))))))))))));
    lemma_concat_associative(l1, e1, l2 + (e2 + (l3 + (e3 + (l4 + (e4 + (l5 + (e5 + (l6 + (e6 + (l7 + (e7 + (l8 + (e8 + (l9 + (e9 + (l10 + (rest))))))))))))))))));
    assert(s == l1 + t1);
    lemma_p_lit(l1, t1);
    lemma_p_bool_enc(b.is_favorite, l2 + t2);
    lemma_p_lit(l2, t2);
    lemma_p_bool_enc(b.is_open, l3 + t3);
    lemma_p_lit(l3, t3);
    lemma_p_timespan_enc(b.time_spent, l4 + t4);
    lemma_p_lit(l4, t4);
    lemma_p_opt_timestamp_enc(b.completed_at, l5 + t5);
    lemma_p_lit(l5, t5);
    lemma_p_opt_timestamp_enc(b.last_time_opened, l6 + t6);
    lemma_p_lit(l6, t6);
    lemma_p_highlights_enc(b.text_highlights, l7 + t7);
    lemma_p_lit(l7, t7);
    assert(!is_digit((l8 + t8)[0]));
    lemma_p_u64_enc(b.file_size, l8 + t8);
    lemma_p_lit(l8, t8);
    lemma_p_str_enc(b.book_path, l9 + t9);
    lemma_p_lit(l9, t9);
    lemma_p_str_enc(b.thumbnail_path, l10 + rest);
    lemma_p_lit(l10, rest);
    assert((BookAbs {
        id: b.id,
        name: b.name,
        description: b.description,
        current_page: b.current_page,
        page_count: b.page_count,
        score: b.score,
        is_favorite: b.is_favorite,
        is_open: b.is_open,
        time_spent: b.time_spent,
        completed_at: b.completed_at,
        last_time_opened: b.last_time_opened,
        text_highlights: b.text_highlights,
        file_size: b.file_size,
        book_path: b.book_path,
        thumbnail_path: b.thumbnail_path,
    }) =~= b);
}

/// Parsing an encoded book record yields the record back.
#[verifier::rlimit(100)]
pub proof fn lemma_p_book_enc(b: BookAbs, rest: Seq<char>)
    ensures
        p_book(enc_book(b) + rest) == Some((b, rest)),
        enc_book(b).len() >= 1,
        enc_book(b)[0] == '{',
{
    reveal_strlit("{\"id\":");
    reveal_strlit(",\"name\":");
    reveal_strlit(",\"description\":");
    reveal_strlit(",\"current_page\":");
    reveal_strlit(",\"page_count\":");
    reveal_strlit(",\"score\":");
    let l1 = ("{\"id\":")@;
    let l2 = (",\"name\":")@;
    let l3 = (",\"description\":")@;
    let l4 = (",\"current_page\":")@;
    let l5 = (",\"page_count\":")@;
    let l6 = (",\"score\":")@;
    reveal(p_book);
    let e1 = enc_str(b.id);
    let e2 = enc_str(b.name);
    let e3 = enc_str(b.description);
    let e4 = enc_nat(b.current_page as nat);
    let e5 = enc_nat(b.page_count as nat);
    let e6 = enc_opt_u32(b.score);
    let tail = enc_book_tail(b) + rest;
    let t6 = e6 + tail;
    let t5 = e5 + (l6 + t6);
    let t4 = e4 + (l5 + t5);
    let t3 = e3 + (l4 + t4);
    let t2 = e2 + (l3 + t3);
    let t1 = e1 + (l2 + t2);
    let s = enc_book(b) + rest;
    lemma_concat_associative(
        l1 + e1 + l2 + e2 + l3 + e3 + l4 + e4 + l5 + e5 + l6 + e6,
        enc_book_tail(b),
        rest,
    );
    lemma_concat_associative(l1 + e1 + l2 + e2 + l3 + e3 + l4 + e4 + l5 + e5 + l6, e6, tail);
    lemma_concat_associative(l1 + e1 + l2 + e2 + l3 + e3 + l4 + e4 + l5 + e5, l6, e6 + (tail));
    lemma_concat_associative(l1 + e1 + l2 + e2 + l3 + e3 + l4 + e4 + l5, e5, l6 + (e6 + (tail)));
    lemma_concat_associative(l1 + e1 + l2 + e2 + l3 + e3 + l4 + e4, l5, e5 + (l6 + (e6 + (tail))));
    lemma_concat_associative(l1 + e1 + l2 + e2 + l3 + e3 + l4, e4, l5 + (e5 + (l6 + (e6 + (tail)))));
    lemma_concat_associative(l1 + e1 + l2 + e2 + l3 + e3, l4, e4 + (l5 + (e5 + (l6 + (e6 + (tail))))));
    lemma_concat_associative(l1 + e1 + l2 + e2 + l3, e3, l4 + (e4 + (l5 + (e5 + (l6 + (e6 + (tail)))))));
    lemma_concat_associative(l1 + e1 + l2 + e2, l3, e3 + (l4 + (e4 + (l5 + (e5 + (l6 + (e6 + (tail))))))));
    lemma_concat_associative(l1 + e1 + l2, e2, l3 + (e3 + (l4 + (e4 + (l5 + (e5 + (l6 + (e6 + (tail)))))))));
    lemma_concat_associative(l1 + e1, l2, e2 + (l3 + (e3 + (l4 + (e4 + (l5 + (e5 + (l6 + (e6 + (tail))))))))));
    lemma_concat_associative(l1, e1, l2 + (e2 + (l3 + (e3 + (l4 + (e4 + (l5 + (e5 + (l6 + (e6 + (tail)))))))))));
    assert(s == l1 + t1);
    lemma_p_lit(l1, t1);
    lemma_p_str_enc(b.id, l2 + t2);
    lemma_p_lit(l2, t2);
    lemma_p_str_enc(b.name, l3 + t3);
    lemma_p_lit(l3, t3);
    lemma_p_str_enc(b.description, l4 + t4);
    lemma_p_lit(l4, t4);
    assert(!is_digit((l5 + t5)[0]));
    lemma_p_u16_enc(b.current_page, l5 + t5);
    lemma_p_lit(l5, t5);
    assert(!is_digit((l6 + t6)[0]));
    lemma_p_u64_enc(b.page_count, l6 + t6);
    lemma_p_lit(l6, t6);
    reveal_strlit(",\"is_favorite\":");
    assert(enc_book_tail(b)[0] == ',');
    assert(!is_digit(tail[0]));
    lemma_p_opt_u32_enc(b.score, tail);
    lemma_p_book_tail_enc(b, rest);
}

/// Parsing the items of a non-empty encoded book list yields them back.
#[verifier::rlimit(100)]
#[verifier::spinoff_prover]
proof fn lemma_p_book_items_enc(v: Seq<BookAbs>, rest: Seq<char>)
    requires
        v.len() >= 1,
    ensures
        p_book_items(enc_book_items(v) + rest) == Some((v, rest)),
    decreases v.len(),
{
    let s = enc_book_items(v) + rest;
    if v.len() == 1 {
        let r = seq![']'] + rest;
        lemma_concat_associative(enc_book(v[0]), seq![']'], rest);
        assert(s == enc_book(v[0]) + r);
        lemma_p_book_enc(v[0], r);
        assert(r.len() < s.len());
        assert(r[0] == ']');
        assert(r.drop_first() =~= rest);
        assert(seq![v[0]] =~= v);
    } else {
        let tail = v.drop_first();
        let r = seq![','] + (enc_book_items(tail) + rest);
        lemma_concat_associative(enc_book(v[0]) + seq![','], enc_book_items(tail), rest);
        lemma_concat_associative(enc_book(v[0]), seq![','], enc_book_items(tail) + rest);
        assert(s == enc_book(v[0]) + r);
        lemma_p_book_enc(v[0], r);
        assert(r.len() < s.len());
        assert(r[0] == ',');
        assert(r.drop_first() =~= enc_book_items(tail) + rest);
        lemma_p_book_items_enc(tail, rest);
        assert(seq![v[0]] + tail =~= v);
    }
}

/// Parsing an encoded book list yields it back.
#[verifier::rlimit(100)]
pub proof fn lemma_p_books_enc(v: Seq<BookAbs>, rest: Seq<char>)
    ensures
        p_books(enc_books(v) + rest) == Some((v, rest)),
{
    reveal_strlit("[]");
    if v.len() == 0 {
        lemma_p_lit(("[]")@, rest);
        assert(Seq::<BookAbs>::empty() =~= v);
    } else {
        let s = enc_books(v) + rest;
        assert(s =~= seq!['['] + (enc_book_items(v) + rest));
        lemma_p_book_enc(v[0], Seq::empty());
        assert(enc_book_items(v)[0] == enc_book(v[0])[0]);
        assert(s[1] == '{');
        lemma_p_lit_none(("[]")@, s, 1);
        assert(s[0] == '[');
        assert(s.drop_first() =~= enc_book_items(v) + rest);
        lemma_p_book_items_enc(v, rest);
    }
}

/// Parsing an encoded catalog, followed by anything, yields the catalog back.
#[verifier::rlimit(100)]
pub proof fn lemma_p_catalog_enc(c: CatalogAbs, rest: Seq<char>)
    requires
        c.hours_read_this_week.len() == 7,
    ensures
        p_catalog(enc_catalog(c) + rest) == Some((c, rest)),
{
    reveal_strlit("{\"theme\":");
    reveal_strlit(",\"hours_read_this_week\":");
    reveal_strlit(",\"average_hours_this_month\":");
    reveal_strlit(",\"most_active_day\":");
    reveal_strlit(",\"books\":");
    reveal_strlit("}");
    let l1 = ("{\"theme\":")@;
    let l2 = (",\"hours_read_this_week\":")@;
    let l3 = (",\"average_hours_this_month\":")@;
    let l4 = (",\"most_active_day\":")@;
    let l5 = (",\"books\":")@;
    let l6 = ("}")@;
    let e1 = enc_str(c.theme);
    let e2 = enc_week(c.hours_read_this_week);
    let e3 = enc_nat(c.average_hours_this_month as nat);
    let e4 = enc_date(c.most_active_day);
    let e5 = enc_books(c.books);
    let s = enc_catalog(c) + rest;
    let t5 = e5 + (l6 + rest);
    let t4 = e4 + (l5 + t5);
    let t3 = e3 + (l4 + t4);
    let t2 = e2 + (l3 + t3);
    let t1 = e1 + (l2 + t2);
    lemma_concat_associative(l1 + e1 + l2 + e2 + l3 + e3 + l4 + e4 + l5 + e5, l6, rest);
    lemma_concat_associative(l1 + e1 + l2 + e2 + l3 + e3 + l4 + e4 + l5, e5, l6 + (rest));
    lemma_concat_associative(l1 + e1 + l2 + e2 + l3 + e3 + l4 + e4, l5, e5 + (l6 + (rest)));
    lemma_concat_associative(l1 + e1 + l2 + e2 + l3 + e3 + l4, e4, l5 + (e5 + (l6 + (rest))));
    lemma_concat_associative(l1 + e1 + l2 + e2 + l3 + e3, l4, e4 + (l5 + (e5 + (l6 + (rest)))));
    lemma_concat_associative(l1 + e1 + l2 + e2 + l3, e3, l4 + (e4 + (l5 + (e5 + (l6 + (rest))))));
    lemma_concat_associative(l1 + e1 + l2 + e2, l3, e3 + (l4 + (e4 + (l5 + (e5 + (l6 + (rest)))))));
    lemma_concat_associative(l1 + e1 + l2, e2, l3 + (e3 + (l4 + (e4 + (l5 + (e5 + (l6 + (rest))))))));
    lemma_concat_associative(l1 + e1, l2, e2 + (l3 + (e3 + (l4 + (e4 + (l5 + (e5 + (l6 + (rest)))))))));
    lemma_concat_associative(l1, e1, l2 + (e2 + (l3 + (e3 + (l4 + (e4 + (l5 + (e5 + (l6 + (rest))))))))));
    assert(s == l1 + t1);
    lemma_p_lit(l1, t1);
    lemma_p_str_enc(c.theme, l2 + t2);
    lemma_p_lit(l2, t2);
    lemma_p_week_enc(c.hours_read_this_week, l3 + t3);
    lemma_p_lit(l3, t3);
    assert(!is_digit((l4 + t4)[0]));
    lemma_p_u16_enc(c.average_hours_this_month, l4 + t4);
    lemma_p_lit(l4, t4);
    lemma_p_date_enc(c.most_active_day, l5 + t5);
    lemma_p_lit(l5, t5);
    lemma_p_books_enc(c.books, l6 + rest);
    lemma_p_lit(l6, rest);
    assert((CatalogAbs {
        theme: c.theme,
        hours_read_this_week: c.hours_read_this_week,
        average_hours_this_month: c.average_hours_this_month,
        most_active_day: c.most_active_day,
        books: c.books,
    }) =~= c);
}

/// The round-trip law of the persisted format: whatever catalog is encoded,
/// parsing the encoding gives exactly that catalog, with nothing left over.
#[verifier::rlimit(100)]
pub proof fn lemma_catalog_round_trip(c: CatalogAbs)
    requires
        c.hours_read_this_week.len() == 7,
    ensures
        p_catalog(enc_catalog(c)) == Some((c, Seq::<char>::empty())),
{
    lemma_p_catalog_enc(c, Seq::empty());
    assert(enc_catalog(c) + Seq::<char>::empty() =~= enc_catalog(c));
}

} // verus!
