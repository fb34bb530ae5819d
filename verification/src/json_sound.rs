//! The converse of the round-trip laws: whatever the parsers accept was
//! literally an encoding.  Together with the round trip this pins the
//! persisted format down exactly: a character sequence is a catalog document
//! in precisely one way, or in none.
use vstd::prelude::*;
use vstd::seq_lib::lemma_concat_associative;

use crate::json_props::lemma_p_catalog_enc;
use crate::json_props::pow10;
use crate::json_spec::digit_char;
use crate::json_spec::digit_val;
use crate::json_spec::enc_nat;
use crate::json_spec::is_digit;
use crate::json_spec::p_digits;
use crate::json_spec::enc_bool;
use crate::json_spec::enc_color;
use crate::json_spec::enc_i32;
use crate::json_spec::enc_opt_u32;
use crate::json_spec::enc_str;
use crate::json_spec::esc_char;
use crate::json_spec::esc_str;
use crate::json_spec::is_lhex;
use crate::json_spec::lhex_char;
use crate::json_spec::lhex_val;
use crate::json_spec::p_bool;
use crate::json_spec::p_color;
use crate::json_spec::p_i32;
use crate::json_spec::p_lit;
use crate::json_spec::p_opt_u32;
use crate::json_spec::p_str;
use crate::json_spec::p_str_body;
use crate::json_spec::enc_date;
use crate::json_spec::enc_opt_timestamp;
use crate::json_spec::enc_timespan;
use crate::json_spec::enc_timestamp;
use crate::json_spec::p_date;
use crate::json_spec::p_opt_timestamp;
use crate::json_spec::p_timespan;
use crate::json_spec::p_timestamp;
use crate::json_spec::enc_highlight;
use crate::json_spec::enc_highlights;
use crate::json_spec::enc_hl_items;
use crate::json_spec::enc_u8_items;
use crate::json_spec::enc_week;
use crate::json_spec::p_highlight;
use crate::json_spec::p_highlights;
use crate::json_spec::p_hl_items;
use crate::json_spec::p_u8_items;
use crate::json_spec::p_week;
use crate::model::TextHighlight;
use crate::catalog::CatalogAbs;
use crate::json_spec::enc_book;
use crate::json_spec::enc_book_items;
use crate::json_spec::enc_book_tail;
use crate::json_spec::enc_books;
use crate::json_spec::enc_catalog;
use crate::json_spec::p_book;
use crate::json_spec::p_book_items;
use crate::json_spec::p_book_tail;
use crate::json_spec::p_books;
use crate::json_spec::p_catalog;
use crate::model::BookAbs;
use crate::json_spec::p_u16;
use crate::json_spec::p_u32;
use crate::json_spec::p_u64;
use crate::json_spec::p_u8;

verus! {

/// A run of digit characters.
pub open spec fn all_digits(ds: Seq<char>) -> bool {
    forall|i: int| 0 <= i < ds.len() ==> is_digit(#[trigger] ds[i])
}

/// The value of a run of digits, most significant first.
pub open spec fn digits_val(ds: Seq<char>) -> nat
    decreases ds.len(),
{
    if ds.len() == 0 {
        0
    } else {
        digits_val(ds.drop_last()) * 10 + digit_val(ds.last())
    }
}

/// A digit character is its value's digit.
proof fn lemma_digit_char_of_val(c: char)
    requires
        is_digit(c),
    ensures
        digit_char(digit_val(c)) == c,
{
    let v = digit_val(c);
    let d = digit_char(v);
    assert(d as u32 == c as u32);
    vstd::utf8::char_u32_cast(d, d as u32);
    vstd::utf8::char_u32_cast(c, c as u32);
}

/// Consuming one leading digit folds it into the value.
proof fn lemma_digits_val_cons(d: char, ds: Seq<char>)
    ensures
        digits_val(seq![d] + ds) == digit_val(d) * pow10(ds.len()) + digits_val(ds),
    decreases ds.len(),
{
    let whole = seq![d] + ds;
    if ds.len() == 0 {
        assert(whole.drop_last() =~= Seq::<char>::empty());
        assert(whole.last() == d);
        assert(pow10(0) == 1);
        assert(digits_val(Seq::<char>::empty()) == 0);
        assert(digits_val(whole) == digits_val(whole.drop_last()) * 10 + digit_val(whole.last()));
        assert(digits_val(whole) == digit_val(d));
        assert(digits_val(ds) == 0);
        assert(digit_val(d) * pow10(ds.len()) == digit_val(d));
    } else {
        assert(whole.drop_last() =~= seq![d] + ds.drop_last());
        assert(whole.last() == ds.last());
        lemma_digits_val_cons(d, ds.drop_last());
        assert(digits_val(whole) == digits_val(whole.drop_last()) * 10 + digit_val(whole.last()));
        assert(digits_val(whole.drop_last()) == digit_val(d) * pow10((ds.len() - 1) as nat)
            + digits_val(ds.drop_last()));
        assert(pow10(ds.len()) == 10 * pow10((ds.len() - 1) as nat));
        assert((digit_val(d) * pow10((ds.len() - 1) as nat) + digits_val(ds.drop_last())) * 10
            + digit_val(ds.last()) == digit_val(d) * pow10(ds.len()) + digits_val(ds))
            by (nonlinear_arith)
            requires
                pow10(ds.len()) == 10 * pow10((ds.len() - 1) as nat),
                digits_val(ds) == digits_val(ds.drop_last()) * 10 + digit_val(ds.last()),
        {
        }
    }
}

/// What greedy digit parsing consumed: a run of digits whose value, folded
/// onto the accumulator, is the result.
proof fn lemma_p_digits_shape(s: Seq<char>, acc: nat)
    ensures
        ({
            let (v, r) = p_digits(s, acc);
            &&& r.len() <= s.len()
            &&& s.skip((s.len() - r.len()) as int) =~= r
            &&& all_digits(s.take((s.len() - r.len()) as int))
            &&& (r.len() > 0 ==> !is_digit(r[0]))
            &&& v == acc * pow10((s.len() - r.len()) as nat) + digits_val(
                s.take((s.len() - r.len()) as int),
            )
        }),
    decreases s.len(),
{
    let (v, r) = p_digits(s, acc);
    if s.len() > 0 && is_digit(s[0]) {
        let rest = s.drop_first();
        lemma_p_digits_shape(rest, acc * 10 + digit_val(s[0]));
        let (v2, r2) = p_digits(rest, acc * 10 + digit_val(s[0]));
        assert(v == v2 && r == r2);
        let k2 = rest.len() - r2.len();
        let k = s.len() - r.len();
        assert(k == k2 + 1);
        let ds2 = rest.take(k2 as int);
        let ds = s.take(k as int);
        assert(ds =~= seq![s[0]] + ds2);
        assert(s.skip(k as int) =~= rest.skip(k2 as int));
        assert forall|i: int| 0 <= i < ds.len() implies is_digit(#[trigger] ds[i]) by {
            if i > 0 {
                assert(ds[i] == ds2[i - 1]);
            }
        }
        lemma_digits_val_cons(s[0], ds2);
        assert(digits_val(ds) == digits_val(seq![s[0]] + ds2));
        assert(digits_val(ds) == digit_val(s[0]) * pow10(k2 as nat) + digits_val(ds2));
        assert(pow10(k as nat) == 10 * pow10(k2 as nat));
        assert(v == (acc * 10 + digit_val(s[0])) * pow10(k2 as nat) + digits_val(ds2));
        assert((acc * 10 + digit_val(s[0])) * pow10(k2 as nat) + digits_val(ds2) == acc * pow10(
            k as nat,
        ) + digits_val(ds)) by (nonlinear_arith)
            requires
                pow10(k as nat) == 10 * pow10(k2 as nat),
                digits_val(ds) == digit_val(s[0]) * pow10(k2 as nat) + digits_val(ds2),
                k2 == ds2.len(),
        {
        }
    } else {
        assert(s.skip(0) =~= s);
        assert(all_digits(s.take(0)));
        assert(pow10(0) == 1);
        assert(digits_val(s.take(0)) == 0);
        assert(v == acc);
        assert(acc * pow10(0) == acc);
    }
}

/// A number's value is below the power of ten of its width, and at least the
/// power of its width less one when it has no leading zero.
proof fn lemma_digits_val_bounds(ds: Seq<char>)
    requires
        all_digits(ds),
    ensures
        digits_val(ds) < pow10(ds.len()),
        ds.len() > 0 && ds[0] != '0' ==> digits_val(ds) >= pow10((ds.len() - 1) as nat),
    decreases ds.len(),
{
    if ds.len() == 0 {
        assert(pow10(0) == 1);
    } else {
        let head = ds.drop_last();
        assert(all_digits(head)) by {
            assert forall|i: int| 0 <= i < head.len() implies is_digit(#[trigger] head[i]) by {
                assert(head[i] == ds[i]);
            }
        }
        lemma_digits_val_bounds(head);
        assert(pow10(ds.len()) == 10 * pow10((ds.len() - 1) as nat));
        assert(digit_val(ds.last()) < 10);
        assert(digits_val(head) * 10 + digit_val(ds.last()) < pow10(ds.len())) by (nonlinear_arith)
            requires
                digits_val(head) < pow10((ds.len() - 1) as nat),
                digit_val(ds.last()) < 10,
                pow10(ds.len()) == 10 * pow10((ds.len() - 1) as nat),
        {
        }
        if ds.len() > 0 && ds[0] != '0' {
            if ds.len() == 1 {
                assert(ds.last() == ds[0]);
                if digit_val(ds[0]) == 0 {
                    vstd::utf8::char_u32_cast(ds[0], ds[0] as u32);
                    vstd::utf8::char_u32_cast('0', '0' as u32);
                    assert(ds[0] as u32 == '0' as u32);
                    assert(false);
                }
                assert(digit_val(ds[0]) >= 1);
                assert(pow10(0) == 1);
            } else {
                assert(head[0] == ds[0]);
                assert(head.len() > 0);
                assert(digits_val(head) >= pow10((head.len() - 1) as nat));
                assert(digits_val(head) * 10 + digit_val(ds.last()) >= pow10(
                    (ds.len() - 1) as nat,
                )) by (nonlinear_arith)
                    requires
                        digits_val(head) >= pow10((head.len() - 1) as nat),
                        head.len() == ds.len() - 1,
                        pow10((ds.len() - 1) as nat) == 10 * pow10((ds.len() - 2) as nat),
                {
                }
            }
        }
    }
}

/// A run of digits without a leading zero is the decimal encoding of its
/// value.
proof fn lemma_digits_unique(ds: Seq<char>)
    requires
        all_digits(ds),
        ds.len() > 0,
        ds[0] != '0' || ds.len() == 1,
    ensures
        ds == enc_nat(digits_val(ds)),
    decreases ds.len(),
{
    let n = digits_val(ds);
    if ds.len() == 1 {
        assert(ds.drop_last() =~= Seq::<char>::empty());
        assert(digits_val(Seq::<char>::empty()) == 0);
        assert(ds.last() == ds[0]);
        assert(n == digit_val(ds[0]));
        assert(n < 10);
        lemma_digit_char_of_val(ds[0]);
        assert(enc_nat(n) == seq![digit_char(n)]);
        assert(ds =~= seq![digit_char(n)]);
    } else {
        let head = ds.drop_last();
        assert(all_digits(head)) by {
            assert forall|i: int| 0 <= i < head.len() implies is_digit(#[trigger] head[i]) by {
                assert(head[i] == ds[i]);
            }
        }
        assert(head[0] == ds[0]);
        lemma_digits_val_bounds(ds);
        assert(n >= pow10((ds.len() - 1) as nat));
        assert(pow10((ds.len() - 1) as nat) >= 10) by {
            lemma_pow10_ge_ten((ds.len() - 1) as nat);
        }
        assert(n == digits_val(head) * 10 + digit_val(ds.last()));
        assert(n / 10 == digits_val(head) && n % 10 == digit_val(ds.last())) by (nonlinear_arith)
            requires
                n == digits_val(head) * 10 + digit_val(ds.last()),
                digit_val(ds.last()) < 10,
        {
        }
        lemma_digits_unique(head);
        lemma_digit_char_of_val(ds.last());
        assert(n >= 10);
        assert(enc_nat(n) == enc_nat(n / 10) + seq![digit_char(n % 10)]);
        assert(ds =~= head + seq![ds.last()]);
    }
}

/// Powers of ten past the first are at least ten.
proof fn lemma_pow10_ge_ten(k: nat)
    requires
        k >= 1,
    ensures
        pow10(k) >= 10,
    decreases k,
{
    if k == 1 {
        assert(pow10(0) == 1);
    } else {
        lemma_pow10_ge_ten((k - 1) as nat);
    }
}

/// Whatever `p_u64` accepts was the decimal encoding of its result.
pub proof fn lemma_p_u64_sound(s: Seq<char>)
    ensures
        p_u64(s) matches Some((v, r)) ==> s == enc_nat(v as nat) + r,
{
    match p_u64(s) {
        None => {},
        Some((v, r)) => if s[0] == '0' {
            assert(r == s.drop_first());
            assert(enc_nat(0) == seq![digit_char(0)]);
            assert(digit_char(0) == '0') by {
                lemma_digit_char_of_val(s[0]);
                assert(digit_val(s[0]) == 0);
            }
            assert(s =~= enc_nat(0) + r);
        } else {
            lemma_p_digits_shape(s, 0);
            let (vn, rr) = p_digits(s, 0);
            let k = s.len() - rr.len();
            let ds = s.take(k as int);
            assert(k >= 1 && ds[0] == s[0]) by {
                if k == 0 {
                    assert(rr =~= s);
                }
            }
            assert(vn == 0 * pow10(k as nat) + digits_val(ds));
            lemma_digits_unique(ds);
            assert(ds == enc_nat(vn));
            assert(s =~= ds + rr);
        },
    }
}

pub proof fn lemma_p_u32_sound(s: Seq<char>)
    ensures
        p_u32(s) matches Some((v, r)) ==> s == enc_nat(v as nat) + r,
{
    lemma_p_u64_sound(s);
}

pub proof fn lemma_p_u16_sound(s: Seq<char>)
    ensures
        p_u16(s) matches Some((v, r)) ==> s == enc_nat(v as nat) + r,
{
    lemma_p_u64_sound(s);
}

pub proof fn lemma_p_u8_sound(s: Seq<char>)
    ensures
        p_u8(s) matches Some((v, r)) ==> s == enc_nat(v as nat) + r,
{
    lemma_p_u64_sound(s);
}

/// An accepted literal is a prefix.
pub proof fn lemma_p_lit_sound(l: Seq<char>, s: Seq<char>)
    ensures
        p_lit(l, s) matches Some(r) ==> s == l + r,
{
    match p_lit(l, s) {
        None => {},
        Some(r) => {
            assert(s =~= s.subrange(0, l.len() as int) + s.skip(l.len() as int));
            assert(s.subrange(0, l.len() as int) =~= l);
        },
    }
}

/// Whatever `p_i32` accepts was the signed encoding of its result.
pub proof fn lemma_p_i32_sound(s: Seq<char>)
    ensures
        p_i32(s) matches Some((y, r)) ==> s == enc_i32(y) + r,
{
    match p_i32(s) {
        None => {},
        Some((y, r)) => {
            if s.len() > 0 && s[0] == '-' {
                lemma_p_u64_sound(s.drop_first());
                match p_u64(s.drop_first()) {
                    None => {},
                    Some((v, r2)) => {
                        assert(y < 0);
                        assert((-(y as int)) as nat == v as nat);
                        assert(s.drop_first() == enc_nat(v as nat) + r2);
                        assert(s =~= seq!['-'] + (enc_nat(v as nat) + r2));
                        assert(s =~= enc_i32(y) + r);
                    },
                }
            } else {
                lemma_p_u64_sound(s);
                assert(y >= 0);
                assert(enc_i32(y) == enc_nat(y as nat));
            }
        },
    }
}

/// A lowercase hexadecimal digit is its value's digit.
proof fn lemma_lhex_char_of_val(c: char)
    requires
        is_lhex(c),
    ensures
        lhex_char(lhex_val(c)) == c,
{
    let v = lhex_val(c);
    let d = lhex_char(v);
    assert(d as u32 == c as u32);
    vstd::utf8::char_u32_cast(d, d as u32);
    vstd::utf8::char_u32_cast(c, c as u32);
}

/// Whatever the string-body parser accepts was the escaped form of its
/// result, closing quote included.
proof fn lemma_p_str_body_sound(s: Seq<char>)
    ensures
        p_str_body(s) matches Some((b, r)) ==> s == esc_str(b) + (seq!['"'] + r),
    decreases s.len(),
{
    match p_str_body(s) {
        None => {},
        Some((b, r)) => {
            if s[0] == '"' {
                assert(b =~= Seq::<char>::empty());
                assert(esc_str(b) =~= Seq::<char>::empty());
                assert(s =~= esc_str(b) + (seq!['"'] + r));
            } else if s[0] == '\\' {
                if s.len() >= 2 && (s[1] == '"' || s[1] == '\\') {
                    let x = s[1];
                    lemma_p_str_body_sound(s.skip(2));
                    match p_str_body(s.skip(2)) {
                        None => {},
                        Some((b2, r2)) => {
                            assert(b == seq![x] + b2 && r == r2);
                            assert(b[0] == x);
                            assert(b.drop_first() =~= b2);
                            assert(esc_char(x) =~= seq!['\\', x]);
                            assert(esc_str(b) == esc_char(x) + esc_str(b2));
                            assert(s =~= seq!['\\', x] + s.skip(2));
                            lemma_concat_associative(esc_char(x), esc_str(b2), seq!['"'] + r);
                            assert(s =~= esc_str(b) + (seq!['"'] + r));
                        },
                    }
                } else {
                    let v1 = lhex_val(s[4]);
                    let v2 = lhex_val(s[5]);
                    let code = v1 * 16 + v2;
                    let x = ((code as u8) as char);
                    lemma_p_str_body_sound(s.skip(6));
                    match p_str_body(s.skip(6)) {
                        None => {},
                        Some((b2, r2)) => {
                            assert(b == seq![x] + b2 && r == r2);
                            assert(b[0] == x);
                            assert(b.drop_first() =~= b2);
                            assert(x as u32 == code);
                            assert(code < 32);
                            assert(x != '"' && x != '\\') by {
                                assert(('"') as u32 == 34);
                                assert(('\\') as u32 == 92);
                            }
                            assert(code / 16 == v1 && code % 16 == v2) by (nonlinear_arith)
                                requires
                                    code == v1 * 16 + v2,
                                    v2 < 16,
                            {
                            }
                            lemma_lhex_char_of_val(s[4]);
                            lemma_lhex_char_of_val(s[5]);
                            assert(esc_char(x) =~= seq!['\\', 'u', '0', '0', s[4], s[5]]);
                            assert(esc_str(b) == esc_char(x) + esc_str(b2));
                            assert(s =~= seq!['\\', 'u', '0', '0', s[4], s[5]] + s.skip(6));
                            lemma_concat_associative(esc_char(x), esc_str(b2), seq!['"'] + r);
                            assert(s =~= esc_str(b) + (seq!['"'] + r));
                        },
                    }
                }
            } else {
                let x = s[0];
                lemma_p_str_body_sound(s.drop_first());
                match p_str_body(s.drop_first()) {
                    None => {},
                    Some((b2, r2)) => {
                        assert(b == seq![x] + b2 && r == r2);
                        assert(b[0] == x);
                        assert(b.drop_first() =~= b2);
                        assert(esc_char(x) =~= seq![x]);
                        assert(esc_str(b) == esc_char(x) + esc_str(b2));
                        assert(s =~= seq![x] + s.drop_first());
                        lemma_concat_associative(esc_char(x), esc_str(b2), seq!['"'] + r);
                        assert(s =~= esc_str(b) + (seq!['"'] + r));
                    },
                }
            }
        },
    }
}

/// Whatever the string parser accepts was the quoted encoding of its result.
pub proof fn lemma_p_str_sound(s: Seq<char>)
    ensures
        p_str(s) matches Some((b, r)) ==> s == enc_str(b) + r,
{
    match p_str(s) {
        None => {},
        Some((b, r)) => {
            lemma_p_str_body_sound(s.drop_first());
            assert(s.drop_first() == esc_str(b) + (seq!['"'] + r));
            assert(s =~= seq!['"'] + s.drop_first());
            lemma_concat_associative(seq!['"'] + esc_str(b), seq!['"'], r);
            lemma_concat_associative(seq!['"'], esc_str(b), seq!['"'] + r);
            assert(s =~= enc_str(b) + r);
        },
    }
}

/// Whatever the boolean parser accepts was a boolean's encoding.
pub proof fn lemma_p_bool_sound(s: Seq<char>)
    ensures
        p_bool(s) matches Some((v, r)) ==> s == enc_bool(v) + r,
{
    lemma_p_lit_sound(("true")@, s);
    lemma_p_lit_sound(("false")@, s);
}

/// Whatever the color parser accepts was a color name's encoding.
pub proof fn lemma_p_color_sound(s: Seq<char>)
    ensures
        p_color(s) matches Some((v, r)) ==> s == enc_color(v) + r,
{
    lemma_p_lit_sound(("\"RED\"")@, s);
    lemma_p_lit_sound(("\"BLUE\"")@, s);
    lemma_p_lit_sound(("\"CYAN\"")@, s);
    lemma_p_lit_sound(("\"GREEN\"")@, s);
    lemma_p_lit_sound(("\"GRAY\"")@, s);
    lemma_p_lit_sound(("\"PINK\"")@, s);
    lemma_p_lit_sound(("\"YELLOW\"")@, s);
    lemma_p_lit_sound(("\"PURPLE\"")@, s);
}

/// Whatever the optional-number parser accepts was an option's encoding.
pub proof fn lemma_p_opt_u32_sound(s: Seq<char>)
    ensures
        p_opt_u32(s) matches Some((v, r)) ==> s == enc_opt_u32(v) + r,
{
    lemma_p_lit_sound(("null")@, s);
    lemma_p_u64_sound(s);
}

/// Whatever the time-span parser accepts was a time span's encoding.
pub proof fn lemma_p_timespan_sound(s: Seq<char>)
    ensures
        p_timespan(s) matches Some((t, r)) ==> s == enc_timespan(t) + r,
{
    match p_timespan(s) {
        None => {},
        Some((t, rr)) => {
            let l1 = ("{\"secs\":")@;
            let l2 = (",\"nanos\":")@;
            let l3 = ("}")@;
            lemma_p_lit_sound(l1, s);
            match p_lit(l1, s) {
                None => {},
                Some(r1) => {
                    lemma_p_u64_sound(r1);
                    match p_u64(r1) {
                        None => {},
                        Some((secs, r2)) => {
                            lemma_p_lit_sound(l2, r2);
                            match p_lit(l2, r2) {
                                None => {},
                                Some(r3) => {
                                    lemma_p_u32_sound(r3);
                                    match p_u32(r3) {
                                        None => {},
                                        Some((nanos, r4)) => {
                                            lemma_p_lit_sound(l3, r4);
                                            match p_lit(l3, r4) {
                                                None => {},
                                                Some(r5) => {
                                                    let e1 = enc_nat(secs as nat);
                                                    let e2 = enc_nat(nanos as nat);
                                                    lemma_concat_associative(
                                                        l1,
                                                        e1,
                                                        l2 + (e2 + (l3 + r5)),
                                                    );
                                                    lemma_concat_associative(
                                                        l1 + e1,
                                                        l2,
                                                        e2 + (l3 + r5),
                                                    );
                                                    lemma_concat_associative(
                                                        l1 + e1 + l2,
                                                        e2,
                                                        l3 + r5,
                                                    );
                                                    lemma_concat_associative(
                                                        l1 + e1 + l2 + e2,
                                                        l3,
                                                        r5,
                                                    );
                                                    assert(s == enc_timespan(t) + r5);
                                                },
                                            }
                                        },
                                    }
                                },
                            }
                        },
                    }
                },
            }
        },
    }
}

/// Whatever the timestamp parser accepts was a timestamp's encoding.
pub proof fn lemma_p_timestamp_sound(s: Seq<char>)
    ensures
        p_timestamp(s) matches Some((t, r)) ==> s == enc_timestamp(t) + r,
{
    match p_timestamp(s) {
        None => {},
        Some((t, rr)) => {
            let l1 = ("{\"secs_since_epoch\":")@;
            let l2 = (",\"nanos_since_epoch\":")@;
            let l3 = ("}")@;
            lemma_p_lit_sound(l1, s);
            match p_lit(l1, s) {
                None => {},
                Some(r1) => {
                    lemma_p_u64_sound(r1);
                    match p_u64(r1) {
                        None => {},
                        Some((secs, r2)) => {
                            lemma_p_lit_sound(l2, r2);
                            match p_lit(l2, r2) {
                                None => {},
                                Some(r3) => {
                                    lemma_p_u32_sound(r3);
                                    match p_u32(r3) {
                                        None => {},
                                        Some((nanos, r4)) => {
                                            lemma_p_lit_sound(l3, r4);
                                            match p_lit(l3, r4) {
                                                None => {},
                                                Some(r5) => {
                                                    let e1 = enc_nat(secs as nat);
                                                    let e2 = enc_nat(nanos as nat);
                                                    lemma_concat_associative(
                                                        l1,
                                                        e1,
                                                        l2 + (e2 + (l3 + r5)),
                                                    );
                                                    lemma_concat_associative(
                                                        l1 + e1,
                                                        l2,
                                                        e2 + (l3 + r5),
                                                    );
                                                    lemma_concat_associative(
                                                        l1 + e1 + l2,
                                                        e2,
                                                        l3 + r5,
                                                    );
                                                    lemma_concat_associative(
                                                        l1 + e1 + l2 + e2,
                                                        l3,
                                                        r5,
                                                    );
                                                    assert(s == enc_timestamp(t) + r5);
                                                },
                                            }
                                        },
                                    }
                                },
                            }
                        },
                    }
                },
            }
        },
    }
}

/// Whatever the optional-timestamp parser accepts was an option's encoding.
pub proof fn lemma_p_opt_timestamp_sound(s: Seq<char>)
    ensures
        p_opt_timestamp(s) matches Some((v, r)) ==> s == enc_opt_timestamp(v) + r,
{
    lemma_p_lit_sound(("null")@, s);
    lemma_p_timestamp_sound(s);
}

/// Whatever the date parser accepts was a date's encoding.
pub proof fn lemma_p_date_sound(s: Seq<char>)
    ensures
        p_date(s) matches Some((d, r)) ==> s == enc_date(d) + r,
{
    match p_date(s) {
        None => {},
        Some((d, rr)) => {
            let l1 = ("{\"year\":")@;
            let l2 = (",\"month\":")@;
            let l3 = (",\"day\":")@;
            let l4 = ("}")@;
            lemma_p_lit_sound(l1, s);
            match p_lit(l1, s) {
                None => {},
                Some(r1) => {
                    lemma_p_i32_sound(r1);
                    match p_i32(r1) {
                        None => {},
                        Some((year, r2)) => {
                            lemma_p_lit_sound(l2, r2);
                            match p_lit(l2, r2) {
                                None => {},
                                Some(r3) => {
                                    lemma_p_u32_sound(r3);
                                    match p_u32(r3) {
                                        None => {},
                                        Some((month, r4)) => {
                                            lemma_p_lit_sound(l3, r4);
                                            match p_lit(l3, r4) {
                                                None => {},
                                                Some(r5) => {
                                                    lemma_p_u32_sound(r5);
                                                    match p_u32(r5) {
                                                        None => {},
                                                        Some((day, r6)) => {
                                                            lemma_p_lit_sound(l4, r6);
                                                            match p_lit(l4, r6) {
                                                                None => {},
                                                                Some(r7) => {
                                                                    let e1 = enc_i32(year);
                                                                    let e2 = enc_nat(month as nat);
                                                                    let e3 = enc_nat(day as nat);
                                                                    lemma_concat_associative(
                                                                        l1,
                                                                        e1,
                                                                        l2 + (e2 + (l3 + (e3 + (l4
                                                                            + r7)))),
                                                                    );
                                                                    lemma_concat_associative(
                                                                        l1 + e1,
                                                                        l2,
                                                                        e2 + (l3 + (e3 + (l4
                                                                            + r7))),
                                                                    );
                                                                    lemma_concat_associative(
                                                                        l1 + e1 + l2,
                                                                        e2,
                                                                        l3 + (e3 + (l4 + r7)),
                                                                    );
                                                                    lemma_concat_associative(
                                                                        l1 + e1 + l2 + e2,
                                                                        l3,
                                                                        e3 + (l4 + r7),
                                                                    );
                                                                    lemma_concat_associative(
                                                                        l1 + e1 + l2 + e2 + l3,
                                                                        e3,
                                                                        l4 + r7,
                                                                    );
                                                                    lemma_concat_associative(
                                                                        l1 + e1 + l2 + e2 + l3
                                                                            + e3,
                                                                        l4,
                                                                        r7,
                                                                    );
                                                                    assert(s == enc_date(d) + r7);
                                                                },
                                                            }
                                                        },
                                                    }
                                                },
                                            }
                                        },
                                    }
                                },
                            }
                        },
                    }
                },
            }
        },
    }
}

/// Whatever the highlight parser accepts was a highlight's encoding.
#[verifier::rlimit(100)]
pub proof fn lemma_p_highlight_sound(s: Seq<char>)
    ensures
        p_highlight(s) matches Some((h, r)) ==> s == enc_highlight(h) + r,
{
    match p_highlight(s) {
        None => {},
        Some((h, rr)) => {
            let l1 = ("{\"page_number\":")@;
            let l2 = (",\"line_number\":")@;
            let l3 = (",\"start_pos\":")@;
            let l4 = (",\"length\":")@;
            let l5 = (",\"color\":")@;
            let l6 = ("}")@;
            lemma_p_lit_sound(l1, s);
            if p_lit(l1, s) is Some {
                let r1 = p_lit(l1, s).unwrap();
                lemma_p_u16_sound(r1);
                if p_u16(r1) is Some {
                    let (page_number, r2) = p_u16(r1).unwrap();
                    lemma_p_lit_sound(l2, r2);
                    if p_lit(l2, r2) is Some {
                        let r3 = p_lit(l2, r2).unwrap();
                        lemma_p_u16_sound(r3);
                        if p_u16(r3) is Some {
                            let (line_number, r4) = p_u16(r3).unwrap();
                            lemma_p_lit_sound(l3, r4);
                            if p_lit(l3, r4) is Some {
                                let r5 = p_lit(l3, r4).unwrap();
                                lemma_p_u16_sound(r5);
                                if p_u16(r5) is Some {
                                    let (start_pos, r6) = p_u16(r5).unwrap();
                                    lemma_p_lit_sound(l4, r6);
                                    if p_lit(l4, r6) is Some {
                                        let r7 = p_lit(l4, r6).unwrap();
                                        lemma_p_u16_sound(r7);
                                        if p_u16(r7) is Some {
                                            let (length, r8) = p_u16(r7).unwrap();
                                            lemma_p_lit_sound(l5, r8);
                                            if p_lit(l5, r8) is Some {
                                                let r9 = p_lit(l5, r8).unwrap();
                                                lemma_p_color_sound(r9);
                                                if p_color(r9) is Some {
                                                    let (color, r10) = p_color(r9).unwrap();
                                                    lemma_p_lit_sound(l6, r10);
                                                    if p_lit(l6, r10) is Some {
                                                        let r11 = p_lit(l6, r10).unwrap();
                                                        let e1 = enc_nat(page_number as nat);
                                                        let e2 = enc_nat(line_number as nat);
                                                        let e3 = enc_nat(start_pos as nat);
                                                        let e4 = enc_nat(length as nat);
                                                        let e5 = enc_color(color);
                                                        lemma_concat_associative(
                                                            l1,
                                                            e1,
                                                            l2 + (e2 + (l3 + (e3 + (l4 + (e4 + (l5
                                                                + (e5 + (l6 + r11)))))))),
                                                        );
                                                        lemma_concat_associative(
                                                            l1 + e1,
                                                            l2,
                                                            e2 + (l3 + (e3 + (l4 + (e4 + (l5 + (e5
                                                                + (l6 + r11))))))),
                                                        );
                                                        lemma_concat_associative(
                                                            l1 + e1 + l2,
                                                            e2,
                                                            l3 + (e3 + (l4 + (e4 + (l5 + (e5 + (l6
                                                                + r11)))))),
                                                        );
                                                        lemma_concat_associative(
                                                            l1 + e1 + l2 + e2,
                                                            l3,
                                                            e3 + (l4 + (e4 + (l5 + (e5 + (l6
                                                                + r11))))),
                                                        );
                                                        lemma_concat_associative(
                                                            l1 + e1 + l2 + e2 + l3,
                                                            e3,
                                                            l4 + (e4 + (l5 + (e5 + (l6 + r11)))),
                                                        );
                                                        lemma_concat_associative(
                                                            l1 + e1 + l2 + e2 + l3 + e3,
                                                            l4,
                                                            e4 + (l5 + (e5 + (l6 + r11))),
                                                        );
                                                        lemma_concat_associative(
                                                            l1 + e1 + l2 + e2 + l3 + e3 + l4,
                                                            e4,
                                                            l5 + (e5 + (l6 + r11)),
                                                        );
                                                        lemma_concat_associative(
                                                            l1 + e1 + l2 + e2 + l3 + e3 + l4 + e4,
                                                            l5,
                                                            e5 + (l6 + r11),
                                                        );
                                                        lemma_concat_associative(
                                                            l1 + e1 + l2 + e2 + l3 + e3 + l4 + e4
                                                                + l5,
                                                            e5,
                                                            l6 + r11,
                                                        );
                                                        lemma_concat_associative(
                                                            l1 + e1 + l2 + e2 + l3 + e3 + l4 + e4
                                                                + l5 + e5,
                                                            l6,
                                                            r11,
                                                        );
                                                        assert(s == enc_highlight(h) + r11);
                                                    }
                                                }
                                            }
                                        }
                                    }
                                }
                            }
                        }
                    }
                }
            }
        },
    }
}

/// Whatever the highlight-items parser accepts was the items' encoding, and
/// at least one item came out.
proof fn lemma_p_hl_items_sound(s: Seq<char>)
    ensures
        p_hl_items(s) matches Some((v, r)) ==> v.len() >= 1 && s == enc_hl_items(v) + r,
    decreases s.len(),
{
    match p_hl_items(s) {
        None => {},
        Some((v, r)) => {
            lemma_p_highlight_sound(s);
            match p_highlight(s) {
                None => {},
                Some((h, r1)) => {
                    if r1.len() >= s.len() {
                    } else if r1.len() > 0 && r1[0] == ',' {
                        lemma_p_hl_items_sound(r1.drop_first());
                        match p_hl_items(r1.drop_first()) {
                            None => {},
                            Some((items, r2)) => {
                                assert(v == seq![h] + items && r == r2);
                                assert(v[0] == h);
                                assert(v.drop_first() =~= items);
                                assert(v.len() >= 2);
                                assert(r1 =~= seq![','] + r1.drop_first());
                                assert(enc_hl_items(v) == enc_highlight(h) + seq![',']
                                    + enc_hl_items(items));
                                lemma_concat_associative(
                                    enc_highlight(h),
                                    seq![','],
                                    enc_hl_items(items) + r2,
                                );
                                lemma_concat_associative(
                                    enc_highlight(h) + seq![','],
                                    enc_hl_items(items),
                                    r2,
                                );
                                assert(s == enc_hl_items(v) + r2);
                            },
                        }
                    } else if r1.len() > 0 && r1[0] == ']' {
                        assert(v == seq![h] && r == r1.drop_first());
                        assert(r1 =~= seq![']'] + r1.drop_first());
                        assert(enc_hl_items(v) == enc_highlight(v[0]) + seq![']']);
                        assert(v[0] == h);
                        lemma_concat_associative(enc_highlight(h), seq![']'], r1.drop_first());
                        assert(s == enc_hl_items(v) + r);
                    }
                },
            }
        },
    }
}

/// Whatever the highlight-list parser accepts was a list's encoding.
pub proof fn lemma_p_highlights_sound(s: Seq<char>)
    ensures
        p_highlights(s) matches Some((v, r)) ==> s == enc_highlights(v) + r,
{
    lemma_p_lit_sound(("[]")@, s);
    match p_highlights(s) {
        None => {},
        Some((v, r)) => {
            match p_lit(("[]")@, s) {
                Some(rr) => {
                    assert(v =~= Seq::<TextHighlight>::empty());
                },
                None => {
                    lemma_p_hl_items_sound(s.drop_first());
                    assert(s.drop_first() == enc_hl_items(v) + r);
                    assert(v.len() >= 1);
                    assert(s =~= seq!['['] + s.drop_first());
                    lemma_concat_associative(seq!['['], enc_hl_items(v), r);
                    assert(s == enc_highlights(v) + r);
                },
            }
        },
    }
}

/// Whatever the counters parser accepts was exactly `k` counters' encoding.
proof fn lemma_p_u8_items_sound(s: Seq<char>, k: nat)
    ensures
        p_u8_items(s, k) matches Some((v, r)) ==> v.len() == k && s == enc_u8_items(v) + r,
    decreases k,
{
    reveal_strlit("]");
    reveal_strlit(",");
    match p_u8_items(s, k) {
        None => {},
        Some((v, r)) => {
            lemma_p_u8_sound(s);
            match p_u8(s) {
                None => {},
                Some((x, r1)) => {
                    if k == 1 {
                        lemma_p_lit_sound(("]")@, r1);
                        match p_lit(("]")@, r1) {
                            None => {},
                            Some(r2) => {
                                assert(v == seq![x] && r == r2);
                                assert(("]")@ =~= seq![']']);
                                assert(enc_u8_items(v) == enc_nat(v[0] as nat) + seq![']']);
                                assert(v[0] == x);
                                lemma_concat_associative(enc_nat(x as nat), seq![']'], r2);
                                assert(s == enc_u8_items(v) + r);
                            },
                        }
                    } else {
                        lemma_p_lit_sound((",")@, r1);
                        match p_lit((",")@, r1) {
                            None => {},
                            Some(r2) => {
                                lemma_p_u8_items_sound(r2, (k - 1) as nat);
                                match p_u8_items(r2, (k - 1) as nat) {
                                    None => {},
                                    Some((vs, r3)) => {
                                        assert(v == seq![x] + vs && r == r3);
                                        assert(v[0] == x);
                                        assert(v.drop_first() =~= vs);
                                        assert(v.len() == k);
                                        assert(v.len() >= 2);
                                        assert((",")@ =~= seq![',']);
                                        assert(enc_u8_items(v) == enc_nat(v[0] as nat) + seq![',']
                                            + enc_u8_items(vs));
                                        lemma_concat_associative(
                                            enc_nat(x as nat),
                                            seq![','],
                                            enc_u8_items(vs) + r3,
                                        );
                                        lemma_concat_associative(
                                            enc_nat(x as nat) + seq![','],
                                            enc_u8_items(vs),
                                            r3,
                                        );
                                        assert(s == enc_u8_items(v) + r);
                                    },
                                }
                            },
                        }
                    }
                },
            }
        },
    }
}

/// Whatever the week parser accepts was seven counters' encoding.
pub proof fn lemma_p_week_sound(s: Seq<char>)
    ensures
        p_week(s) matches Some((v, r)) ==> v.len() == 7 && s == enc_week(v) + r,
{
    match p_week(s) {
        None => {},
        Some((v, r)) => {
            lemma_p_u8_items_sound(s.drop_first(), 7);
            assert(s.drop_first() == enc_u8_items(v) + r);
            assert(s =~= seq!['['] + s.drop_first());
            lemma_concat_associative(seq!['['], enc_u8_items(v), r);
            assert(s == enc_week(v) + r);
        },
    }
}

/// Whatever the second half of the book parser accepts was the second half of
/// the record's encoding, and the record's leading fields are the given ones.
#[verifier::rlimit(100)]
proof fn lemma_p_book_tail_sound(
    id: Seq<char>,
    name: Seq<char>,
    description: Seq<char>,
    current_page: u16,
    page_count: u64,
    score: Option<u32>,
    s: Seq<char>,
)
    ensures
        p_book_tail(id, name, description, current_page, page_count, score, s) matches Some(
            (b, r),
        ) ==> {
            &&& s == enc_book_tail(b) + r
            &&& b.id == id
            &&& b.name == name
            &&& b.description == description
            &&& b.current_page == current_page
            &&& b.page_count == page_count
            &&& b.score == score
        },
{
    reveal(p_book_tail);
    match p_book_tail(id, name, description, current_page, page_count, score, s) {
        None => {},
        Some((b, rr)) => {
            let l1 = (",\"is_favorite\":")@;
            let l2 = (",\"is_open\":")@;
            let l3 = (",\"time_spent\":")@;
            let l4 = (",\"completed_at\":")@;
            let l5 = (",\"last_time_opened\":")@;
            let l6 = (",\"text_highlights\":")@;
            let l7 = (",\"file_size\":")@;
            let l8 = (",\"book_path\":")@;
            let l9 = (",\"thumbnail_path\":")@;
            let l10 = ("}")@;
            lemma_p_lit_sound(l1, s);
            assert(p_lit(l1, s) is Some);
            let r1 = p_lit(l1, s).unwrap();
            lemma_p_bool_sound(r1);
            assert(p_bool(r1) is Some);
            let (is_favorite, r2) = p_bool(r1).unwrap();
            lemma_p_lit_sound(l2, r2);
            assert(p_lit(l2, r2) is Some);
            let r3 = p_lit(l2, r2).unwrap();
            lemma_p_bool_sound(r3);
            assert(p_bool(r3) is Some);
            let (is_open, r4) = p_bool(r3).unwrap();
            lemma_p_lit_sound(l3, r4);
            assert(p_lit(l3, r4) is Some);
            let r5 = p_lit(l3, r4).unwrap();
            lemma_p_timespan_sound(r5);
            assert(p_timespan(r5) is Some);
            let (time_spent, r6) = p_timespan(r5).unwrap();
            lemma_p_lit_sound(l4, r6);
            assert(p_lit(l4, r6) is Some);
            let r7 = p_lit(l4, r6).unwrap();
            lemma_p_opt_timestamp_sound(r7);
            assert(p_opt_timestamp(r7) is Some);
            let (completed_at, r8) = p_opt_timestamp(r7).unwrap();
            lemma_p_lit_sound(l5, r8);
            assert(p_lit(l5, r8) is Some);
            let r9 = p_lit(l5, r8).unwrap();
            lemma_p_opt_timestamp_sound(r9);
            assert(p_opt_timestamp(r9) is Some);
            let (last_time_opened, r10) = p_opt_timestamp(r9).unwrap();
            lemma_p_lit_sound(l6, r10);
            assert(p_lit(l6, r10) is Some);
            let r11 = p_lit(l6, r10).unwrap();
            lemma_p_highlights_sound(r11);
            assert(p_highlights(r11) is Some);
            let (text_highlights, r12) = p_highlights(r11).unwrap();
            lemma_p_lit_sound(l7, r12);
            assert(p_lit(l7, r12) is Some);
            let r13 = p_lit(l7, r12).unwrap();
            lemma_p_u64_sound(r13);
            assert(p_u64(r13) is Some);
            let (file_size, r14) = p_u64(r13).unwrap();
            lemma_p_lit_sound(l8, r14);
            assert(p_lit(l8, r14) is Some);
            let r15 = p_lit(l8, r14).unwrap();
            lemma_p_str_sound(r15);
            assert(p_str(r15) is Some);
            let (book_path, r16) = p_str(r15).unwrap();
            lemma_p_lit_sound(l9, r16);
            assert(p_lit(l9, r16) is Some);
            let r17 = p_lit(l9, r16).unwrap();
            lemma_p_str_sound(r17);
            assert(p_str(r17) is Some);
            let (thumbnail_path, r18) = p_str(r17).unwrap();
            lemma_p_lit_sound(l10, r18);
            assert(p_lit(l10, r18) is Some);
            let r19 = p_lit(l10, r18).unwrap();
            let e1 = enc_bool(is_favorite);
            let e2 = enc_bool(is_open);
            let e3 = enc_timespan(time_spent);
            let e4 = enc_opt_timestamp(completed_at);
            let e5 = enc_opt_timestamp(last_time_opened);
            let e6 = enc_highlights(text_highlights);
            let e7 = enc_nat(file_size as nat);
            let e8 = enc_str(book_path);
            let e9 = enc_str(thumbnail_path);
            assert(s == l1 + r1);
            lemma_concat_associative(l1, e1, r2);
            assert(s == l1 + e1 + r2);
            lemma_concat_associative(l1 + e1, l2, r3);
            assert(s == l1 + e1 + l2 + r3);
            lemma_concat_associative(l1 + e1 + l2, e2, r4);
            assert(s == l1 + e1 + l2 + e2 + r4);
            lemma_concat_associative(l1 + e1 + l2 + e2, l3, r5);
            assert(s == l1 + e1 + l2 + e2 + l3 + r5);
            lemma_concat_associative(l1 + e1 + l2 + e2 + l3, e3, r6);
            assert(s == l1 + e1 + l2 + e2 + l3 + e3 + r6);
            lemma_concat_associative(l1 + e1 + l2 + e2 + l3 + e3, l4, r7);
            assert(s == l1 + e1 + l2 + e2 + l3 + e3 + l4 + r7);
            lemma_concat_associative(l1 + e1 + l2 + e2 + l3 + e3 + l4, e4, r8);
            assert(s == l1 + e1 + l2 + e2 + l3 + e3 + l4 + e4 + r8);
            lemma_concat_associative(l1 + e1 + l2 + e2 + l3 + e3 + l4 + e4, l5, r9);
            assert(s == l1 + e1 + l2 + e2 + l3 + e3 + l4 + e4 + l5 + r9);
            lemma_concat_associative(l1 + e1 + l2 + e2 + l3 + e3 + l4 + e4 + l5, e5, r10);
            assert(s == l1 + e1 + l2 + e2 + l3 + e3 + l4 + e4 + l5 + e5 + r10);
            lemma_concat_associative(l1 + e1 + l2 + e2 + l3 + e3 + l4 + e4 + l5 + e5, l6, r11);
            assert(s == l1 + e1 + l2 + e2 + l3 + e3 + l4 + e4 + l5 + e5 + l6 + r11);
            lemma_concat_associative(l1 + e1 + l2 + e2 + l3 + e3 + l4 + e4 + l5 + e5 + l6, e6, r12);
            assert(s == l1 + e1 + l2 + e2 + l3 + e3 + l4 + e4 + l5 + e5 + l6 + e6 + r12);
            lemma_concat_associative(l1 + e1 + l2 + e2 + l3 + e3 + l4 + e4 + l5 + e5 + l6 + e6, l7, r13);
            assert(s == l1 + e1 + l2 + e2 + l3 + e3 + l4 + e4 + l5 + e5 + l6 + e6 + l7 + r13);
            lemma_concat_associative(l1 + e1 + l2 + e2 + l3 + e3 + l4 + e4 + l5 + e5 + l6 + e6 + l7, e7, r14);
            assert(s == l1 + e1 + l2 + e2 + l3 + e3 + l4 + e4 + l5 + e5 + l6 + e6 + l7 + e7 + r14);
            lemma_concat_associative(l1 + e1 + l2 + e2 + l3 + e3 + l4 + e4 + l5 + e5 + l6 + e6 + l7 + e7, l8, r15);
            assert(s == l1 + e1 + l2 + e2 + l3 + e3 + l4 + e4 + l5 + e5 + l6 + e6 + l7 + e7 + l8 + r15);
            lemma_concat_associative(l1 + e1 + l2 + e2 + l3 + e3 + l4 + e4 + l5 + e5 + l6 + e6 + l7 + e7 + l8, e8, r16);
            assert(s == l1 + e1 + l2 + e2 + l3 + e3 + l4 + e4 + l5 + e5 + l6 + e6 + l7 + e7 + l8 + e8 + r16);
            lemma_concat_associative(l1 + e1 + l2 + e2 + l3 + e3 + l4 + e4 + l5 + e5 + l6 + e6 + l7 + e7 + l8 + e8, l9, r17);
            assert(s == l1 + e1 + l2 + e2 + l3 + e3 + l4 + e4 + l5 + e5 + l6 + e6 + l7 + e7 + l8 + e8 + l9 + r17);
            lemma_concat_associative(l1 + e1 + l2 + e2 + l3 + e3 + l4 + e4 + l5 + e5 + l6 + e6 + l7 + e7 + l8 + e8 + l9, e9, r18);
            assert(s == l1 + e1 + l2 + e2 + l3 + e3 + l4 + e4 + l5 + e5 + l6 + e6 + l7 + e7 + l8 + e8 + l9 + e9 + r18);
            lemma_concat_associative(l1 + e1 + l2 + e2 + l3 + e3 + l4 + e4 + l5 + e5 + l6 + e6 + l7 + e7 + l8 + e8 + l9 + e9, l10, r19);
            assert(s == l1 + e1 + l2 + e2 + l3 + e3 + l4 + e4 + l5 + e5 + l6 + e6 + l7 + e7 + l8 + e8 + l9 + e9 + l10 + r19);
            assert(enc_book_tail(b) == l1 + e1 + l2 + e2 + l3 + e3 + l4 + e4 + l5 + e5 + l6 + e6 + l7 + e7 + l8 + e8 + l9 + e9 + l10);
            assert(s == enc_book_tail(b) + r19);
        },
    }
}

/// Whatever the book parser accepts was a record's encoding.
#[verifier::rlimit(100)]
pub proof fn lemma_p_book_sound(s: Seq<char>)
    ensures
        p_book(s) matches Some((b, r)) ==> s == enc_book(b) + r,
{
    reveal(p_book);
    match p_book(s) {
        None => {},
        Some((b, rr)) => {
            let l1 = ("{\"id\":")@;
            let l2 = (",\"name\":")@;
            let l3 = (",\"description\":")@;
            let l4 = (",\"current_page\":")@;
            let l5 = (",\"page_count\":")@;
            let l6 = (",\"score\":")@;
            lemma_p_lit_sound(l1, s);
            assert(p_lit(l1, s) is Some);
            let r1 = p_lit(l1, s).unwrap();
            lemma_p_str_sound(r1);
            assert(p_str(r1) is Some);
            let (id, r2) = p_str(r1).unwrap();
            lemma_p_lit_sound(l2, r2);
            assert(p_lit(l2, r2) is Some);
            let r3 = p_lit(l2, r2).unwrap();
            lemma_p_str_sound(r3);
            assert(p_str(r3) is Some);
            let (name, r4) = p_str(r3).unwrap();
            lemma_p_lit_sound(l3, r4);
            assert(p_lit(l3, r4) is Some);
            let r5 = p_lit(l3, r4).unwrap();
            lemma_p_str_sound(r5);
            assert(p_str(r5) is Some);
            let (description, r6) = p_str(r5).unwrap();
            lemma_p_lit_sound(l4, r6);
            assert(p_lit(l4, r6) is Some);
            let r7 = p_lit(l4, r6).unwrap();
            lemma_p_u16_sound(r7);
            assert(p_u16(r7) is Some);
            let (current_page, r8) = p_u16(r7).unwrap();
            lemma_p_lit_sound(l5, r8);
            assert(p_lit(l5, r8) is Some);
            let r9 = p_lit(l5, r8).unwrap();
            lemma_p_u64_sound(r9);
            assert(p_u64(r9) is Some);
            let (page_count, r10) = p_u64(r9).unwrap();
            lemma_p_lit_sound(l6, r10);
            assert(p_lit(l6, r10) is Some);
            let r11 = p_lit(l6, r10).unwrap();
            lemma_p_opt_u32_sound(r11);
            assert(p_opt_u32(r11) is Some);
            let (score, r12) = p_opt_u32(r11).unwrap();
            lemma_p_book_tail_sound(id, name, description, current_page, page_count, score, r12);
            assert(p_book_tail(id, name, description, current_page, page_count, score, r12)
                is Some);
            let r13 = p_book_tail(
                id,
                name,
                description,
                current_page,
                page_count,
                score,
                r12,
            ).unwrap().1;
            let e1 = enc_str(id);
            let e2 = enc_str(name);
            let e3 = enc_str(description);
            let e4 = enc_nat(current_page as nat);
            let e5 = enc_nat(page_count as nat);
            let e6 = enc_opt_u32(score);
            let t = enc_book_tail(b);
            assert(r12 == t + r13);
            assert(s == l1 + r1);
            lemma_concat_associative(l1, e1, r2);
            assert(s == l1 + e1 + r2);
            lemma_concat_associative(l1 + e1, l2, r3);
            assert(s == l1 + e1 + l2 + r3);
            lemma_concat_associative(l1 + e1 + l2, e2, r4);
            assert(s == l1 + e1 + l2 + e2 + r4);
            lemma_concat_associative(l1 + e1 + l2 + e2, l3, r5);
            assert(s == l1 + e1 + l2 + e2 + l3 + r5);
            lemma_concat_associative(l1 + e1 + l2 + e2 + l3, e3, r6);
            assert(s == l1 + e1 + l2 + e2 + l3 + e3 + r6);
            lemma_concat_associative(l1 + e1 + l2 + e2 + l3 + e3, l4, r7);
            assert(s == l1 + e1 + l2 + e2 + l3 + e3 + l4 + r7);
            lemma_concat_associative(l1 + e1 + l2 + e2 + l3 + e3 + l4, e4, r8);
            assert(s == l1 + e1 + l2 + e2 + l3 + e3 + l4 + e4 + r8);
            lemma_concat_associative(l1 + e1 + l2 + e2 + l3 + e3 + l4 + e4, l5, r9);
            assert(s == l1 + e1 + l2 + e2 + l3 + e3 + l4 + e4 + l5 + r9);
            lemma_concat_associative(l1 + e1 + l2 + e2 + l3 + e3 + l4 + e4 + l5, e5, r10);
            assert(s == l1 + e1 + l2 + e2 + l3 + e3 + l4 + e4 + l5 + e5 + r10);
            lemma_concat_associative(l1 + e1 + l2 + e2 + l3 + e3 + l4 + e4 + l5 + e5, l6, r11);
            assert(s == l1 + e1 + l2 + e2 + l3 + e3 + l4 + e4 + l5 + e5 + l6 + r11);
            lemma_concat_associative(l1 + e1 + l2 + e2 + l3 + e3 + l4 + e4 + l5 + e5 + l6, e6, r12);
            assert(s == l1 + e1 + l2 + e2 + l3 + e3 + l4 + e4 + l5 + e5 + l6 + e6 + r12);
            lemma_concat_associative(l1 + e1 + l2 + e2 + l3 + e3 + l4 + e4 + l5 + e5 + l6 + e6, t, r13);
            assert(s == l1 + e1 + l2 + e2 + l3 + e3 + l4 + e4 + l5 + e5 + l6 + e6 + t + r13);
            assert(enc_book(b) == l1 + e1 + l2 + e2 + l3 + e3 + l4 + e4 + l5 + e5 + l6 + e6 + t);
            assert(s == enc_book(b) + r13);
        },
    }
}

/// Whatever the book-items parser accepts was the items' encoding, and at
/// least one record came out.
proof fn lemma_p_book_items_sound(s: Seq<char>)
    ensures
        p_book_items(s) matches Some((v, r)) ==> v.len() >= 1 && s == enc_book_items(v) + r,
    decreases s.len(),
{
    match p_book_items(s) {
        None => {},
        Some((v, r)) => {
            lemma_p_book_sound(s);
            match p_book(s) {
                None => {},
                Some((b, r1)) => {
                    if r1.len() >= s.len() {
                    } else if r1.len() > 0 && r1[0] == ',' {
                        lemma_p_book_items_sound(r1.drop_first());
                        match p_book_items(r1.drop_first()) {
                            None => {},
                            Some((items, r2)) => {
                                assert(v == seq![b] + items && r == r2);
                                assert(v[0] == b);
                                assert(v.drop_first() =~= items);
                                assert(v.len() >= 2);
                                assert(r1 =~= seq![','] + r1.drop_first());
                                assert(enc_book_items(v) == enc_book(b) + seq![',']
                                    + enc_book_items(items));
                                lemma_concat_associative(
                                    enc_book(b),
                                    seq![','],
                                    enc_book_items(items) + r2,
                                );
                                lemma_concat_associative(
                                    enc_book(b) + seq![','],
                                    enc_book_items(items),
                                    r2,
                                );
                                assert(s == enc_book_items(v) + r2);
                            },
                        }
                    } else if r1.len() > 0 && r1[0] == ']' {
                        assert(v == seq![b] && r == r1.drop_first());
                        assert(r1 =~= seq![']'] + r1.drop_first());
                        assert(enc_book_items(v) == enc_book(v[0]) + seq![']']);
                        assert(v[0] == b);
                        lemma_concat_associative(enc_book(b), seq![']'], r1.drop_first());
                        assert(s == enc_book_items(v) + r);
                    }
                },
            }
        },
    }
}

/// Whatever the book-list parser accepts was a list's encoding.
pub proof fn lemma_p_books_sound(s: Seq<char>)
    ensures
        p_books(s) matches Some((v, r)) ==> s == enc_books(v) + r,
{
    lemma_p_lit_sound(("[]")@, s);
    match p_books(s) {
        None => {},
        Some((v, r)) => {
            match p_lit(("[]")@, s) {
                Some(rr) => {
                    assert(v =~= Seq::<BookAbs>::empty());
                },
                None => {
                    lemma_p_book_items_sound(s.drop_first());
                    assert(s.drop_first() == enc_book_items(v) + r);
                    assert(v.len() >= 1);
                    assert(s =~= seq!['['] + s.drop_first());
                    lemma_concat_associative(seq!['['], enc_book_items(v), r);
                    assert(s == enc_books(v) + r);
                },
            }
        },
    }
}

/// Whatever the catalog parser accepts was a catalog's encoding, with the
/// seven weekly slots the format requires.
#[verifier::rlimit(100)]
pub proof fn lemma_p_catalog_sound(s: Seq<char>)
    ensures
        p_catalog(s) matches Some((c, r)) ==> s == enc_catalog(c) + r
            && c.hours_read_this_week.len() == 7,
{
    match p_catalog(s) {
        None => {},
        Some((c, rr)) => {
            let l1 = ("{\"theme\":")@;
            let l2 = (",\"hours_read_this_week\":")@;
            let l3 = (",\"average_hours_this_month\":")@;
            let l4 = (",\"most_active_day\":")@;
            let l5 = (",\"books\":")@;
            let l6 = ("}")@;
            lemma_p_lit_sound(l1, s);
            assert(p_lit(l1, s) is Some);
            let r1 = p_lit(l1, s).unwrap();
            lemma_p_str_sound(r1);
            assert(p_str(r1) is Some);
            let (theme, r2) = p_str(r1).unwrap();
            lemma_p_lit_sound(l2, r2);
            assert(p_lit(l2, r2) is Some);
            let r3 = p_lit(l2, r2).unwrap();
            lemma_p_week_sound(r3);
            assert(p_week(r3) is Some);
            let (week, r4) = p_week(r3).unwrap();
            lemma_p_lit_sound(l3, r4);
            assert(p_lit(l3, r4) is Some);
            let r5 = p_lit(l3, r4).unwrap();
            lemma_p_u16_sound(r5);
            assert(p_u16(r5) is Some);
            let (avg, r6) = p_u16(r5).unwrap();
            lemma_p_lit_sound(l4, r6);
            assert(p_lit(l4, r6) is Some);
            let r7 = p_lit(l4, r6).unwrap();
            lemma_p_date_sound(r7);
            assert(p_date(r7) is Some);
            let (day, r8) = p_date(r7).unwrap();
            lemma_p_lit_sound(l5, r8);
            assert(p_lit(l5, r8) is Some);
            let r9 = p_lit(l5, r8).unwrap();
            lemma_p_books_sound(r9);
            assert(p_books(r9) is Some);
            let (books, r10) = p_books(r9).unwrap();
            lemma_p_lit_sound(l6, r10);
            assert(p_lit(l6, r10) is Some);
            let r11 = p_lit(l6, r10).unwrap();
            let e1 = enc_str(theme);
            let e2 = enc_week(week);
            let e3 = enc_nat(avg as nat);
            let e4 = enc_date(day);
            let e5 = enc_books(books);
            assert(s == l1 + r1);
            lemma_concat_associative(l1, e1, r2);
            assert(s == l1 + e1 + r2);
            lemma_concat_associative(l1 + e1, l2, r3);
            assert(s == l1 + e1 + l2 + r3);
            lemma_concat_associative(l1 + e1 + l2, e2, r4);
            assert(s == l1 + e1 + l2 + e2 + r4);
            lemma_concat_associative(l1 + e1 + l2 + e2, l3, r5);
            assert(s == l1 + e1 + l2 + e2 + l3 + r5);
            lemma_concat_associative(l1 + e1 + l2 + e2 + l3, e3, r6);
            assert(s == l1 + e1 + l2 + e2 + l3 + e3 + r6);
            lemma_concat_associative(l1 + e1 + l2 + e2 + l3 + e3, l4, r7);
            assert(s == l1 + e1 + l2 + e2 + l3 + e3 + l4 + r7);
            lemma_concat_associative(l1 + e1 + l2 + e2 + l3 + e3 + l4, e4, r8);
            assert(s == l1 + e1 + l2 + e2 + l3 + e3 + l4 + e4 + r8);
            lemma_concat_associative(l1 + e1 + l2 + e2 + l3 + e3 + l4 + e4, l5, r9);
            assert(s == l1 + e1 + l2 + e2 + l3 + e3 + l4 + e4 + l5 + r9);
            lemma_concat_associative(l1 + e1 + l2 + e2 + l3 + e3 + l4 + e4 + l5, e5, r10);
            assert(s == l1 + e1 + l2 + e2 + l3 + e3 + l4 + e4 + l5 + e5 + r10);
            lemma_concat_associative(l1 + e1 + l2 + e2 + l3 + e3 + l4 + e4 + l5 + e5, l6, r11);
            assert(s == l1 + e1 + l2 + e2 + l3 + e3 + l4 + e4 + l5 + e5 + l6 + r11);
            assert(enc_catalog(c) == l1 + e1 + l2 + e2 + l3 + e3 + l4 + e4 + l5 + e5 + l6);
            assert(s == enc_catalog(c) + r11);
        },
    }
}

/// The persisted format is exact: a character sequence either is the document
/// of the one catalog the parser returns, or it is the document of no catalog
/// at all.
pub proof fn lemma_format_exact(s: Seq<char>)
    ensures
        match p_catalog(s) {
            Some((c, rest)) => s == enc_catalog(c) + rest && c.hours_read_this_week.len() == 7,
            None => forall|c: CatalogAbs, rest: Seq<char>|
                c.hours_read_this_week.len() == 7 ==> s != #[trigger] (enc_catalog(c) + rest),
        },
{
    lemma_p_catalog_sound(s);
    match p_catalog(s) {
        Some(_) => {},
        None => {
            assert forall|c: CatalogAbs, rest: Seq<char>|
                c.hours_read_this_week.len() == 7 implies s != #[trigger] (enc_catalog(c)
                + rest) by {
                if s == enc_catalog(c) + rest {
                    lemma_p_catalog_enc(c, rest);
                }
            }
        },
    }
}

} // verus!
