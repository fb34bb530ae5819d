//! The persisted catalog format, stated mathematically: for every part of the
//! catalog an encoding function from values to character sequences, and a
//! parsing function back.  The format is a single JSON document with fixed
//! field names and no insignificant whitespace.
use vstd::prelude::*;

use crate::catalog::CatalogAbs;
use crate::model::BookAbs;
use crate::model::Date;
use crate::model::TextHighlight;
use crate::model::TextHighlightColor;
use crate::model::TimeSpan;
use crate::model::Timestamp;

verus! {

// ---------------------------------------------------------------------------
// Characters
// ---------------------------------------------------------------------------
pub open spec fn is_digit(c: char) -> bool {
    48 <= c as u32 <= 57
}

pub open spec fn digit_val(c: char) -> nat {
    (c as u32 - 48) as nat
}

pub open spec fn digit_char(d: nat) -> char {
    ((48 + d) as u8) as char
}

/// A lowercase hexadecimal digit.
pub open spec fn is_lhex(c: char) -> bool {
    is_digit(c) || 97 <= c as u32 <= 102
}

pub open spec fn lhex_val(c: char) -> nat {
    if is_digit(c) {
        digit_val(c)
    } else {
        (c as u32 - 87) as nat
    }
}

pub open spec fn lhex_char(d: nat) -> char {
    if d < 10 {
        digit_char(d)
    } else {
        ((87 + d) as u8) as char
    }
}

// ---------------------------------------------------------------------------
// Encoding
// ---------------------------------------------------------------------------
/// A natural number in decimal, most significant digit first, no leading zero.
pub open spec fn enc_nat(n: nat) -> Seq<char>
    decreases n,
{
    if n < 10 {
        seq![digit_char(n)]
    } else {
        enc_nat(n / 10) + seq![digit_char(n % 10)]
    }
}

/// A signed year: a minus sign before the magnitude when negative.
pub open spec fn enc_i32(y: i32) -> Seq<char> {
    if y >= 0 {
        enc_nat(y as nat)
    } else {
        seq!['-'] + enc_nat((-(y as int)) as nat)
    }
}

/// One character of a JSON string body: quote and backslash are escaped,
/// control characters take the four-digit hexadecimal form.
pub open spec fn esc_char(c: char) -> Seq<char> {
    if c == '"' {
        seq!['\\', '"']
    } else if c == '\\' {
        seq!['\\', '\\']
    } else if (c as u32) < 32 {
        seq!['\\', 'u', '0', '0', lhex_char((c as u32 / 16) as nat), lhex_char(
            (c as u32 % 16) as nat,
        )]
    } else {
        seq![c]
    }
}

pub open spec fn esc_str(s: Seq<char>) -> Seq<char>
    decreases s.len(),
{
    if s.len() == 0 {
        Seq::empty()
    } else {
        esc_char(s[0]) + esc_str(s.drop_first())
    }
}

/// A JSON string: the escaped body between double quotes.
pub open spec fn enc_str(s: Seq<char>) -> Seq<char> {
    seq!['"'] + esc_str(s) + seq!['"']
}

pub open spec fn enc_bool(b: bool) -> Seq<char> {
    if b {
        ("true")@
    } else {
        ("false")@
    }
}

pub open spec fn enc_color(c: TextHighlightColor) -> Seq<char> {
    match c {
        TextHighlightColor::RED => ("\"RED\"")@,
        TextHighlightColor::BLUE => ("\"BLUE\"")@,
        TextHighlightColor::CYAN => ("\"CYAN\"")@,
        TextHighlightColor::GREEN => ("\"GREEN\"")@,
        TextHighlightColor::GRAY => ("\"GRAY\"")@,
        TextHighlightColor::PINK => ("\"PINK\"")@,
        TextHighlightColor::YELLOW => ("\"YELLOW\"")@,
        TextHighlightColor::PURPLE => ("\"PURPLE\"")@,
    }
}

pub open spec fn enc_opt_u32(v: Option<u32>) -> Seq<char> {
    match v {
        Some(n) => enc_nat(n as nat),
        None => ("null")@,
    }
}

pub open spec fn enc_timespan(t: TimeSpan) -> Seq<char> {
    ("{\"secs\":")@ + enc_nat(t.secs as nat) + (",\"nanos\":")@ + enc_nat(t.nanos as nat) + ("}")@
}

pub open spec fn enc_timestamp(t: Timestamp) -> Seq<char> {
    ("{\"secs_since_epoch\":")@ + enc_nat(t.secs as nat) + (",\"nanos_since_epoch\":")@ + enc_nat(
        t.nanos as nat,
    ) + ("}")@
}

pub open spec fn enc_opt_timestamp(v: Option<Timestamp>) -> Seq<char> {
    match v {
        Some(t) => enc_timestamp(t),
        None => ("null")@,
    }
}

pub open spec fn enc_date(d: Date) -> Seq<char> {
    ("{\"year\":")@ + enc_i32(d.year) + (",\"month\":")@ + enc_nat(d.month as nat) + (",\"day\":")@
        + enc_nat(d.day as nat) + ("}")@
}

pub open spec fn enc_highlight(h: TextHighlight) -> Seq<char> {
    ("{\"page_number\":")@ + enc_nat(h.page_number as nat) + (",\"line_number\":")@ + enc_nat(
        h.line_number as nat,
    ) + (",\"start_pos\":")@ + enc_nat(h.start_pos as nat) + (",\"length\":")@ + enc_nat(
        h.length as nat,
    ) + (",\"color\":")@ + enc_color(h.color) + ("}")@
}

/// The items of a non-empty list, commas between them, the closing bracket at
/// the end.
pub open spec fn enc_hl_items(v: Seq<TextHighlight>) -> Seq<char>
    decreases v.len(),
{
    if v.len() == 0 {
        Seq::empty()
    } else if v.len() == 1 {
        enc_highlight(v[0]) + seq![']']
    } else {
        enc_highlight(v[0]) + seq![','] + enc_hl_items(v.drop_first())
    }
}

pub open spec fn enc_highlights(v: Seq<TextHighlight>) -> Seq<char> {
    if v.len() == 0 {
        ("[]")@
    } else {
        seq!['['] + enc_hl_items(v)
    }
}

/// The weekly counters, one number per slot.
pub open spec fn enc_u8_items(v: Seq<u8>) -> Seq<char>
    decreases v.len(),
{
    if v.len() == 0 {
        Seq::empty()
    } else if v.len() == 1 {
        enc_nat(v[0] as nat) + seq![']']
    } else {
        enc_nat(v[0] as nat) + seq![','] + enc_u8_items(v.drop_first())
    }
}

pub open spec fn enc_week(v: Seq<u8>) -> Seq<char> {
    seq!['['] + enc_u8_items(v)
}

/// The second half of an encoded book record, from the favorite flag on.
pub open spec fn enc_book_tail(b: BookAbs) -> Seq<char> {
    (",\"is_favorite\":")@ + enc_bool(b.is_favorite) + (",\"is_open\":")@ + enc_bool(b.is_open) + (
    ",\"time_spent\":")@ + enc_timespan(b.time_spent) + (",\"completed_at\":")@
        + enc_opt_timestamp(b.completed_at) + (",\"last_time_opened\":")@ + enc_opt_timestamp(
        b.last_time_opened,
    ) + (",\"text_highlights\":")@ + enc_highlights(b.text_highlights) + (",\"file_size\":")@
        + enc_nat(b.file_size as nat) + (",\"book_path\":")@ + enc_str(b.book_path) + (
    ",\"thumbnail_path\":")@ + enc_str(b.thumbnail_path) + ("}")@
}

pub open spec fn enc_book(b: BookAbs) -> Seq<char> {
    ("{\"id\":")@ + enc_str(b.id) + (",\"name\":")@ + enc_str(b.name) + (",\"description\":")@
        + enc_str(b.description) + (",\"current_page\":")@ + enc_nat(b.current_page as nat) + (
    ",\"page_count\":")@ + enc_nat(b.page_count as nat) + (",\"score\":")@ + enc_opt_u32(b.score)
        + enc_book_tail(b)
}

pub open spec fn enc_book_items(v: Seq<BookAbs>) -> Seq<char>
    decreases v.len(),
{
    if v.len() == 0 {
        Seq::empty()
    } else if v.len() == 1 {
        enc_book(v[0]) + seq![']']
    } else {
        enc_book(v[0]) + seq![','] + enc_book_items(v.drop_first())
    }
}

pub open spec fn enc_books(v: Seq<BookAbs>) -> Seq<char> {
    if v.len() == 0 {
        ("[]")@
    } else {
        seq!['['] + enc_book_items(v)
    }
}

/// The whole persisted document.
pub open spec fn enc_catalog(c: CatalogAbs) -> Seq<char> {
    ("{\"theme\":")@ + enc_str(c.theme) + (",\"hours_read_this_week\":")@ + enc_week(
        c.hours_read_this_week,
    ) + (",\"average_hours_this_month\":")@ + enc_nat(c.average_hours_this_month as nat) + (
    ",\"most_active_day\":")@ + enc_date(c.most_active_day) + (",\"books\":")@ + enc_books(c.books)
        + ("}")@
}

// ---------------------------------------------------------------------------
// Parsing
// ---------------------------------------------------------------------------
/// Consumes an expected literal prefix.
pub open spec fn p_lit(l: Seq<char>, s: Seq<char>) -> Option<Seq<char>> {
    if l.is_prefix_of(s) {
        Some(s.skip(l.len() as int))
    } else {
        None
    }
}

/// Consumes digits greedily, accumulating their value.
pub open spec fn p_digits(s: Seq<char>, acc: nat) -> (nat, Seq<char>)
    decreases s.len(),
{
    if s.len() > 0 && is_digit(s[0]) {
        p_digits(s.drop_first(), acc * 10 + digit_val(s[0]))
    } else {
        (acc, s)
    }
}

/// A decimal number without a leading zero, within the 64-bit range.
pub open spec fn p_u64(s: Seq<char>) -> Option<(u64, Seq<char>)> {
    if s.len() == 0 || !is_digit(s[0]) {
        None
    } else if s[0] == '0' {
        Some((0, s.drop_first()))
    } else {
        let (v, rest) = p_digits(s, 0);
        if v <= u64::MAX {
            Some((v as u64, rest))
        } else {
            None
        }
    }
}

pub open spec fn p_u32(s: Seq<char>) -> Option<(u32, Seq<char>)> {
    match p_u64(s) {
        Some((v, rest)) => if v <= u32::MAX {
            Some((v as u32, rest))
        } else {
            None
        },
        None => None,
    }
}

pub open spec fn p_u16(s: Seq<char>) -> Option<(u16, Seq<char>)> {
    match p_u64(s) {
        Some((v, rest)) => if v <= u16::MAX {
            Some((v as u16, rest))
        } else {
            None
        },
        None => None,
    }
}

pub open spec fn p_u8(s: Seq<char>) -> Option<(u8, Seq<char>)> {
    match p_u64(s) {
        Some((v, rest)) => if v <= u8::MAX {
            Some((v as u8, rest))
        } else {
            None
        },
        None => None,
    }
}

/// A signed 32-bit number; a minus sign never precedes a zero.
pub open spec fn p_i32(s: Seq<char>) -> Option<(i32, Seq<char>)> {
    if s.len() > 0 && s[0] == '-' {
        match p_u64(s.drop_first()) {
            Some((v, rest)) => if 1 <= v <= 0x8000_0000 {
                Some(((-(v as int)) as i32, rest))
            } else {
                None
            },
            None => None,
        }
    } else {
        match p_u64(s) {
            Some((v, rest)) => if v <= 0x7fff_ffff {
                Some((v as i32, rest))
            } else {
                None
            },
            None => None,
        }
    }
}

/// The body of a JSON string up to and including the closing quote.  Only the
/// escape forms that the encoder produces are admitted.
pub open spec fn p_str_body(s: Seq<char>) -> Option<(Seq<char>, Seq<char>)>
    decreases s.len(),
{
    if s.len() == 0 {
        None
    } else if s[0] == '"' {
        Some((Seq::empty(), s.drop_first()))
    } else if s[0] == '\\' {
        if s.len() >= 2 && (s[1] == '"' || s[1] == '\\') {
            match p_str_body(s.skip(2)) {
                Some((body, rest)) => Some((seq![s[1]] + body, rest)),
                None => None,
            }
        } else if s.len() >= 6 && s[1] == 'u' && s[2] == '0' && s[3] == '0' && is_lhex(s[4])
            && is_lhex(s[5]) && lhex_val(s[4]) * 16 + lhex_val(s[5]) < 32 {
            match p_str_body(s.skip(6)) {
                Some((body, rest)) => Some(
                    (seq![(((lhex_val(s[4]) * 16 + lhex_val(s[5])) as u8) as char)] + body, rest),
                ),
                None => None,
            }
        } else {
            None
        }
    } else if (s[0] as u32) < 32 {
        None
    } else {
        match p_str_body(s.drop_first()) {
            Some((body, rest)) => Some((seq![s[0]] + body, rest)),
            None => None,
        }
    }
}

pub open spec fn p_str(s: Seq<char>) -> Option<(Seq<char>, Seq<char>)> {
    if s.len() > 0 && s[0] == '"' {
        p_str_body(s.drop_first())
    } else {
        None
    }
}

pub open spec fn p_bool(s: Seq<char>) -> Option<(bool, Seq<char>)> {
    match p_lit(("true")@, s) {
        Some(rest) => Some((true, rest)),
        None => match p_lit(("false")@, s) {
            Some(rest) => Some((false, rest)),
            None => None,
        },
    }
}

pub open spec fn p_color(s: Seq<char>) -> Option<(TextHighlightColor, Seq<char>)> {
    match p_lit(("\"RED\"")@, s) {
        Some(rest) => Some((TextHighlightColor::RED, rest)),
        None => match p_lit(("\"BLUE\"")@, s) {
            Some(rest) => Some((TextHighlightColor::BLUE, rest)),
            None => match p_lit(("\"CYAN\"")@, s) {
                Some(rest) => Some((TextHighlightColor::CYAN, rest)),
                None => match p_lit(("\"GREEN\"")@, s) {
                    Some(rest) => Some((TextHighlightColor::GREEN, rest)),
                    None => match p_lit(("\"GRAY\"")@, s) {
                        Some(rest) => Some((TextHighlightColor::GRAY, rest)),
                        None => match p_lit(("\"PINK\"")@, s) {
                            Some(rest) => Some((TextHighlightColor::PINK, rest)),
                            None => match p_lit(("\"YELLOW\"")@, s) {
                                Some(rest) => Some((TextHighlightColor::YELLOW, rest)),
                                None => match p_lit(("\"PURPLE\"")@, s) {
                                    Some(rest) => Some((TextHighlightColor::PURPLE, rest)),
                                    None => None,
                                },
                            },
                        },
                    },
                },
            },
        },
    }
}

pub open spec fn p_opt_u32(s: Seq<char>) -> Option<(Option<u32>, Seq<char>)> {
    match p_lit(("null")@, s) {
        Some(rest) => Some((None, rest)),
        None => match p_u32(s) {
            Some((v, rest)) => Some((Some(v), rest)),
            None => None,
        },
    }
}

pub open spec fn p_timespan(s: Seq<char>) -> Option<(TimeSpan, Seq<char>)> {
    match p_lit(("{\"secs\":")@, s) {
        Some(r1) => match p_u64(r1) {
            Some((secs, r2)) => match p_lit((",\"nanos\":")@, r2) {
                Some(r3) => match p_u32(r3) {
                    Some((nanos, r4)) => match p_lit(("}")@, r4) {
                        Some(r5) => Some((TimeSpan { secs, nanos }, r5)),
                        None => None,
                    },
                    None => None,
                },
                None => None,
            },
            None => None,
        },
        None => None,
    }
}

pub open spec fn p_timestamp(s: Seq<char>) -> Option<(Timestamp, Seq<char>)> {
    match p_lit(("{\"secs_since_epoch\":")@, s) {
        Some(r1) => match p_u64(r1) {
            Some((secs, r2)) => match p_lit((",\"nanos_since_epoch\":")@, r2) {
                Some(r3) => match p_u32(r3) {
                    Some((nanos, r4)) => match p_lit(("}")@, r4) {
                        Some(r5) => Some((Timestamp { secs, nanos }, r5)),
                        None => None,
                    },
                    None => None,
                },
                None => None,
            },
            None => None,
        },
        None => None,
    }
}

pub open spec fn p_opt_timestamp(s: Seq<char>) -> Option<(Option<Timestamp>, Seq<char>)> {
    match p_lit(("null")@, s) {
        Some(rest) => Some((None, rest)),
        None => match p_timestamp(s) {
            Some((t, rest)) => Some((Some(t), rest)),
            None => None,
        },
    }
}

pub open spec fn p_date(s: Seq<char>) -> Option<(Date, Seq<char>)> {
    match p_lit(("{\"year\":")@, s) {
        Some(r1) => match p_i32(r1) {
            Some((year, r2)) => match p_lit((",\"month\":")@, r2) {
                Some(r3) => match p_u32(r3) {
                    Some((month, r4)) => match p_lit((",\"day\":")@, r4) {
                        Some(r5) => match p_u32(r5) {
                            Some((day, r6)) => match p_lit(("}")@, r6) {
                                Some(r7) => Some((Date { year, month, day }, r7)),
                                None => None,
                            },
                            None => None,
                        },
                        None => None,
                    },
                    None => None,
                },
                None => None,
            },
            None => None,
        },
        None => None,
    }
}

pub open spec fn p_highlight(s: Seq<char>) -> Option<(TextHighlight, Seq<char>)> {
    match p_lit(("{\"page_number\":")@, s) {
        Some(r1) => match p_u16(r1) {
            Some((page_number, r2)) => match p_lit((",\"line_number\":")@, r2) {
                Some(r3) => match p_u16(r3) {
                    Some((line_number, r4)) => match p_lit((",\"start_pos\":")@, r4) {
                        Some(r5) => match p_u16(r5) {
                            Some((start_pos, r6)) => match p_lit((",\"length\":")@, r6) {
                                Some(r7) => match p_u16(r7) {
                                    Some((length, r8)) => match p_lit((",\"color\":")@, r8) {
                                        Some(r9) => match p_color(r9) {
                                            Some((color, r10)) => match p_lit(("}")@, r10) {
                                                Some(r11) => Some(
                                                    (
                                                        TextHighlight {
                                                            page_number,
                                                            line_number,
                                                            start_pos,
                                                            length,
                                                            color,
                                                        },
                                                        r11,
                                                    ),
                                                ),
                                                None => None,
                                            },
                                            None => None,
                                        },
                                        None => None,
                                    },
                                    None => None,
                                },
                                None => None,
                            },
                            None => None,
                        },
                        None => None,
                    },
                    None => None,
                },
                None => None,
            },
            None => None,
        },
        None => None,
    }
}

/// The items of a non-empty highlight list, including the closing bracket.
pub open spec fn p_hl_items(s: Seq<char>) -> Option<(Seq<TextHighlight>, Seq<char>)>
    decreases s.len(),
{
    match p_highlight(s) {
        Some((h, r)) => {
            if r.len() >= s.len() {
                None
            } else if r.len() > 0 && r[0] == ',' {
                match p_hl_items(r.drop_first()) {
                    Some((items, r2)) => Some((seq![h] + items, r2)),
                    None => None,
                }
            } else if r.len() > 0 && r[0] == ']' {
                Some((seq![h], r.drop_first()))
            } else {
                None
            }
        },
        None => None,
    }
}

pub open spec fn p_highlights(s: Seq<char>) -> Option<(Seq<TextHighlight>, Seq<char>)> {
    match p_lit(("[]")@, s) {
        Some(rest) => Some((Seq::empty(), rest)),
        None => if s.len() > 0 && s[0] == '[' {
            p_hl_items(s.drop_first())
        } else {
            None
        },
    }
}

/// Exactly `k` comma-separated numbers and the closing bracket.
pub open spec fn p_u8_items(s: Seq<char>, k: nat) -> Option<(Seq<u8>, Seq<char>)>
    decreases k,
{
    if k == 0 {
        None
    } else {
        match p_u8(s) {
            Some((v, r)) => if k == 1 {
                match p_lit(("]")@, r) {
                    Some(r2) => Some((seq![v], r2)),
                    None => None,
                }
            } else {
                match p_lit((",")@, r) {
                    Some(r2) => match p_u8_items(r2, (k - 1) as nat) {
                        Some((vs, r3)) => Some((seq![v] + vs, r3)),
                        None => None,
                    },
                    None => None,
                }
            },
            None => None,
        }
    }
}

pub open spec fn p_week(s: Seq<char>) -> Option<(Seq<u8>, Seq<char>)> {
    if s.len() > 0 && s[0] == '[' {
        p_u8_items(s.drop_first(), 7)
    } else {
        None
    }
}

#[verifier::opaque]
pub open spec fn p_book(s: Seq<char>) -> Option<(BookAbs, Seq<char>)> {
    match p_lit(("{\"id\":")@, s) {
        Some(r1) => match p_str(r1) {
            Some((id, r2)) => match p_lit((",\"name\":")@, r2) {
                Some(r3) => match p_str(r3) {
                    Some((name, r4)) => match p_lit((",\"description\":")@, r4) {
                        Some(r5) => match p_str(r5) {
                            Some((description, r6)) => match p_lit((",\"current_page\":")@, r6) {
                                Some(r7) => match p_u16(r7) {
                                    Some((current_page, r8)) => match p_lit(
                                        (",\"page_count\":")@,
                                        r8,
                                    ) {
                                        Some(r9) => match p_u64(r9) {
                                            Some((page_count, r10)) => match p_lit(
                                                (",\"score\":")@,
                                                r10,
                                            ) {
                                                Some(r11) => match p_opt_u32(r11) {
                                                    Some((score, r12)) => p_book_tail(
                                                        id,
                                                        name,
                                                        description,
                                                        current_page,
                                                        page_count,
                                                        score,
                                                        r12,
                                                    ),
                                                    None => None,
                                                },
                                                None => None,
                                            },
                                            None => None,
                                        },
                                        None => None,
                                    },
                                    None => None,
                                },
                                None => None,
                            },
                            None => None,
                        },
                        None => None,
                    },
                    None => None,
                },
                None => None,
            },
            None => None,
        },
        None => None,
    }
}

/// The second half of a book record, from the favorite flag on.
#[verifier::opaque]
pub open spec fn p_book_tail(
    id: Seq<char>,
    name: Seq<char>,
    description: Seq<char>,
    current_page: u16,
    page_count: u64,
    score: Option<u32>,
    s: Seq<char>,
) -> Option<(BookAbs, Seq<char>)> {
    match p_lit((",\"is_favorite\":")@, s) {
        Some(r1) => match p_bool(r1) {
            Some((is_favorite, r2)) => match p_lit((",\"is_open\":")@, r2) {
                Some(r3) => match p_bool(r3) {
                    Some((is_open, r4)) => match p_lit((",\"time_spent\":")@, r4) {
                        Some(r5) => match p_timespan(r5) {
                            Some((time_spent, r6)) => match p_lit((",\"completed_at\":")@, r6) {
                                Some(r7) => match p_opt_timestamp(r7) {
                                    Some((completed_at, r8)) => match p_lit(
                                        (",\"last_time_opened\":")@,
                                        r8,
                                    ) {
                                        Some(r9) => match p_opt_timestamp(r9) {
                                            Some((last_time_opened, r10)) => match p_lit(
                                                (",\"text_highlights\":")@,
                                                r10,
                                            ) {
                                                Some(r11) => match p_highlights(r11) {
                                                    Some((text_highlights, r12)) => match p_lit(
                                                        (",\"file_size\":")@,
                                                        r12,
                                                    ) {
                                                        Some(r13) => match p_u64(r13) {
                                                            Some((file_size, r14)) => match p_lit(
                                                                (",\"book_path\":")@,
                                                                r14,
                                                            ) {
                                                                Some(r15) => match p_str(r15) {
                                                                    Some((book_path, r16)) => match p_lit(
                                                                        (",\"thumbnail_path\":")@,
                                                                        r16,
                                                                    ) {
                                                                        Some(r17) => match p_str(
                                                                            r17,
                                                                        ) {
                                                                            Some(
                                                                                (
                                                                                    thumbnail_path,
                                                                                    r18,
                                                                                ),
                                                                            ) => match p_lit(
                                                                                ("}")@,
                                                                                r18,
                                                                            ) {
                                                                                Some(r19) => Some(
                                                                                    (
                                                                                        BookAbs {
                                                                                            id,
                                                                                            name,
                                                                                            description,
                                                                                            current_page,
                                                                                            page_count,
                                                                                            score,
                                                                                            is_favorite,
                                                                                            is_open,
                                                                                            time_spent,
                                                                                            completed_at,
                                                                                            last_time_opened,
                                                                                            text_highlights,
                                                                                            file_size,
                                                                                            book_path,
                                                                                            thumbnail_path,
                                                                                        },
                                                                                        r19,
                                                                                    ),
                                                                                ),
                                                                                None => None,
                                                                            },
                                                                            None => None,
                                                                        },
                                                                        None => None,
                                                                    },
                                                                    None => None,
                                                                },
                                                                None => None,
                                                            },
                                                            None => None,
                                                        },
                                                        None => None,
                                                    },
                                                    None => None,
                                                },
                                                None => None,
                                            },
                                            None => None,
                                        },
                                        None => None,
                                    },
                                    None => None,
                                },
                                None => None,
                            },
                            None => None,
                        },
                        None => None,
                    },
                    None => None,
                },
                None => None,
            },
            None => None,
        },
        None => None,
    }
}

/// The items of a non-empty book list, including the closing bracket.
pub open spec fn p_book_items(s: Seq<char>) -> Option<(Seq<BookAbs>, Seq<char>)>
    decreases s.len(),
{
    match p_book(s) {
        Some((b, r)) => {
            if r.len() >= s.len() {
                None
            } else if r.len() > 0 && r[0] == ',' {
                match p_book_items(r.drop_first()) {
                    Some((items, r2)) => Some((seq![b] + items, r2)),
                    None => None,
                }
            } else if r.len() > 0 && r[0] == ']' {
                Some((seq![b], r.drop_first()))
            } else {
                None
            }
        },
        None => None,
    }
}

pub open spec fn p_books(s: Seq<char>) -> Option<(Seq<BookAbs>, Seq<char>)> {
    match p_lit(("[]")@, s) {
        Some(rest) => Some((Seq::empty(), rest)),
        None => if s.len() > 0 && s[0] == '[' {
            p_book_items(s.drop_first())
        } else {
            None
        },
    }
}

/// The whole persisted document.
pub open spec fn p_catalog(s: Seq<char>) -> Option<(CatalogAbs, Seq<char>)> {
    match p_lit(("{\"theme\":")@, s) {
        Some(r1) => match p_str(r1) {
            Some((theme, r2)) => match p_lit((",\"hours_read_this_week\":")@, r2) {
                Some(r3) => match p_week(r3) {
                    Some((hours_read_this_week, r4)) => match p_lit(
                        (",\"average_hours_this_month\":")@,
                        r4,
                    ) {
                        Some(r5) => match p_u16(r5) {
                            Some((average_hours_this_month, r6)) => match p_lit(
                                (",\"most_active_day\":")@,
                                r6,
                            ) {
                                Some(r7) => match p_date(r7) {
                                    Some((most_active_day, r8)) => match p_lit(
                                        (",\"books\":")@,
                                        r8,
                                    ) {
                                        Some(r9) => match p_books(r9) {
                                            Some((books, r10)) => match p_lit(("}")@, r10) {
                                                Some(r11) => Some(
                                                    (
                                                        CatalogAbs {
                                                            theme,
                                                            hours_read_this_week,
                                                            average_hours_this_month,
                                                            most_active_day,
                                                            books,
                                                        },
                                                        r11,
                                                    ),
                                                ),
                                                None => None,
                                            },
                                            None => None,
                                        },
                                        None => None,
                                    },
                                    None => None,
                                },
                                None => None,
                            },
                            None => None,
                        },
                        None => None,
                    },
                    None => None,
                },
                None => None,
            },
            None => None,
        },
        None => None,
    }
}

} // verus!
