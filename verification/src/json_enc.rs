//! The executable encoder of the persisted format.  Every function appends to
//! an output string exactly what the corresponding specification function
//! describes.
use vstd::prelude::*;
use vstd::seq_lib::lemma_concat_associative;

use crate::catalog::Catalog;
use crate::json_spec::digit_char;
use crate::json_spec::enc_book;
use crate::json_spec::enc_book_items;
use crate::json_spec::enc_book_tail;
use crate::json_spec::enc_books;
use crate::json_spec::enc_bool;
use crate::json_spec::enc_catalog;
use crate::json_spec::enc_color;
use crate::json_spec::enc_date;
use crate::json_spec::enc_highlight;
use crate::json_spec::enc_highlights;
use crate::json_spec::enc_hl_items;
use crate::json_spec::enc_i32;
use crate::json_spec::enc_nat;
use crate::json_spec::enc_opt_timestamp;
use crate::json_spec::enc_opt_u32;
use crate::json_spec::enc_str;
use crate::json_spec::enc_timespan;
use crate::json_spec::enc_timestamp;
use crate::json_spec::enc_u8_items;
use crate::json_spec::enc_week;
use crate::json_spec::esc_char;
use crate::json_spec::esc_str;
use crate::json_spec::lhex_char;
use crate::model::Book;
use crate::model::Date;
use crate::model::TextHighlight;
use crate::model::TextHighlightColor;
use crate::model::TimeSpan;
use crate::model::Timestamp;
use crate::strutil::push_char;

verus! {

/// Appends a number in decimal.
fn push_nat(out: &mut String, n: u64)
    ensures
        final(out)@ == old(out)@ + enc_nat(n as nat),
    decreases n,
{
    if n < 10 {
        push_char(out, (48u8 + n as u8) as char);
        proof {
            assert(enc_nat(n as nat) == seq![digit_char(n as nat)]);
        }
    } else {
        push_nat(out, n / 10);
        push_char(out, (48u8 + (n % 10) as u8) as char);
        proof {
            assert(final(out)@ =~= old(out)@ + enc_nat(n as nat));
        }
    }
}

/// Appends a signed year.
fn push_i32(out: &mut String, y: i32)
    ensures
        final(out)@ == old(out)@ + enc_i32(y),
{
    if y >= 0 {
        push_nat(out, y as u64);
    } else {
        push_char(out, '-');
        let m: u64 = (-(y as i64)) as u64;
        push_nat(out, m);
        proof {
            assert(m as nat == (-(y as int)) as nat);
            assert(final(out)@ =~= old(out)@ + enc_i32(y));
        }
    }
}

/// The escaped body of one string character appended after a prefix equals
/// escaping the string one character longer.
proof fn lemma_esc_str_snoc(t: Seq<char>, c: char)
    ensures
        esc_str(t.push(c)) == esc_str(t) + esc_char(c),
    decreases t.len(),
{
    if t.len() == 0 {
        let u = t.push(c);
        assert(u.len() == 1);
        assert(u[0] == c);
        assert(u.drop_first() =~= Seq::<char>::empty());
        assert(esc_str(u) == esc_char(c) + esc_str(Seq::<char>::empty()));
        assert(esc_str(Seq::<char>::empty()) == Seq::<char>::empty());
        assert(esc_char(c) + Seq::<char>::empty() =~= esc_char(c));
        assert(esc_str(t) =~= Seq::<char>::empty());
        assert(esc_str(t) + esc_char(c) =~= esc_char(c));
    } else {
        assert(t.push(c)[0] == t[0]);
        assert(t.push(c).drop_first() =~= t.drop_first().push(c));
        lemma_esc_str_snoc(t.drop_first(), c);
        lemma_concat_associative(esc_char(t[0]), esc_str(t.drop_first()), esc_char(c));
        assert(esc_str(t.push(c)) == esc_char(t[0]) + esc_str(t.drop_first().push(c)));
    }
}

/// Appends one escaped character of a string body.
fn push_esc_char(out: &mut String, c: char)
    ensures
        final(out)@ == old(out)@ + esc_char(c),
{
    if c == '"' {
        push_char(out, '\\');
        push_char(out, '"');
        proof {
            assert(final(out)@ =~= old(out)@ + esc_char(c));
        }
    } else if c == '\\' {
        push_char(out, '\\');
        push_char(out, '\\');
        proof {
            assert(final(out)@ =~= old(out)@ + esc_char(c));
        }
    } else {
        let code = c as u32;
        if code < 32 {
            push_char(out, '\\');
            push_char(out, 'u');
            push_char(out, '0');
            push_char(out, '0');
            let hi = (code / 16) as u8;
            let lo = (code % 16) as u8;
            push_char(
                out,
                if hi < 10 {
                    (48u8 + hi) as char
                } else {
                    (87u8 + hi) as char
                },
            );
            push_char(
                out,
                if lo < 10 {
                    (48u8 + lo) as char
                } else {
                    (87u8 + lo) as char
                },
            );
            proof {
                assert(lhex_char((c as u32 / 16) as nat) == (if hi < 10 {
                    (48u8 + hi) as char
                } else {
                    (87u8 + hi) as char
                }));
                assert(lhex_char((c as u32 % 16) as nat) == (if lo < 10 {
                    (48u8 + lo) as char
                } else {
                    (87u8 + lo) as char
                }));
                assert(final(out)@ =~= old(out)@ + esc_char(c));
            }
        } else {
            push_char(out, c);
            proof {
                assert(final(out)@ =~= old(out)@ + esc_char(c));
            }
        }
    }
}

/// Appends a string value, quoted and escaped.
fn push_str_value(out: &mut String, s: &str)
    ensures
        final(out)@ == old(out)@ + enc_str(s@),
{
    push_char(out, '"');
    let len = s.unicode_len();
    let mut i: usize = 0;
    proof {
        assert(s@.take(0) =~= Seq::<char>::empty());
        assert(esc_str(s@.take(0)) =~= Seq::<char>::empty());
        assert(out@ =~= old(out)@ + seq!['"'] + esc_str(s@.take(0)));
    }
    while i < len
        invariant
            i <= len,
            len == s@.len(),
            out@ == old(out)@ + seq!['"'] + esc_str(s@.take(i as int)),
        decreases len - i,
    {
        let c = s.get_char(i);
        push_esc_char(out, c);
        proof {
            assert(s@.take(i as int).push(c) =~= s@.take(i as int + 1));
            lemma_esc_str_snoc(s@.take(i as int), c);
            lemma_concat_associative(old(out)@ + seq!['"'], esc_str(s@.take(i as int)), esc_char(c));
        }
        i = i + 1;
    }
    push_char(out, '"');
    proof {
        assert(s@.take(len as int) =~= s@);
        assert(final(out)@ =~= old(out)@ + enc_str(s@));
    }
}

/// Appends a boolean.
fn push_bool(out: &mut String, b: bool)
    ensures
        final(out)@ == old(out)@ + enc_bool(b),
{
    if b {
        out.append("true");
    } else {
        out.append("false");
    }
}

/// Appends a color name.
fn push_color(out: &mut String, c: TextHighlightColor)
    ensures
        final(out)@ == old(out)@ + enc_color(c),
{
    match c {
        TextHighlightColor::RED => out.append("\"RED\""),
        TextHighlightColor::BLUE => out.append("\"BLUE\""),
        TextHighlightColor::CYAN => out.append("\"CYAN\""),
        TextHighlightColor::GREEN => out.append("\"GREEN\""),
        TextHighlightColor::GRAY => out.append("\"GRAY\""),
        TextHighlightColor::PINK => out.append("\"PINK\""),
        TextHighlightColor::YELLOW => out.append("\"YELLOW\""),
        TextHighlightColor::PURPLE => out.append("\"PURPLE\""),
    }
}

/// Appends an optional score.
fn push_opt_u32(out: &mut String, v: &Option<u32>)
    ensures
        final(out)@ == old(out)@ + enc_opt_u32(*v),
{
    match v {
        Some(n) => push_nat(out, *n as u64),
        None => out.append("null"),
    }
}

/// Appends a time span object.
fn push_timespan(out: &mut String, t: &TimeSpan)
    ensures
        final(out)@ == old(out)@ + enc_timespan(*t),
{
    out.append("{\"secs\":");
    push_nat(out, t.secs);
    out.append(",\"nanos\":");
    push_nat(out, t.nanos as u64);
    out.append("}");
    proof {
        assert(final(out)@ =~= old(out)@ + enc_timespan(*t));
    }
}

/// Appends a timestamp object.
fn push_timestamp(out: &mut String, t: &Timestamp)
    ensures
        final(out)@ == old(out)@ + enc_timestamp(*t),
{
    out.append("{\"secs_since_epoch\":");
    push_nat(out, t.secs);
    out.append(",\"nanos_since_epoch\":");
    push_nat(out, t.nanos as u64);
    out.append("}");
    proof {
        assert(final(out)@ =~= old(out)@ + enc_timestamp(*t));
    }
}

/// Appends an optional timestamp.
fn push_opt_timestamp(out: &mut String, v: &Option<Timestamp>)
    ensures
        final(out)@ == old(out)@ + enc_opt_timestamp(*v),
{
    match v {
        Some(t) => push_timestamp(out, t),
        None => out.append("null"),
    }
}

/// Appends a date object.
fn push_date(out: &mut String, d: &Date)
    ensures
        final(out)@ == old(out)@ + enc_date(*d),
{
    out.append("{\"year\":");
    push_i32(out, d.year);
    out.append(",\"month\":");
    push_nat(out, d.month as u64);
    out.append(",\"day\":");
    push_nat(out, d.day as u64);
    out.append("}");
    proof {
        assert(final(out)@ =~= old(out)@ + enc_date(*d));
    }
}

/// Appends a highlight object.
fn push_highlight(out: &mut String, h: &TextHighlight)
    ensures
        final(out)@ == old(out)@ + enc_highlight(*h),
{
    out.append("{\"page_number\":");
    push_nat(out, h.page_number as u64);
    out.append(",\"line_number\":");
    push_nat(out, h.line_number as u64);
    out.append(",\"start_pos\":");
    push_nat(out, h.start_pos as u64);
    out.append(",\"length\":");
    push_nat(out, h.length as u64);
    out.append(",\"color\":");
    push_color(out, h.color);
    out.append("}");
    proof {
        assert(final(out)@ =~= old(out)@ + enc_highlight(*h));
    }
}

/// Appends the items of a non-empty highlight list, from position `i` on.
fn push_hl_items(out: &mut String, v: &Vec<TextHighlight>, i: usize)
    requires
        i < v.len(),
    ensures
        final(out)@ == old(out)@ + enc_hl_items(v@.skip(i as int)),
    decreases v.len() - i,
{
    push_highlight(out, &v[i]);
    proof {
        assert(v@.skip(i as int)[0] == v@[i as int]);
        assert(v@.skip(i as int).len() == v@.len() - i);
    }
    if i + 1 == v.len() {
        push_char(out, ']');
        proof {
            assert(final(out)@ =~= old(out)@ + enc_hl_items(v@.skip(i as int)));
        }
    } else {
        push_char(out, ',');
        push_hl_items(out, v, i + 1);
        proof {
            assert(v@.skip(i as int).drop_first() =~= v@.skip(i as int + 1));
            assert(final(out)@ =~= old(out)@ + enc_hl_items(v@.skip(i as int)));
        }
    }
}

/// Appends a highlight list.
fn push_highlights(out: &mut String, v: &Vec<TextHighlight>)
    ensures
        final(out)@ == old(out)@ + enc_highlights(v@),
{
    if v.len() == 0 {
        out.append("[]");
    } else {
        push_char(out, '[');
        push_hl_items(out, v, 0);
        proof {
            assert(v@.skip(0) =~= v@);
            assert(final(out)@ =~= old(out)@ + enc_highlights(v@));
        }
    }
}

/// Appends the weekly counters, from position `i` on.
fn push_u8_items(out: &mut String, v: &Vec<u8>, i: usize)
    requires
        i < v.len(),
    ensures
        final(out)@ == old(out)@ + enc_u8_items(v@.skip(i as int)),
    decreases v.len() - i,
{
    push_nat(out, v[i] as u64);
    proof {
        assert(v@.skip(i as int)[0] == v@[i as int]);
        assert(v@.skip(i as int).len() == v@.len() - i);
    }
    if i + 1 == v.len() {
        push_char(out, ']');
        proof {
            assert(final(out)@ =~= old(out)@ + enc_u8_items(v@.skip(i as int)));
        }
    } else {
        push_char(out, ',');
        push_u8_items(out, v, i + 1);
        proof {
            assert(v@.skip(i as int).drop_first() =~= v@.skip(i as int + 1));
            assert(final(out)@ =~= old(out)@ + enc_u8_items(v@.skip(i as int)));
        }
    }
}

/// Appends the week array.  The catalog invariant gives it seven slots.
fn push_week(out: &mut String, v: &Vec<u8>)
    requires
        v@.len() >= 1,
    ensures
        final(out)@ == old(out)@ + enc_week(v@),
{
    push_char(out, '[');
    push_u8_items(out, v, 0);
    proof {
        assert(v@.skip(0) =~= v@);
        assert(final(out)@ =~= old(out)@ + enc_week(v@));
    }
}

/// Appends the second half of a book record object.
#[verifier::rlimit(100)]
fn push_book_tail(out: &mut String, b: &Book)
    ensures
        final(out)@ == old(out)@ + enc_book_tail(b@),
{
    out.append(",\"is_favorite\":");
    push_bool(out, b.is_favorite);
    out.append(",\"is_open\":");
    push_bool(out, b.is_open);
    out.append(",\"time_spent\":");
    push_timespan(out, &b.time_spent);
    out.append(",\"completed_at\":");
    push_opt_timestamp(out, &b.completed_at);
    out.append(",\"last_time_opened\":");
    push_opt_timestamp(out, &b.last_time_opened);
    out.append(",\"text_highlights\":");
    push_highlights(out, &b.text_highlights);
    out.append(",\"file_size\":");
    push_nat(out, b.file_size);
    out.append(",\"book_path\":");
    push_str_value(out, b.book_path.as_str());
    out.append(",\"thumbnail_path\":");
    push_str_value(out, b.thumbnail_path.as_str());
    out.append("}");
    proof {
        lemma_concat_associative(old(out)@, (",\"is_favorite\":")@, enc_bool(b@.is_favorite));
        lemma_concat_associative(old(out)@, (",\"is_favorite\":")@ + enc_bool(b@.is_favorite), (",\"is_open\":")@);
        lemma_concat_associative(old(out)@, (",\"is_favorite\":")@ + enc_bool(b@.is_favorite) + (",\"is_open\":")@, enc_bool(b@.is_open));
        lemma_concat_associative(old(out)@, (",\"is_favorite\":")@ + enc_bool(b@.is_favorite) + (",\"is_open\":")@ + enc_bool(b@.is_open), (",\"time_spent\":")@);
        lemma_concat_associative(old(out)@, (",\"is_favorite\":")@ + enc_bool(b@.is_favorite) + (",\"is_open\":")@ + enc_bool(b@.is_open) + (",\"time_spent\":")@, enc_timespan(b@.time_spent));
        lemma_concat_associative(old(out)@, (",\"is_favorite\":")@ + enc_bool(b@.is_favorite) + (",\"is_open\":")@ + enc_bool(b@.is_open) + (",\"time_spent\":")@ + enc_timespan(b@.time_spent), (",\"completed_at\":")@);
        lemma_concat_associative(old(out)@, (",\"is_favorite\":")@ + enc_bool(b@.is_favorite) + (",\"is_open\":")@ + enc_bool(b@.is_open) + (",\"time_spent\":")@ + enc_timespan(b@.time_spent) + (",\"completed_at\":")@, enc_opt_timestamp(b@.completed_at));
        lemma_concat_associative(old(out)@, (",\"is_favorite\":")@ + enc_bool(b@.is_favorite) + (",\"is_open\":")@ + enc_bool(b@.is_open) + (",\"time_spent\":")@ + enc_timespan(b@.time_spent) + (",\"completed_at\":")@ + enc_opt_timestamp(b@.completed_at), (",\"last_time_opened\":")@);
        lemma_concat_associative(old(out)@, (",\"is_favorite\":")@ + enc_bool(b@.is_favorite) + (",\"is_open\":")@ + enc_bool(b@.is_open) + (",\"time_spent\":")@ + enc_timespan(b@.time_spent) + (",\"completed_at\":")@ + enc_opt_timestamp(b@.completed_at) + (",\"last_time_opened\":")@, enc_opt_timestamp(b@.last_time_opened));
        lemma_concat_associative(old(out)@, (",\"is_favorite\":")@ + enc_bool(b@.is_favorite) + (",\"is_open\":")@ + enc_bool(b@.is_open) + (",\"time_spent\":")@ + enc_timespan(b@.time_spent) + (",\"completed_at\":")@ + enc_opt_timestamp(b@.completed_at) + (",\"last_time_opened\":")@ + enc_opt_timestamp(b@.last_time_opened), (",\"text_highlights\":")@);
        lemma_concat_associative(old(out)@, (",\"is_favorite\":")@ + enc_bool(b@.is_favorite) + (",\"is_open\":")@ + enc_bool(b@.is_open) + (",\"time_spent\":")@ + enc_timespan(b@.time_spent) + (",\"completed_at\":")@ + enc_opt_timestamp(b@.completed_at) + (",\"last_time_opened\":")@ + enc_opt_timestamp(b@.last_time_opened) + (",\"text_highlights\":")@, enc_highlights(b@.text_highlights));
        lemma_concat_associative(old(out)@, (",\"is_favorite\":")@ + enc_bool(b@.is_favorite) + (",\"is_open\":")@ + enc_bool(b@.is_open) + (",\"time_spent\":")@ + enc_timespan(b@.time_spent) + (",\"completed_at\":")@ + enc_opt_timestamp(b@.completed_at) + (",\"last_time_opened\":")@ + enc_opt_timestamp(b@.last_time_opened) + (",\"text_highlights\":")@ + enc_highlights(b@.text_highlights), (",\"file_size\":")@);
        lemma_concat_associative(old(out)@, (",\"is_favorite\":")@ + enc_bool(b@.is_favorite) + (",\"is_open\":")@ + enc_bool(b@.is_open) + (",\"time_spent\":")@ + enc_timespan(b@.time_spent) + (",\"completed_at\":")@ + enc_opt_timestamp(b@.completed_at) + (",\"last_time_opened\":")@ + enc_opt_timestamp(b@.last_time_opened) + (",\"text_highlights\":")@ + enc_highlights(b@.text_highlights) + (",\"file_size\":")@, enc_nat(b@.file_size as nat));
        lemma_concat_associative(old(out)@, (",\"is_favorite\":")@ + enc_bool(b@.is_favorite) + (",\"is_open\":")@ + enc_bool(b@.is_open) + (",\"time_spent\":")@ + enc_timespan(b@.time_spent) + (",\"completed_at\":")@ + enc_opt_timestamp(b@.completed_at) + (",\"last_time_opened\":")@ + enc_opt_timestamp(b@.last_time_opened) + (",\"text_highlights\":")@ + enc_highlights(b@.text_highlights) + (",\"file_size\":")@ + enc_nat(b@.file_size as nat), (",\"book_path\":")@);
        lemma_concat_associative(old(out)@, (",\"is_favorite\":")@ + enc_bool(b@.is_favorite) + (",\"is_open\":")@ + enc_bool(b@.is_open) + (",\"time_spent\":")@ + enc_timespan(b@.time_spent) + (",\"completed_at\":")@ + enc_opt_timestamp(b@.completed_at) + (",\"last_time_opened\":")@ + enc_opt_timestamp(b@.last_time_opened) + (",\"text_highlights\":")@ + enc_highlights(b@.text_highlights) + (",\"file_size\":")@ + enc_nat(b@.file_size as nat) + (",\"book_path\":")@, enc_str(b@.book_path));
        lemma_concat_associative(old(out)@, (",\"is_favorite\":")@ + enc_bool(b@.is_favorite) + (",\"is_open\":")@ + enc_bool(b@.is_open) + (",\"time_spent\":")@ + enc_timespan(b@.time_spent) + (",\"completed_at\":")@ + enc_opt_timestamp(b@.completed_at) + (",\"last_time_opened\":")@ + enc_opt_timestamp(b@.last_time_opened) + (",\"text_highlights\":")@ + enc_highlights(b@.text_highlights) + (",\"file_size\":")@ + enc_nat(b@.file_size as nat) + (",\"book_path\":")@ + enc_str(b@.book_path), (",\"thumbnail_path\":")@);
        lemma_concat_associative(old(out)@, (",\"is_favorite\":")@ + enc_bool(b@.is_favorite) + (",\"is_open\":")@ + enc_bool(b@.is_open) + (",\"time_spent\":")@ + enc_timespan(b@.time_spent) + (",\"completed_at\":")@ + enc_opt_timestamp(b@.completed_at) + (",\"last_time_opened\":")@ + enc_opt_timestamp(b@.last_time_opened) + (",\"text_highlights\":")@ + enc_highlights(b@.text_highlights) + (",\"file_size\":")@ + enc_nat(b@.file_size as nat) + (",\"book_path\":")@ + enc_str(b@.book_path) + (",\"thumbnail_path\":")@, enc_str(b@.thumbnail_path));
        lemma_concat_associative(old(out)@, (",\"is_favorite\":")@ + enc_bool(b@.is_favorite) + (",\"is_open\":")@ + enc_bool(b@.is_open) + (",\"time_spent\":")@ + enc_timespan(b@.time_spent) + (",\"completed_at\":")@ + enc_opt_timestamp(b@.completed_at) + (",\"last_time_opened\":")@ + enc_opt_timestamp(b@.last_time_opened) + (",\"text_highlights\":")@ + enc_highlights(b@.text_highlights) + (",\"file_size\":")@ + enc_nat(b@.file_size as nat) + (",\"book_path\":")@ + enc_str(b@.book_path) + (",\"thumbnail_path\":")@ + enc_str(b@.thumbnail_path), ("}")@);
        assert(final(out)@ == old(out)@ + enc_book_tail(b@));
    }
}

/// Appends a book record object.
#[verifier::rlimit(100)]
fn push_book(out: &mut String, b: &Book)
    ensures
        final(out)@ == old(out)@ + enc_book(b@),
{
    out.append("{\"id\":");
    push_str_value(out, b.id.as_str());
    out.append(",\"name\":");
    push_str_value(out, b.name.as_str());
    out.append(",\"description\":");
    push_str_value(out, b.description.as_str());
    out.append(",\"current_page\":");
    push_nat(out, b.current_page as u64);
    out.append(",\"page_count\":");
    push_nat(out, b.page_count);
    out.append(",\"score\":");
    push_opt_u32(out, &b.score);
    push_book_tail(out, b);
    proof {
        assert(final(out)@ =~= old(out)@ + enc_book(b@));
    }
}

/// Appends the items of a non-empty book list, from position `i` on.
fn push_book_items(out: &mut String, v: &Vec<Book>, i: usize)
    requires
        i < v.len(),
    ensures
        final(out)@ == old(out)@ + enc_book_items(v@.map_values(|b: Book| b@).skip(i as int)),
    decreases v.len() - i,
{
    let ghost vs = v@.map_values(|b: Book| b@);
    push_book(out, &v[i]);
    proof {
        assert(vs.skip(i as int)[0] == vs[i as int]);
        assert(vs.skip(i as int).len() == vs.len() - i);
    }
    if i + 1 == v.len() {
        push_char(out, ']');
        proof {
            assert(final(out)@ =~= old(out)@ + enc_book_items(vs.skip(i as int)));
        }
    } else {
        push_char(out, ',');
        push_book_items(out, v, i + 1);
        proof {
            assert(vs.skip(i as int).drop_first() =~= vs.skip(i as int + 1));
            assert(final(out)@ =~= old(out)@ + enc_book_items(vs.skip(i as int)));
        }
    }
}

/// Appends a book list.
fn push_books(out: &mut String, v: &Vec<Book>)
    ensures
        final(out)@ == old(out)@ + enc_books(v@.map_values(|b: Book| b@)),
{
    let ghost vs = v@.map_values(|b: Book| b@);
    if v.len() == 0 {
        out.append("[]");
    } else {
        push_char(out, '[');
        push_book_items(out, v, 0);
        proof {
            assert(vs.skip(0) =~= vs);
            assert(final(out)@ =~= old(out)@ + enc_books(vs));
        }
    }
}

/// Encodes a whole catalog as its persisted document.
pub fn encode_catalog(c: &Catalog) -> (r: String)
    requires
        c@.wf(),
    ensures
        r@ == enc_catalog(c@),
{
    let mut out = String::new();
    out.append("{\"theme\":");
    push_str_value(&mut out, c.get_theme().as_str());
    out.append(",\"hours_read_this_week\":");
    push_week(&mut out, c.week_ref());
    out.append(",\"average_hours_this_month\":");
    push_nat(&mut out, c.average_hours() as u64);
    out.append(",\"most_active_day\":");
    let d = c.most_active_day();
    push_date(&mut out, &d);
    out.append(",\"books\":");
    push_books(&mut out, c.books_ref());
    out.append("}");
    proof {
        assert(out@ =~= enc_catalog(c@));
    }
    out
}

} // verus!
