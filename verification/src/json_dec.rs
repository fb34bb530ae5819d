//! The executable parser of the persisted format.  Every function consumes
//! input from a position and returns exactly what the corresponding
//! specification parser describes, or fails exactly when it does.
use vstd::prelude::*;

use crate::json_spec::digit_val;
use crate::json_spec::is_digit;
use crate::json_spec::is_lhex;
use crate::json_spec::lhex_val;
use crate::json_spec::p_bool;
use crate::json_spec::p_color;
use crate::json_spec::p_i32;
use crate::json_spec::p_lit;
use crate::json_spec::p_opt_timestamp;
use crate::json_spec::p_opt_u32;
use crate::json_spec::p_str;
use crate::json_spec::p_str_body;
use crate::json_spec::p_u16;
use crate::json_spec::p_u32;
use crate::json_spec::p_u64;
use crate::json_spec::p_u8;
use crate::json_spec::p_digits;
use crate::catalog::Catalog;
use crate::json_spec::p_book;
use crate::json_spec::p_book_items;
use crate::json_spec::p_book_tail;
use crate::json_spec::p_books;
use crate::json_spec::p_catalog;
use crate::model::Book;
use crate::model::BookAbs;
use crate::json_spec::p_date;
use crate::json_spec::p_highlight;
use crate::json_spec::p_highlights;
use crate::json_spec::p_hl_items;
use crate::json_spec::p_timespan;
use crate::json_spec::p_timestamp;
use crate::json_spec::p_u8_items;
use crate::json_spec::p_week;
use crate::model::Date;
use crate::model::TextHighlight;
use crate::model::TimeSpan;
use crate::model::Timestamp;
use crate::model::TextHighlightColor;
use crate::strutil::string_from_chars;

verus! {

/// Consumes an expected literal.
fn parse_lit(s: &Vec<char>, i: usize, lit: &str) -> (r: Option<usize>)
    requires
        i <= s@.len(),
    ensures
        match r {
            Some(j) => i <= j <= s@.len() && p_lit(lit@, s@.skip(i as int)) == Some(
                s@.skip(j as int),
            ),
            None => p_lit(lit@, s@.skip(i as int)) is None,
        },
{
    let ghost sub = s@.skip(i as int);
    let llen = lit.unicode_len();
    let slen = s.len();
    if llen > slen - i {
        proof {
            assert(sub.len() == s@.len() - i);
            assert(!lit@.is_prefix_of(sub));
        }
        return None;
    }
    let mut j: usize = 0;
    while j < llen
        invariant
            j <= llen,
            llen == lit@.len(),
            slen == s@.len(),
            i + llen <= slen,
            sub == s@.skip(i as int),
            forall|k: int| 0 <= k < j ==> lit@[k] == sub[k],
        decreases llen - j,
    {
        proof {
            assert(sub[j as int] == s@[i + j]);
        }
        if s[i + j] != lit.get_char(j) {
            proof {
                assert(sub.subrange(0, llen as int)[j as int] == sub[j as int]);
                assert(!lit@.is_prefix_of(sub));
            }
            return None;
        }
        j = j + 1;
    }
    proof {
        assert(lit@.is_prefix_of(sub)) by {
            assert(sub.subrange(0, llen as int) =~= lit@);
        }
        assert(sub.skip(llen as int) =~= s@.skip(i as int + llen as int));
    }
    Some(i + llen)
}

/// The value accumulated by digit parsing never shrinks.
proof fn lemma_p_digits_ge(s: Seq<char>, acc: nat)
    ensures
        p_digits(s, acc).0 >= acc,
    decreases s.len(),
{
    if s.len() > 0 && is_digit(s[0]) {
        lemma_p_digits_ge(s.drop_first(), acc * 10 + digit_val(s[0]));
        assert(acc * 10 >= acc) by (nonlinear_arith);
    }
}

/// Consumes a decimal number.
fn parse_u64(s: &Vec<char>, i: usize) -> (r: Option<(u64, usize)>)
    requires
        i <= s@.len(),
    ensures
        match r {
            Some((v, j)) => i <= j <= s@.len() && p_u64(s@.skip(i as int)) == Some(
                (v, s@.skip(j as int)),
            ),
            None => p_u64(s@.skip(i as int)) is None,
        },
{
    let ghost sub = s@.skip(i as int);
    if i >= s.len() {
        proof {
            assert(sub.len() == 0);
        }
        return None;
    }
    proof {
        assert(sub[0] == s@[i as int]);
    }
    let c0 = s[i];
    let d0 = c0 as u32;
    if d0 < 48 || d0 > 57 {
        return None;
    }
    if c0 == '0' {
        proof {
            assert(sub.drop_first() =~= s@.skip(i as int + 1));
        }
        return Some((0, i + 1));
    }
    let mut acc: u64 = (d0 - 48) as u64;
    let mut j: usize = i + 1;
    proof {
        assert(sub.drop_first() =~= s@.skip(i as int + 1));
        assert(p_digits(sub, 0) == p_digits(s@.skip(i as int + 1), acc as nat));
    }
    loop
        invariant
            i < j <= s@.len(),
            sub == s@.skip(i as int),
            sub.len() > 0 && is_digit(sub[0]) && sub[0] != '0',
            p_digits(sub, 0) == p_digits(s@.skip(j as int), acc as nat),
        decreases s@.len() - j,
    {
        if j >= s.len() {
            proof {
                assert(s@.skip(j as int).len() == 0);
                assert(p_digits(sub, 0) == (acc as nat, s@.skip(j as int)));
            }
            return Some((acc, j));
        }
        proof {
            assert(s@.skip(j as int)[0] == s@[j as int]);
        }
        let c = s[j];
        let d = c as u32;
        if d < 48 || d > 57 {
            proof {
                assert(p_digits(sub, 0) == (acc as nat, s@.skip(j as int)));
            }
            return Some((acc, j));
        }
        let dv = (d - 48) as u64;
        if acc > (u64::MAX - dv) / 10 {
            proof {
                let nxt = acc as nat * 10 + dv as nat;
                assert(nxt > u64::MAX) by (nonlinear_arith)
                    requires
                        acc as nat > (u64::MAX - dv) as nat / 10,
                        nxt == acc as nat * 10 + dv as nat,
                        dv <= u64::MAX,
                {
                }
                assert(s@.skip(j as int).drop_first() =~= s@.skip(j as int + 1));
                assert(p_digits(s@.skip(j as int), acc as nat) == p_digits(
                    s@.skip(j as int + 1),
                    nxt,
                ));
                lemma_p_digits_ge(s@.skip(j as int + 1), nxt);
                assert(p_digits(sub, 0).0 > u64::MAX);
            }
            return None;
        }
        proof {
            assert(s@.skip(j as int).drop_first() =~= s@.skip(j as int + 1));
            assert(p_digits(s@.skip(j as int), acc as nat) == p_digits(
                s@.skip(j as int + 1),
                acc as nat * 10 + dv as nat,
            ));
        }
        acc = acc * 10 + dv;
        j = j + 1;
    }
}

/// Consumes a number that must fit 32 bits.
fn parse_u32(s: &Vec<char>, i: usize) -> (r: Option<(u32, usize)>)
    requires
        i <= s@.len(),
    ensures
        match r {
            Some((v, j)) => i <= j <= s@.len() && p_u32(s@.skip(i as int)) == Some(
                (v, s@.skip(j as int)),
            ),
            None => p_u32(s@.skip(i as int)) is None,
        },
{
    match parse_u64(s, i) {
        Some((v, j)) => {
            if v <= u32::MAX as u64 {
                Some((v as u32, j))
            } else {
                None
            }
        },
        None => None,
    }
}

/// Consumes a number that must fit 16 bits.
fn parse_u16(s: &Vec<char>, i: usize) -> (r: Option<(u16, usize)>)
    requires
        i <= s@.len(),
    ensures
        match r {
            Some((v, j)) => i <= j <= s@.len() && p_u16(s@.skip(i as int)) == Some(
                (v, s@.skip(j as int)),
            ),
            None => p_u16(s@.skip(i as int)) is None,
        },
{
    match parse_u64(s, i) {
        Some((v, j)) => {
            if v <= u16::MAX as u64 {
                Some((v as u16, j))
            } else {
                None
            }
        },
        None => None,
    }
}

/// Consumes a number that must fit 8 bits.
fn parse_u8(s: &Vec<char>, i: usize) -> (r: Option<(u8, usize)>)
    requires
        i <= s@.len(),
    ensures
        match r {
            Some((v, j)) => i <= j <= s@.len() && p_u8(s@.skip(i as int)) == Some(
                (v, s@.skip(j as int)),
            ),
            None => p_u8(s@.skip(i as int)) is None,
        },
{
    match parse_u64(s, i) {
        Some((v, j)) => {
            if v <= u8::MAX as u64 {
                Some((v as u8, j))
            } else {
                None
            }
        },
        None => None,
    }
}

/// Consumes a signed 32-bit number.
fn parse_i32(s: &Vec<char>, i: usize) -> (r: Option<(i32, usize)>)
    requires
        i <= s@.len(),
    ensures
        match r {
            Some((v, j)) => i <= j <= s@.len() && p_i32(s@.skip(i as int)) == Some(
                (v, s@.skip(j as int)),
            ),
            None => p_i32(s@.skip(i as int)) is None,
        },
{
    let ghost sub = s@.skip(i as int);
    if i < s.len() && s[i] == '-' {
        proof {
            assert(sub[0] == s@[i as int]);
            assert(sub.drop_first() =~= s@.skip(i as int + 1));
        }
        match parse_u64(s, i + 1) {
            Some((v, j)) => {
                if 1 <= v && v <= 0x8000_0000u64 {
                    Some(((-(v as i64)) as i32, j))
                } else {
                    None
                }
            },
            None => None,
        }
    } else {
        proof {
            if sub.len() > 0 {
                assert(sub[0] == s@[i as int]);
            }
        }
        match parse_u64(s, i) {
            Some((v, j)) => {
                if v <= 0x7fff_ffffu64 {
                    Some((v as i32, j))
                } else {
                    None
                }
            },
            None => None,
        }
    }
}

/// Prepends already-collected characters to a string-body parse.
pub open spec fn with_prefix(prefix: Seq<char>, o: Option<(Seq<char>, Seq<char>)>) -> Option<
    (Seq<char>, Seq<char>),
> {
    match o {
        Some((b, r)) => Some((prefix + b, r)),
        None => None,
    }
}

/// One parsed character, put in front of the rest of a string body.
pub open spec fn cons_char(x: char, o: Option<(Seq<char>, Seq<char>)>) -> Option<
    (Seq<char>, Seq<char>),
> {
    match o {
        Some((b, r)) => Some((seq![x] + b, r)),
        None => None,
    }
}

proof fn lemma_with_prefix_empty(o: Option<(Seq<char>, Seq<char>)>)
    ensures
        with_prefix(Seq::empty(), o) == o,
{
    match o {
        Some((b, r)) => {
            assert(Seq::<char>::empty() + b =~= b);
        },
        None => {},
    }
}

proof fn lemma_with_prefix_cons(p: Seq<char>, x: char, o: Option<(Seq<char>, Seq<char>)>)
    ensures
        with_prefix(p, cons_char(x, o)) == with_prefix(p.push(x), o),
{
    match o {
        Some((b, r)) => {
            assert(p + (seq![x] + b) =~= p.push(x) + b);
        },
        None => {},
    }
}

/// Consumes a quoted, escaped string.
#[verifier::rlimit(100)]
fn parse_string(s: &Vec<char>, i: usize) -> (r: Option<(String, usize)>)
    requires
        i <= s@.len(),
    ensures
        match r {
            Some((t, j)) => i <= j <= s@.len() && p_str(s@.skip(i as int)) == Some(
                (t@, s@.skip(j as int)),
            ),
            None => p_str(s@.skip(i as int)) is None,
        },
{
    let ghost sub = s@.skip(i as int);
    if i >= s.len() {
        proof {
            assert(sub.len() == 0);
        }
        return None;
    }
    proof {
        assert(sub[0] == s@[i as int]);
    }
    if s[i] != '"' {
        return None;
    }
    let ghost body0 = s@.skip(i as int + 1);
    proof {
        assert(sub.drop_first() =~= body0);
    }
    let mut res: Vec<char> = Vec::new();
    let mut cur: usize = i + 1;
    proof {
        lemma_with_prefix_empty(p_str_body(body0));
        assert(with_prefix(res@, p_str_body(s@.skip(cur as int))) == p_str_body(body0));
    }
    loop
        invariant
            i + 1 <= cur <= s@.len(),
            s@.skip(i as int).len() > 0,
            s@.skip(i as int)[0] == '"',
            p_str(s@.skip(i as int)) == p_str_body(body0),
            body0 == s@.skip(i as int + 1),
            with_prefix(res@, p_str_body(s@.skip(cur as int))) == p_str_body(body0),
        decreases s@.len() - cur,
    {
        let ghost here = s@.skip(cur as int);
        if cur >= s.len() {
            proof {
                assert(here.len() == 0);
            }
            return None;
        }
        proof {
            assert(here[0] == s@[cur as int]);
        }
        let c = s[cur];
        if c == '"' {
            proof {
                assert(here.drop_first() =~= s@.skip(cur as int + 1));
                assert(res@ + Seq::<char>::empty() =~= res@);
                assert(p_str_body(here) == Some((Seq::<char>::empty(), s@.skip(cur as int + 1))));
            }
            let out = string_from_chars(&res);
            return Some((out, cur + 1));
        }
        if c == '\\' {
            if cur + 1 < s.len() && (s[cur + 1] == '"' || s[cur + 1] == '\\') {
                let x = s[cur + 1];
                proof {
                    assert(here[1] == s@[cur as int + 1]);
                    assert(here.skip(2) =~= s@.skip(cur as int + 2));
                    assert(p_str_body(here) == cons_char(x, p_str_body(s@.skip(cur as int + 2))));
                    lemma_with_prefix_cons(res@, x, p_str_body(s@.skip(cur as int + 2)));
                }
                res.push(x);
                cur = cur + 2;
            } else if s.len() - cur > 5 && s[cur + 1] == 'u' && s[cur + 2] == '0' && s[cur + 3]
                == '0' {
                proof {
                    assert(here[1] == s@[cur as int + 1]);
                    assert(here[2] == s@[cur as int + 2]);
                    assert(here[3] == s@[cur as int + 3]);
                    assert(here[4] == s@[cur as int + 4]);
                    assert(here[5] == s@[cur as int + 5]);
                }
                let h1 = s[cur + 4] as u32;
                let h2 = s[cur + 5] as u32;
                let ok1 = (48 <= h1 && h1 <= 57) || (97 <= h1 && h1 <= 102);
                let ok2 = (48 <= h2 && h2 <= 57) || (97 <= h2 && h2 <= 102);
                if !ok1 || !ok2 {
                    proof {
                        assert(!is_lhex(here[4]) || !is_lhex(here[5]));
                    }
                    return None;
                }
                let v1 = if h1 <= 57 {
                    h1 - 48
                } else {
                    h1 - 87
                };
                let v2 = if h2 <= 57 {
                    h2 - 48
                } else {
                    h2 - 87
                };
                let code = v1 * 16 + v2;
                if code >= 32 {
                    proof {
                        assert(lhex_val(here[4]) * 16 + lhex_val(here[5]) >= 32);
                    }
                    return None;
                }
                let x = (code as u8) as char;
                proof {
                    assert(here.skip(6) =~= s@.skip(cur as int + 6));
                    assert(x == (((lhex_val(here[4]) * 16 + lhex_val(here[5])) as u8) as char));
                    assert(p_str_body(here) == cons_char(x, p_str_body(s@.skip(cur as int + 6))));
                    lemma_with_prefix_cons(res@, x, p_str_body(s@.skip(cur as int + 6)));
                }
                res.push(x);
                cur = cur + 6;
            } else {
                proof {
                    if here.len() >= 2 {
                        assert(here[1] == s@[cur as int + 1]);
                    }
                }
                return None;
            }
        } else {
            let code = c as u32;
            if code < 32 {
                return None;
            }
            proof {
                assert(here.drop_first() =~= s@.skip(cur as int + 1));
                assert(p_str_body(here) == cons_char(c, p_str_body(s@.skip(cur as int + 1))));
                lemma_with_prefix_cons(res@, c, p_str_body(s@.skip(cur as int + 1)));
            }
            res.push(c);
            cur = cur + 1;
        }
    }
}

/// Consumes a boolean.
fn parse_bool(s: &Vec<char>, i: usize) -> (r: Option<(bool, usize)>)
    requires
        i <= s@.len(),
    ensures
        match r {
            Some((v, j)) => i <= j <= s@.len() && p_bool(s@.skip(i as int)) == Some(
                (v, s@.skip(j as int)),
            ),
            None => p_bool(s@.skip(i as int)) is None,
        },
{
    match parse_lit(s, i, "true") {
        Some(j) => Some((true, j)),
        None => match parse_lit(s, i, "false") {
            Some(j) => Some((false, j)),
            None => None,
        },
    }
}

/// Consumes a color name.
fn parse_color(s: &Vec<char>, i: usize) -> (r: Option<(TextHighlightColor, usize)>)
    requires
        i <= s@.len(),
    ensures
        match r {
            Some((v, j)) => i <= j <= s@.len() && p_color(s@.skip(i as int)) == Some(
                (v, s@.skip(j as int)),
            ),
            None => p_color(s@.skip(i as int)) is None,
        },
{
    match parse_lit(s, i, "\"RED\"") {
        Some(j) => Some((TextHighlightColor::RED, j)),
        None => match parse_lit(s, i, "\"BLUE\"") {
            Some(j) => Some((TextHighlightColor::BLUE, j)),
            None => match parse_lit(s, i, "\"CYAN\"") {
                Some(j) => Some((TextHighlightColor::CYAN, j)),
                None => match parse_lit(s, i, "\"GREEN\"") {
                    Some(j) => Some((TextHighlightColor::GREEN, j)),
                    None => match parse_lit(s, i, "\"GRAY\"") {
                        Some(j) => Some((TextHighlightColor::GRAY, j)),
                        None => match parse_lit(s, i, "\"PINK\"") {
                            Some(j) => Some((TextHighlightColor::PINK, j)),
                            None => match parse_lit(s, i, "\"YELLOW\"") {
                                Some(j) => Some((TextHighlightColor::YELLOW, j)),
                                None => match parse_lit(s, i, "\"PURPLE\"") {
                                    Some(j) => Some((TextHighlightColor::PURPLE, j)),
                                    None => None,
                                },
                            },
                        },
                    },
                },
            },
        },
    }
}

/// Consumes an optional score.
fn parse_opt_u32(s: &Vec<char>, i: usize) -> (r: Option<(Option<u32>, usize)>)
    requires
        i <= s@.len(),
    ensures
        match r {
            Some((v, j)) => i <= j <= s@.len() && p_opt_u32(s@.skip(i as int)) == Some(
                (v, s@.skip(j as int)),
            ),
            None => p_opt_u32(s@.skip(i as int)) is None,
        },
{
    match parse_lit(s, i, "null") {
        Some(j) => Some((None, j)),
        None => match parse_u32(s, i) {
            Some((v, j)) => Some((Some(v), j)),
            None => None,
        },
    }
}

/// Consumes a time span object.
fn parse_timespan(s: &Vec<char>, i: usize) -> (r: Option<(TimeSpan, usize)>)
    requires
        i <= s@.len(),
    ensures
        match r {
            Some((v, j)) => i <= j <= s@.len() && p_timespan(s@.skip(i as int)) == Some(
                (v, s@.skip(j as int)),
            ),
            None => p_timespan(s@.skip(i as int)) is None,
        },
{
    let j1 = match parse_lit(s, i, "{\"secs\":") {
        Some(j) => j,
        None => {
            return None;
        },
    };
    let (secs, j2) = match parse_u64(s, j1) {
        Some(p) => p,
        None => {
            return None;
        },
    };
    let j3 = match parse_lit(s, j2, ",\"nanos\":") {
        Some(j) => j,
        None => {
            return None;
        },
    };
    let (nanos, j4) = match parse_u32(s, j3) {
        Some(p) => p,
        None => {
            return None;
        },
    };
    let j5 = match parse_lit(s, j4, "}") {
        Some(j) => j,
        None => {
            return None;
        },
    };
    Some((TimeSpan { secs, nanos }, j5))
}

/// Consumes a timestamp object.
fn parse_timestamp(s: &Vec<char>, i: usize) -> (r: Option<(Timestamp, usize)>)
    requires
        i <= s@.len(),
    ensures
        match r {
            Some((v, j)) => i <= j <= s@.len() && p_timestamp(s@.skip(i as int)) == Some(
                (v, s@.skip(j as int)),
            ),
            None => p_timestamp(s@.skip(i as int)) is None,
        },
{
    let j1 = match parse_lit(s, i, "{\"secs_since_epoch\":") {
        Some(j) => j,
        None => {
            return None;
        },
    };
    let (secs, j2) = match parse_u64(s, j1) {
        Some(p) => p,
        None => {
            return None;
        },
    };
    let j3 = match parse_lit(s, j2, ",\"nanos_since_epoch\":") {
        Some(j) => j,
        None => {
            return None;
        },
    };
    let (nanos, j4) = match parse_u32(s, j3) {
        Some(p) => p,
        None => {
            return None;
        },
    };
    let j5 = match parse_lit(s, j4, "}") {
        Some(j) => j,
        None => {
            return None;
        },
    };
    Some((Timestamp { secs, nanos }, j5))
}

/// Consumes an optional timestamp.
fn parse_opt_timestamp(s: &Vec<char>, i: usize) -> (r: Option<(Option<Timestamp>, usize)>)
    requires
        i <= s@.len(),
    ensures
        match r {
            Some((v, j)) => i <= j <= s@.len() && p_opt_timestamp(s@.skip(i as int)) == Some(
                (v, s@.skip(j as int)),
            ),
            None => p_opt_timestamp(s@.skip(i as int)) is None,
        },
{
    match parse_lit(s, i, "null") {
        Some(j) => Some((None, j)),
        None => match parse_timestamp(s, i) {
            Some((t, j)) => Some((Some(t), j)),
            None => None,
        },
    }
}

/// Consumes a date object.
fn parse_date(s: &Vec<char>, i: usize) -> (r: Option<(Date, usize)>)
    requires
        i <= s@.len(),
    ensures
        match r {
            Some((v, j)) => i <= j <= s@.len() && p_date(s@.skip(i as int)) == Some(
                (v, s@.skip(j as int)),
            ),
            None => p_date(s@.skip(i as int)) is None,
        },
{
    let j1 = match parse_lit(s, i, "{\"year\":") {
        Some(j) => j,
        None => {
            return None;
        },
    };
    let (year, j2) = match parse_i32(s, j1) {
        Some(p) => p,
        None => {
            return None;
        },
    };
    let j3 = match parse_lit(s, j2, ",\"month\":") {
        Some(j) => j,
        None => {
            return None;
        },
    };
    let (month, j4) = match parse_u32(s, j3) {
        Some(p) => p,
        None => {
            return None;
        },
    };
    let j5 = match parse_lit(s, j4, ",\"day\":") {
        Some(j) => j,
        None => {
            return None;
        },
    };
    let (day, j6) = match parse_u32(s, j5) {
        Some(p) => p,
        None => {
            return None;
        },
    };
    let j7 = match parse_lit(s, j6, "}") {
        Some(j) => j,
        None => {
            return None;
        },
    };
    Some((Date { year, month, day }, j7))
}

/// Consumes a highlight object.
fn parse_highlight(s: &Vec<char>, i: usize) -> (r: Option<(TextHighlight, usize)>)
    requires
        i <= s@.len(),
    ensures
        match r {
            Some((v, j)) => i <= j <= s@.len() && p_highlight(s@.skip(i as int)) == Some(
                (v, s@.skip(j as int)),
            ),
            None => p_highlight(s@.skip(i as int)) is None,
        },
{
    let j1 = match parse_lit(s, i, "{\"page_number\":") {
        Some(j) => j,
        None => {
            return None;
        },
    };
    let (page_number, j2) = match parse_u16(s, j1) {
        Some(p) => p,
        None => {
            return None;
        },
    };
    let j3 = match parse_lit(s, j2, ",\"line_number\":") {
        Some(j) => j,
        None => {
            return None;
        },
    };
    let (line_number, j4) = match parse_u16(s, j3) {
        Some(p) => p,
        None => {
            return None;
        },
    };
    let j5 = match parse_lit(s, j4, ",\"start_pos\":") {
        Some(j) => j,
        None => {
            return None;
        },
    };
    let (start_pos, j6) = match parse_u16(s, j5) {
        Some(p) => p,
        None => {
            return None;
        },
    };
    let j7 = match parse_lit(s, j6, ",\"length\":") {
        Some(j) => j,
        None => {
            return None;
        },
    };
    let (length, j8) = match parse_u16(s, j7) {
        Some(p) => p,
        None => {
            return None;
        },
    };
    let j9 = match parse_lit(s, j8, ",\"color\":") {
        Some(j) => j,
        None => {
            return None;
        },
    };
    let (color, j10) = match parse_color(s, j9) {
        Some(p) => p,
        None => {
            return None;
        },
    };
    let j11 = match parse_lit(s, j10, "}") {
        Some(j) => j,
        None => {
            return None;
        },
    };
    Some((TextHighlight { page_number, line_number, start_pos, length, color }, j11))
}

/// Prepends already-collected highlights to a list parse.
pub open spec fn hl_with(
    prefix: Seq<TextHighlight>,
    o: Option<(Seq<TextHighlight>, Seq<char>)>,
) -> Option<(Seq<TextHighlight>, Seq<char>)> {
    match o {
        Some((items, r)) => Some((prefix + items, r)),
        None => None,
    }
}

proof fn lemma_hl_with_empty(o: Option<(Seq<TextHighlight>, Seq<char>)>)
    ensures
        hl_with(Seq::empty(), o) == o,
{
    match o {
        Some((items, r)) => {
            assert(Seq::<TextHighlight>::empty() + items =~= items);
        },
        None => {},
    }
}

proof fn lemma_hl_with_cons(
    p: Seq<TextHighlight>,
    h: TextHighlight,
    o: Option<(Seq<TextHighlight>, Seq<char>)>,
)
    ensures
        hl_with(
            p,
            match o {
                Some((items, r)) => Some((seq![h] + items, r)),
                None => None,
            },
        ) == hl_with(p.push(h), o),
{
    match o {
        Some((items, r)) => {
            assert(p + (seq![h] + items) =~= p.push(h) + items);
        },
        None => {},
    }
}

/// Consumes the items of a non-empty highlight list.
fn parse_hl_items(s: &Vec<char>, i: usize) -> (r: Option<(Vec<TextHighlight>, usize)>)
    requires
        i <= s@.len(),
    ensures
        match r {
            Some((v, j)) => i <= j <= s@.len() && p_hl_items(s@.skip(i as int)) == Some(
                (v@, s@.skip(j as int)),
            ),
            None => p_hl_items(s@.skip(i as int)) is None,
        },
{
    let mut acc: Vec<TextHighlight> = Vec::new();
    let mut cur: usize = i;
    proof {
        lemma_hl_with_empty(p_hl_items(s@.skip(i as int)));
    }
    loop
        invariant
            i <= cur <= s@.len(),
            hl_with(acc@, p_hl_items(s@.skip(cur as int))) == p_hl_items(s@.skip(i as int)),
        decreases s@.len() - cur,
    {
        match parse_highlight(s, cur) {
            None => {
                return None;
            },
            Some((h, j)) => {
                if j <= cur {
                    proof {
                        assert(s@.skip(j as int).len() >= s@.skip(cur as int).len());
                    }
                    return None;
                }
                proof {
                    assert(s@.skip(j as int).len() < s@.skip(cur as int).len());
                }
                if j < s.len() && s[j] == ',' {
                    proof {
                        assert(s@.skip(j as int)[0] == s@[j as int]);
                        assert(s@.skip(j as int).drop_first() =~= s@.skip(j as int + 1));
                        lemma_hl_with_cons(acc@, h, p_hl_items(s@.skip(j as int + 1)));
                    }
                    acc.push(h);
                    cur = j + 1;
                } else if j < s.len() && s[j] == ']' {
                    proof {
                        assert(s@.skip(j as int)[0] == s@[j as int]);
                        assert(s@.skip(j as int).drop_first() =~= s@.skip(j as int + 1));
                        assert(p_hl_items(s@.skip(cur as int)) == Some(
                            (seq![h], s@.skip(j as int + 1)),
                        ));
                        assert(acc@ + seq![h] =~= acc@.push(h));
                    }
                    acc.push(h);
                    return Some((acc, j + 1));
                } else {
                    proof {
                        if j < s@.len() {
                            assert(s@.skip(j as int)[0] == s@[j as int]);
                        } else {
                            assert(s@.skip(j as int).len() == 0);
                        }
                    }
                    return None;
                }
            },
        }
    }
}

/// Consumes a highlight list.
fn parse_highlights(s: &Vec<char>, i: usize) -> (r: Option<(Vec<TextHighlight>, usize)>)
    requires
        i <= s@.len(),
    ensures
        match r {
            Some((v, j)) => i <= j <= s@.len() && p_highlights(s@.skip(i as int)) == Some(
                (v@, s@.skip(j as int)),
            ),
            None => p_highlights(s@.skip(i as int)) is None,
        },
{
    match parse_lit(s, i, "[]") {
        Some(j) => {
            let v: Vec<TextHighlight> = Vec::new();
            proof {
                assert(v@ =~= Seq::<TextHighlight>::empty());
            }
            Some((v, j))
        },
        None => {
            if i < s.len() && s[i] == '[' {
                proof {
                    assert(s@.skip(i as int)[0] == s@[i as int]);
                    assert(s@.skip(i as int).drop_first() =~= s@.skip(i as int + 1));
                }
                parse_hl_items(s, i + 1)
            } else {
                proof {
                    if i < s@.len() {
                        assert(s@.skip(i as int)[0] == s@[i as int]);
                    } else {
                        assert(s@.skip(i as int).len() == 0);
                    }
                }
                None
            }
        },
    }
}

/// Consumes exactly `k` weekly counters and the closing bracket.
fn parse_u8_items(s: &Vec<char>, i: usize, k: usize) -> (r: Option<(Vec<u8>, usize)>)
    requires
        i <= s@.len(),
        k >= 1,
    ensures
        match r {
            Some((v, j)) => i <= j <= s@.len() && p_u8_items(s@.skip(i as int), k as nat) == Some(
                (v@, s@.skip(j as int)),
            ),
            None => p_u8_items(s@.skip(i as int), k as nat) is None,
        },
    decreases k,
{
    let (v, j) = match parse_u8(s, i) {
        Some(p) => p,
        None => {
            return None;
        },
    };
    if k == 1 {
        match parse_lit(s, j, "]") {
            Some(j2) => {
                let mut out: Vec<u8> = Vec::new();
                out.push(v);
                proof {
                    assert(out@ =~= seq![v]);
                }
                Some((out, j2))
            },
            None => None,
        }
    } else {
        match parse_lit(s, j, ",") {
            Some(j2) => match parse_u8_items(s, j2, k - 1) {
                Some((mut vs, j3)) => {
                    vs.insert(0, v);
                    proof {
                        assert(vs@ =~= seq![v] + vs@.skip(1));
                    }
                    Some((vs, j3))
                },
                None => None,
            },
            None => None,
        }
    }
}

/// Consumes the week array.
fn parse_week(s: &Vec<char>, i: usize) -> (r: Option<(Vec<u8>, usize)>)
    requires
        i <= s@.len(),
    ensures
        match r {
            Some((v, j)) => i <= j <= s@.len() && p_week(s@.skip(i as int)) == Some(
                (v@, s@.skip(j as int)),
            ),
            None => p_week(s@.skip(i as int)) is None,
        },
{
    if i < s.len() && s[i] == '[' {
        proof {
            assert(s@.skip(i as int)[0] == s@[i as int]);
            assert(s@.skip(i as int).drop_first() =~= s@.skip(i as int + 1));
        }
        parse_u8_items(s, i + 1, 7)
    } else {
        proof {
            if i < s@.len() {
                assert(s@.skip(i as int)[0] == s@[i as int]);
            } else {
                assert(s@.skip(i as int).len() == 0);
            }
        }
        None
    }
}

/// Consumes the second half of a book record, completing it with the already
/// parsed leading fields.
#[verifier::rlimit(100)]
fn parse_book_rest(
    s: &Vec<char>,
    i: usize,
    id: String,
    name: String,
    description: String,
    current_page: u16,
    page_count: u64,
    score: Option<u32>,
) -> (r: Option<(Book, usize)>)
    requires
        i <= s@.len(),
    ensures
        match r {
            Some((b, j)) => i <= j <= s@.len() && p_book_tail(
                id@,
                name@,
                description@,
                current_page,
                page_count,
                score,
                s@.skip(i as int),
            ) == Some((b@, s@.skip(j as int))),
            None => p_book_tail(
                id@,
                name@,
                description@,
                current_page,
                page_count,
                score,
                s@.skip(i as int),
            ) is None,
        },
{
    proof {
        reveal(p_book_tail);
    }
    let j1 = match parse_lit(s, i, ",\"is_favorite\":") {
        Some(j) => j,
        None => {
            return None;
        },
    };
    let (is_favorite, j2) = match parse_bool(s, j1) {
        Some(p) => p,
        None => {
            return None;
        },
    };
    let j3 = match parse_lit(s, j2, ",\"is_open\":") {
        Some(j) => j,
        None => {
            return None;
        },
    };
    let (is_open, j4) = match parse_bool(s, j3) {
        Some(p) => p,
        None => {
            return None;
        },
    };
    let j5 = match parse_lit(s, j4, ",\"time_spent\":") {
        Some(j) => j,
        None => {
            return None;
        },
    };
    let (time_spent, j6) = match parse_timespan(s, j5) {
        Some(p) => p,
        None => {
            return None;
        },
    };
    let j7 = match parse_lit(s, j6, ",\"completed_at\":") {
        Some(j) => j,
        None => {
            return None;
        },
    };
    let (completed_at, j8) = match parse_opt_timestamp(s, j7) {
        Some(p) => p,
        None => {
            return None;
        },
    };
    let j9 = match parse_lit(s, j8, ",\"last_time_opened\":") {
        Some(j) => j,
        None => {
            return None;
        },
    };
    let (last_time_opened, j10) = match parse_opt_timestamp(s, j9) {
        Some(p) => p,
        None => {
            return None;
        },
    };
    let j11 = match parse_lit(s, j10, ",\"text_highlights\":") {
        Some(j) => j,
        None => {
            return None;
        },
    };
    let (text_highlights, j12) = match parse_highlights(s, j11) {
        Some(p) => p,
        None => {
            return None;
        },
    };
    let j13 = match parse_lit(s, j12, ",\"file_size\":") {
        Some(j) => j,
        None => {
            return None;
        },
    };
    let (file_size, j14) = match parse_u64(s, j13) {
        Some(p) => p,
        None => {
            return None;
        },
    };
    let j15 = match parse_lit(s, j14, ",\"book_path\":") {
        Some(j) => j,
        None => {
            return None;
        },
    };
    let (book_path, j16) = match parse_string(s, j15) {
        Some(p) => p,
        None => {
            return None;
        },
    };
    let j17 = match parse_lit(s, j16, ",\"thumbnail_path\":") {
        Some(j) => j,
        None => {
            return None;
        },
    };
    let (thumbnail_path, j18) = match parse_string(s, j17) {
        Some(p) => p,
        None => {
            return None;
        },
    };
    let j19 = match parse_lit(s, j18, "}") {
        Some(j) => j,
        None => {
            return None;
        },
    };
    let b = Book {
        id,
        name,
        description,
        current_page,
        page_count,
        score,
        is_favorite,
        is_open,
        time_spent,
        completed_at,
        last_time_opened,
        text_highlights,
        file_size,
        book_path,
        thumbnail_path,
    };
    Some((b, j19))
}

/// Consumes a book record object.
#[verifier::rlimit(100)]
fn parse_book(s: &Vec<char>, i: usize) -> (r: Option<(Book, usize)>)
    requires
        i <= s@.len(),
    ensures
        match r {
            Some((b, j)) => i <= j <= s@.len() && p_book(s@.skip(i as int)) == Some(
                (b@, s@.skip(j as int)),
            ),
            None => p_book(s@.skip(i as int)) is None,
        },
{
    proof {
        reveal(p_book);
    }
    let j1 = match parse_lit(s, i, "{\"id\":") {
        Some(j) => j,
        None => {
            return None;
        },
    };
    let (id, j2) = match parse_string(s, j1) {
        Some(p) => p,
        None => {
            return None;
        },
    };
    let j3 = match parse_lit(s, j2, ",\"name\":") {
        Some(j) => j,
        None => {
            return None;
        },
    };
    let (name, j4) = match parse_string(s, j3) {
        Some(p) => p,
        None => {
            return None;
        },
    };
    let j5 = match parse_lit(s, j4, ",\"description\":") {
        Some(j) => j,
        None => {
            return None;
        },
    };
    let (description, j6) = match parse_string(s, j5) {
        Some(p) => p,
        None => {
            return None;
        },
    };
    let j7 = match parse_lit(s, j6, ",\"current_page\":") {
        Some(j) => j,
        None => {
            return None;
        },
    };
    let (current_page, j8) = match parse_u16(s, j7) {
        Some(p) => p,
        None => {
            return None;
        },
    };
    let j9 = match parse_lit(s, j8, ",\"page_count\":") {
        Some(j) => j,
        None => {
            return None;
        },
    };
    let (page_count, j10) = match parse_u64(s, j9) {
        Some(p) => p,
        None => {
            return None;
        },
    };
    let j11 = match parse_lit(s, j10, ",\"score\":") {
        Some(j) => j,
        None => {
            return None;
        },
    };
    let (score, j12) = match parse_opt_u32(s, j11) {
        Some(p) => p,
        None => {
            return None;
        },
    };
    parse_book_rest(s, j12, id, name, description, current_page, page_count, score)
}

/// Prepends already-collected books to a list parse.
pub open spec fn books_with(prefix: Seq<BookAbs>, o: Option<(Seq<BookAbs>, Seq<char>)>) -> Option<
    (Seq<BookAbs>, Seq<char>),
> {
    match o {
        Some((items, r)) => Some((prefix + items, r)),
        None => None,
    }
}

proof fn lemma_books_with_empty(o: Option<(Seq<BookAbs>, Seq<char>)>)
    ensures
        books_with(Seq::empty(), o) == o,
{
    match o {
        Some((items, r)) => {
            assert(Seq::<BookAbs>::empty() + items =~= items);
        },
        None => {},
    }
}

proof fn lemma_books_with_cons(p: Seq<BookAbs>, b: BookAbs, o: Option<(Seq<BookAbs>, Seq<char>)>)
    ensures
        books_with(
            p,
            match o {
                Some((items, r)) => Some((seq![b] + items, r)),
                None => None,
            },
        ) == books_with(p.push(b), o),
{
    match o {
        Some((items, r)) => {
            assert(p + (seq![b] + items) =~= p.push(b) + items);
        },
        None => {},
    }
}

/// Consumes the items of a non-empty book list.
#[verifier::rlimit(100)]
fn parse_book_items(s: &Vec<char>, i: usize) -> (r: Option<(Vec<Book>, usize)>)
    requires
        i <= s@.len(),
    ensures
        match r {
            Some((v, j)) => i <= j <= s@.len() && p_book_items(s@.skip(i as int)) == Some(
                (v@.map_values(|b: Book| b@), s@.skip(j as int)),
            ),
            None => p_book_items(s@.skip(i as int)) is None,
        },
{
    let mut acc: Vec<Book> = Vec::new();
    let mut cur: usize = i;
    proof {
        lemma_books_with_empty(p_book_items(s@.skip(i as int)));
        assert(acc@.map_values(|b: Book| b@) =~= Seq::<BookAbs>::empty());
    }
    loop
        invariant
            i <= cur <= s@.len(),
            books_with(acc@.map_values(|b: Book| b@), p_book_items(s@.skip(cur as int)))
                == p_book_items(s@.skip(i as int)),
        decreases s@.len() - cur,
    {
        match parse_book(s, cur) {
            None => {
                return None;
            },
            Some((b, j)) => {
                if j <= cur {
                    proof {
                        assert(s@.skip(j as int).len() >= s@.skip(cur as int).len());
                    }
                    return None;
                }
                proof {
                    assert(s@.skip(j as int).len() < s@.skip(cur as int).len());
                }
                if j < s.len() && s[j] == ',' {
                    proof {
                        assert(s@.skip(j as int)[0] == s@[j as int]);
                        assert(s@.skip(j as int).drop_first() =~= s@.skip(j as int + 1));
                        lemma_books_with_cons(
                            acc@.map_values(|bk: Book| bk@),
                            b@,
                            p_book_items(s@.skip(j as int + 1)),
                        );
                        assert(acc@.push(b).map_values(|bk: Book| bk@) =~= acc@.map_values(
                            |bk: Book| bk@,
                        ).push(b@));
                    }
                    acc.push(b);
                    cur = j + 1;
                } else if j < s.len() && s[j] == ']' {
                    proof {
                        assert(s@.skip(j as int)[0] == s@[j as int]);
                        assert(s@.skip(j as int).drop_first() =~= s@.skip(j as int + 1));
                        assert(p_book_items(s@.skip(cur as int)) == Some(
                            (seq![b@], s@.skip(j as int + 1)),
                        ));
                        assert(acc@.map_values(|bk: Book| bk@) + seq![b@] =~= acc@.push(
                            b,
                        ).map_values(|bk: Book| bk@));
                    }
                    acc.push(b);
                    return Some((acc, j + 1));
                } else {
                    proof {
                        if j < s@.len() {
                            assert(s@.skip(j as int)[0] == s@[j as int]);
                        } else {
                            assert(s@.skip(j as int).len() == 0);
                        }
                    }
                    return None;
                }
            },
        }
    }
}

/// Consumes a book list.
fn parse_books(s: &Vec<char>, i: usize) -> (r: Option<(Vec<Book>, usize)>)
    requires
        i <= s@.len(),
    ensures
        match r {
            Some((v, j)) => i <= j <= s@.len() && p_books(s@.skip(i as int)) == Some(
                (v@.map_values(|b: Book| b@), s@.skip(j as int)),
            ),
            None => p_books(s@.skip(i as int)) is None,
        },
{
    match parse_lit(s, i, "[]") {
        Some(j) => {
            let v: Vec<Book> = Vec::new();
            proof {
                assert(v@.map_values(|b: Book| b@) =~= Seq::<BookAbs>::empty());
            }
            Some((v, j))
        },
        None => {
            if i < s.len() && s[i] == '[' {
                proof {
                    assert(s@.skip(i as int)[0] == s@[i as int]);
                    assert(s@.skip(i as int).drop_first() =~= s@.skip(i as int + 1));
                }
                parse_book_items(s, i + 1)
            } else {
                proof {
                    if i < s@.len() {
                        assert(s@.skip(i as int)[0] == s@[i as int]);
                    } else {
                        assert(s@.skip(i as int).len() == 0);
                    }
                }
                None
            }
        },
    }
}

/// Consumes a whole catalog document.
#[verifier::rlimit(100)]
fn parse_catalog(s: &Vec<char>, i: usize) -> (r: Option<(Catalog, usize)>)
    requires
        i <= s@.len(),
    ensures
        match r {
            Some((c, j)) => i <= j <= s@.len() && p_catalog(s@.skip(i as int)) == Some(
                (c@, s@.skip(j as int)),
            ),
            None => p_catalog(s@.skip(i as int)) is None,
        },
{
    let j1 = match parse_lit(s, i, "{\"theme\":") {
        Some(j) => j,
        None => {
            return None;
        },
    };
    let (theme, j2) = match parse_string(s, j1) {
        Some(p) => p,
        None => {
            return None;
        },
    };
    let j3 = match parse_lit(s, j2, ",\"hours_read_this_week\":") {
        Some(j) => j,
        None => {
            return None;
        },
    };
    let (hours_read_this_week, j4) = match parse_week(s, j3) {
        Some(p) => p,
        None => {
            return None;
        },
    };
    let j5 = match parse_lit(s, j4, ",\"average_hours_this_month\":") {
        Some(j) => j,
        None => {
            return None;
        },
    };
    let (average_hours_this_month, j6) = match parse_u16(s, j5) {
        Some(p) => p,
        None => {
            return None;
        },
    };
    let j7 = match parse_lit(s, j6, ",\"most_active_day\":") {
        Some(j) => j,
        None => {
            return None;
        },
    };
    let (most_active_day, j8) = match parse_date(s, j7) {
        Some(p) => p,
        None => {
            return None;
        },
    };
    let j9 = match parse_lit(s, j8, ",\"books\":") {
        Some(j) => j,
        None => {
            return None;
        },
    };
    let (books, j10) = match parse_books(s, j9) {
        Some(p) => p,
        None => {
            return None;
        },
    };
    let j11 = match parse_lit(s, j10, "}") {
        Some(j) => j,
        None => {
            return None;
        },
    };
    let c = Catalog::from_parts(
        theme,
        hours_read_this_week,
        average_hours_this_month,
        most_active_day,
        books,
    );
    Some((c, j11))
}

/// Decodes a persisted catalog document.  It succeeds exactly when the whole
/// text is one catalog of the format, and then returns that catalog.
pub fn decode_catalog(text: &str) -> (r: Option<Catalog>)
    ensures
        match p_catalog(text@) {
            Some((cab, rest)) => {
                if rest.len() == 0 {
                    match r {
                        Some(c) => c@ == cab,
                        None => false,
                    }
                } else {
                    r is None
                }
            },
            None => r is None,
        },
{
    let chars = crate::strutil::chars_of(text);
    proof {
        assert(chars@.skip(0) =~= text@);
    }
    match parse_catalog(&chars, 0) {
        Some((c, j)) => {
            if j == chars.len() {
                proof {
                    assert(chars@.skip(j as int).len() == 0);
                    assert(chars@.skip(j as int) =~= Seq::<char>::empty());
                }
                Some(c)
            } else {
                proof {
                    assert(chars@.skip(j as int).len() > 0);
                }
                None
            }
        },
        None => None,
    }
}

} // verus!
