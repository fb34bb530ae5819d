//! The data model of the catalog: book records, text highlights, and the small
//! value types (dates, durations, timestamps) that they carry.
use vstd::prelude::*;

verus! {

/// A calendar date, kept as plain fields.
#[derive(Clone, Copy, PartialEq, Eq, Structural, Debug)]
pub struct Date {
    pub year: i32,
    pub month: u32,
    pub day: u32,
}

impl Date {
    /// A date is meaningful only with a calendar month and day.
    pub open spec fn wf(self) -> bool {
        &&& 1 <= self.month <= 12
        &&& 1 <= self.day <= 31
    }
}

/// A non-negative span of time: whole seconds plus a sub-second remainder.
#[derive(Clone, Copy, PartialEq, Eq, Structural, Debug)]
pub struct TimeSpan {
    pub secs: u64,
    pub nanos: u32,
}

impl TimeSpan {
    /// The nanosecond part never reaches a whole second.
    pub open spec fn wf(self) -> bool {
        self.nanos < 1_000_000_000
    }

    pub fn zero() -> (r: TimeSpan)
        ensures
            r == (TimeSpan { secs: 0, nanos: 0 }),
            r.wf(),
    {
        TimeSpan { secs: 0, nanos: 0 }
    }
}

/// A point in time: seconds since the epoch plus a sub-second remainder.
#[derive(Clone, Copy, PartialEq, Eq, Structural, Debug)]
pub struct Timestamp {
    pub secs: u64,
    pub nanos: u32,
}

impl Timestamp {
    /// The nanosecond part never reaches a whole second.
    pub open spec fn wf(self) -> bool {
        self.nanos < 1_000_000_000
    }
}

/// The fixed palette of highlight colors.
#[derive(Clone, Copy, PartialEq, Eq, Structural, Debug)]
#[allow(non_camel_case_types)]
pub enum TextHighlightColor {
    RED,
    BLUE,
    CYAN,
    GREEN,
    GRAY,
    PINK,
    YELLOW,
    PURPLE,
}

/// One highlighted span of text inside a book.
#[derive(Clone, Copy, PartialEq, Eq, Structural, Debug)]
pub struct TextHighlight {
    pub page_number: u16,
    pub line_number: u16,
    pub start_pos: u16,
    pub length: u16,
    pub color: TextHighlightColor,
}

/// One book record of the catalog.
#[derive(Debug)]
pub struct Book {
    pub id: String,
    pub name: String,
    pub description: String,
    pub current_page: u16,
    pub page_count: u64,
    pub score: Option<u32>,
    pub is_favorite: bool,
    pub is_open: bool,
    pub time_spent: TimeSpan,
    pub completed_at: Option<Timestamp>,
    pub last_time_opened: Option<Timestamp>,
    pub text_highlights: Vec<TextHighlight>,
    pub file_size: u64,
    pub book_path: String,
    pub thumbnail_path: String,
}

/// The mathematical value of a book record: strings and vectors replaced by
/// their sequences.
#[verifier::ext_equal]
pub struct BookAbs {
    pub id: Seq<char>,
    pub name: Seq<char>,
    pub description: Seq<char>,
    pub current_page: u16,
    pub page_count: u64,
    pub score: Option<u32>,
    pub is_favorite: bool,
    pub is_open: bool,
    pub time_spent: TimeSpan,
    pub completed_at: Option<Timestamp>,
    pub last_time_opened: Option<Timestamp>,
    pub text_highlights: Seq<TextHighlight>,
    pub file_size: u64,
    pub book_path: Seq<char>,
    pub thumbnail_path: Seq<char>,
}

impl View for Book {
    type V = BookAbs;

    open spec fn view(&self) -> BookAbs {
        BookAbs {
            id: self.id@,
            name: self.name@,
            description: self.description@,
            current_page: self.current_page,
            page_count: self.page_count,
            score: self.score,
            is_favorite: self.is_favorite,
            is_open: self.is_open,
            time_spent: self.time_spent,
            completed_at: self.completed_at,
            last_time_opened: self.last_time_opened,
            text_highlights: self.text_highlights@,
            file_size: self.file_size,
            book_path: self.book_path@,
            thumbnail_path: self.thumbnail_path@,
        }
    }
}

impl BookAbs {
    /// A record is well formed when its time values carry proper sub-second
    /// parts and, once the page count is known, the reading position does not
    /// pass the end of the book.
    pub open spec fn wf(self) -> bool {
        &&& self.time_spent.wf()
        &&& (self.completed_at matches Some(t) ==> t.wf())
        &&& (self.last_time_opened matches Some(t) ==> t.wf())
        &&& (self.page_count > 0 ==> self.current_page as int <= self.page_count as int)
    }
}

impl Book {
    /// Whether this record satisfies the model invariant.
    pub fn is_well_formed(&self) -> (r: bool)
        ensures
            r == self@.wf(),
    {
        self.time_spent.nanos < 1_000_000_000
            && (match self.completed_at {
                Some(t) => t.nanos < 1_000_000_000,
                None => true,
            })
            && (match self.last_time_opened {
                Some(t) => t.nanos < 1_000_000_000,
                None => true,
            })
            && (self.page_count == 0 || self.current_page as u64 <= self.page_count)
    }
}

impl Clone for Book {
    /// Cloning keeps the record's value.
    fn clone(&self) -> (r: Self)
        ensures
            r@ == self@,
    {
        Book {
            id: self.id.clone(),
            name: self.name.clone(),
            description: self.description.clone(),
            current_page: self.current_page,
            page_count: self.page_count,
            score: self.score,
            is_favorite: self.is_favorite,
            is_open: self.is_open,
            time_spent: self.time_spent,
            completed_at: self.completed_at,
            last_time_opened: self.last_time_opened,
            text_highlights: clone_highlights(&self.text_highlights),
            file_size: self.file_size,
            book_path: self.book_path.clone(),
            thumbnail_path: self.thumbnail_path.clone(),
        }
    }
}

/// Copies a highlight list element by element.
fn clone_highlights(v: &Vec<TextHighlight>) -> (r: Vec<TextHighlight>)
    ensures
        r@ == v@,
{
    let mut r: Vec<TextHighlight> = Vec::new();
    let mut i: usize = 0;
    while i < v.len()
        invariant
            i <= v.len(),
            r@ == v@.take(i as int),
        decreases v.len() - i,
    {
        r.push(v[i]);
        i = i + 1;
        proof {
            assert(r@ =~= v@.take(i as int));
        }
    }
    proof {
        assert(r@ =~= v@);
    }
    r
}

} // verus!
