//! The catalog: the ordered collection of book records together with the
//! user's preferences, unique by book identifier.
use vstd::prelude::*;

use crate::model::Book;
use crate::model::BookAbs;
use crate::model::Date;

verus! {

/// The mathematical value of a catalog.
#[verifier::ext_equal]
pub struct CatalogAbs {
    pub theme: Seq<char>,
    pub hours_read_this_week: Seq<u8>,
    pub average_hours_this_month: u16,
    pub most_active_day: Date,
    pub books: Seq<BookAbs>,
}

/// The first record carrying the identifier, if any.
pub open spec fn find_id(books: Seq<BookAbs>, id: Seq<char>) -> Option<BookAbs>
    decreases books.len(),
{
    if books.len() == 0 {
        None
    } else if books[0].id == id {
        Some(books[0])
    } else {
        find_id(books.drop_first(), id)
    }
}

pub open spec fn has_id(books: Seq<BookAbs>, id: Seq<char>) -> bool {
    find_id(books, id) is Some
}

/// The collection with the first record of the identifier taken out.
pub open spec fn remove_id(books: Seq<BookAbs>, id: Seq<char>) -> Seq<BookAbs>
    decreases books.len(),
{
    if books.len() == 0 {
        books
    } else if books[0].id == id {
        books.drop_first()
    } else {
        seq![books[0]] + remove_id(books.drop_first(), id)
    }
}

/// The collection with the first record of `b`'s identifier replaced by `b`.
pub open spec fn replace_id(books: Seq<BookAbs>, b: BookAbs) -> Seq<BookAbs>
    decreases books.len(),
{
    if books.len() == 0 {
        books
    } else if books[0].id == b.id {
        seq![b] + books.drop_first()
    } else {
        seq![books[0]] + replace_id(books.drop_first(), b)
    }
}

/// No two records share an identifier.
pub open spec fn unique_ids(books: Seq<BookAbs>) -> bool {
    forall|i: int, j: int|
        0 <= i < j < books.len() ==> (#[trigger] books[i].id) != (#[trigger] books[j].id)
}

pub open spec fn all_wf(books: Seq<BookAbs>) -> bool {
    forall|i: int| 0 <= i < books.len() ==> (#[trigger] books[i]).wf()
}

impl CatalogAbs {
    /// The catalog invariant: seven weekly slots, a calendar date, well-formed
    /// records, and identifiers unique across the collection.
    pub open spec fn wf(self) -> bool {
        &&& self.hours_read_this_week.len() == 7
        &&& self.most_active_day.wf()
        &&& all_wf(self.books)
        &&& unique_ids(self.books)
    }
}

/// The in-memory catalog.  Its operations keep the invariant stated by
/// `CatalogAbs::wf`.
#[derive(Debug)]
pub struct Catalog {
    theme: String,
    hours_read_this_week: Vec<u8>,
    average_hours_this_month: u16,
    most_active_day: Date,
    books: Vec<Book>,
}

impl View for Catalog {
    type V = CatalogAbs;

    closed spec fn view(&self) -> CatalogAbs {
        CatalogAbs {
            theme: self.theme@,
            hours_read_this_week: self.hours_read_this_week@,
            average_hours_this_month: self.average_hours_this_month,
            most_active_day: self.most_active_day,
            books: self.books@.map_values(|b: Book| b@),
        }
    }
}

impl Catalog {
    /// A fresh catalog: dark theme, zeroed counters, no books.
    pub fn new(most_active_day: Date) -> (r: Catalog)
        requires
            most_active_day.wf(),
        ensures
            r@ == (CatalogAbs {
                theme: ("dark")@,
                hours_read_this_week: seq![0u8, 0u8, 0u8, 0u8, 0u8, 0u8, 0u8],
                average_hours_this_month: 0u16,
                most_active_day,
                books: Seq::empty(),
            }),
            r@.wf(),
    {
        let mut week: Vec<u8> = Vec::new();
        week.push(0);
        week.push(0);
        week.push(0);
        week.push(0);
        week.push(0);
        week.push(0);
        week.push(0);
        let r = Catalog {
            theme: String::from_str("dark"),
            hours_read_this_week: week,
            average_hours_this_month: 0,
            most_active_day,
            books: Vec::new(),
        };
        proof {
            assert(r@.hours_read_this_week =~= seq![0u8, 0u8, 0u8, 0u8, 0u8, 0u8, 0u8]);
            assert(r@.books =~= Seq::<BookAbs>::empty());
            assert(r@ =~= (CatalogAbs {
                theme: ("dark")@,
                hours_read_this_week: seq![0u8, 0u8, 0u8, 0u8, 0u8, 0u8, 0u8],
                average_hours_this_month: 0u16,
                most_active_day,
                books: Seq::empty(),
            }));
        }
        r
    }

    /// Builds a catalog from parts; used when a persisted snapshot is decoded.
    pub fn from_parts(
        theme: String,
        hours_read_this_week: Vec<u8>,
        average_hours_this_month: u16,
        most_active_day: Date,
        books: Vec<Book>,
    ) -> (r: Catalog)
        ensures
            r@ == (CatalogAbs {
                theme: theme@,
                hours_read_this_week: hours_read_this_week@,
                average_hours_this_month,
                most_active_day,
                books: books@.map_values(|b: Book| b@),
            }),
    {
        Catalog { theme, hours_read_this_week, average_hours_this_month, most_active_day, books }
    }

    /// The weekly reading counters.
    pub fn week_ref(&self) -> (r: &Vec<u8>)
        ensures
            r@ == self@.hours_read_this_week,
    {
        &self.hours_read_this_week
    }

    /// The monthly average counter.
    pub fn average_hours(&self) -> (r: u16)
        ensures
            r == self@.average_hours_this_month,
    {
        self.average_hours_this_month
    }

    /// The most active reading day.
    pub fn most_active_day(&self) -> (r: Date)
        ensures
            r == self@.most_active_day,
    {
        self.most_active_day
    }

    /// The stored records themselves, for read-only walks.
    pub fn books_ref(&self) -> (r: &Vec<Book>)
        ensures
            r@.map_values(|b: Book| b@) == self@.books,
    {
        &self.books
    }

    pub fn get_theme(&self) -> (r: &String)
        ensures
            r@ == self@.theme,
    {
        &self.theme
    }

    pub fn set_theme(&mut self, theme: String)
        ensures
            final(self)@ == (CatalogAbs { theme: theme@, ..old(self)@ }),
    {
        self.theme = theme;
    }

    /// A snapshot copy of all records, in insertion order.
    pub fn get_books(&self) -> (r: Vec<Book>)
        ensures
            r@.map_values(|b: Book| b@) == self@.books,
    {
        let mut r: Vec<Book> = Vec::new();
        let mut i: usize = 0;
        while i < self.books.len()
            invariant
                i <= self.books.len(),
                r@.len() == i,
                forall|k: int| 0 <= k < i ==> (#[trigger] r@[k])@ == self.books@[k]@,
            decreases self.books.len() - i,
        {
            r.push(self.books[i].clone());
            i = i + 1;
        }
        proof {
            assert(r@.map_values(|b: Book| b@) =~= self@.books);
        }
        r
    }

    /// The number of records.
    pub fn book_count(&self) -> (r: usize)
        ensures
            r == self@.books.len(),
    {
        self.books.len()
    }

    /// The first record with the identifier, if any.
    pub fn get_book(&self, book_id: &str) -> (r: Option<&Book>)
        ensures
            match r {
                Some(b) => find_id(self@.books, book_id@) == Some(b@),
                None => find_id(self@.books, book_id@) is None,
            },
    {
        let ghost all = self@.books;
        proof {
            assert(all.skip(0) =~= all);
        }
        let mut i: usize = 0;
        while i < self.books.len()
            invariant
                i <= self.books.len(),
                all == self@.books,
                find_id(all, book_id@) == find_id(all.skip(i as int), book_id@),
            decreases self.books.len() - i,
        {
            proof {
                assert(all.skip(i as int)[0] == all[i as int]);
                assert(all[i as int] == self.books@[i as int]@);
            }
            if crate::strutil::str_eq(self.books[i].id.as_str(), book_id) {
                return Some(&self.books[i]);
            }
            proof {
                assert(all.skip(i as int).drop_first() =~= all.skip(i as int + 1));
            }
            i = i + 1;
        }
        proof {
            assert(all.skip(i as int) =~= Seq::<BookAbs>::empty());
        }
        None
    }

    /// Whether a record with the identifier is present.
    pub fn has_book(&self, book_id: &str) -> (r: bool)
        ensures
            r == has_id(self@.books, book_id@),
    {
        self.get_book(book_id).is_some()
    }

    /// Appends a record.  The caller supplies a fresh identifier; appending
    /// keeps the invariant.
    pub fn add_book(&mut self, book: Book)
        requires
            old(self)@.wf(),
            book@.wf(),
            !has_id(old(self)@.books, book@.id),
        ensures
            final(self)@ == (CatalogAbs { books: old(self)@.books.push(book@), ..old(self)@ }),
            final(self)@.wf(),
    {
        let ghost pre = self@.books;
        let ghost b = book@;
        self.books.push(book);
        proof {
            assert(self@.books =~= pre.push(b));
            lemma_has_id_index(pre, b.id);
            assert forall|i: int, j: int| 0 <= i < j < self@.books.len() implies (
            #[trigger] self@.books[i].id) != (#[trigger] self@.books[j].id) by {
                if j < pre.len() {
                    assert(pre[i].id != pre[j].id);
                } else {
                    assert(self@.books[j] == b);
                    assert(self@.books[i] == pre[i]);
                }
            }
        }
    }

    /// Removes the first record with the identifier, reporting whether one was
    /// present.
    #[verifier::loop_isolation(false)]
    pub fn delete_book(&mut self, book_id: &str) -> (r: bool)
        requires
            old(self)@.wf(),
        ensures
            final(self)@ == (CatalogAbs {
                books: remove_id(old(self)@.books, book_id@),
                ..old(self)@
            }),
            r == has_id(old(self)@.books, book_id@),
            final(self)@.wf(),
            !has_id(final(self)@.books, book_id@),
    {
        let ghost pre = self@;
        let ghost all = self@.books;
        proof {
            assert(all.skip(0) =~= all);
            assert(all.take(0) + remove_id(all.skip(0), book_id@) =~= remove_id(all, book_id@));
        }
        let mut i: usize = 0;
        while i < self.books.len()
            invariant
                i <= self.books.len(),
                self@ == pre,
                all == pre.books,
                pre.wf(),
                forall|k: int| 0 <= k < i ==> (#[trigger] all[k].id) != book_id@,
                find_id(all, book_id@) == find_id(all.skip(i as int), book_id@),
                remove_id(all, book_id@) =~= all.take(i as int) + remove_id(
                    all.skip(i as int),
                    book_id@,
                ),
            decreases self.books.len() - i,
        {
            proof {
                assert(all.skip(i as int)[0] == all[i as int]);
                assert(all[i as int] == self.books@[i as int]@);
            }
            if crate::strutil::str_eq(self.books[i].id.as_str(), book_id) {
                proof {
                    assert(all[i as int].id == book_id@);
                    assert(find_id(all.skip(i as int), book_id@) == Some(all[i as int]));
                }
                self.books.remove(i);
                proof {
                    assert(all.skip(i as int).drop_first() =~= all.skip(i as int + 1));
                    assert(self@.books =~= all.take(i as int) + all.skip(i as int + 1));
                    assert(self@.books =~= remove_id(all, book_id@));
                    lemma_remove_id_wf(all, book_id@);
                }
                return true;
            }
            proof {
                assert(all.skip(i as int).drop_first() =~= all.skip(i as int + 1));
                assert(all.take(i as int + 1) =~= all.take(i as int) + seq![all[i as int]]);
                assert(all.take(i as int) + remove_id(all.skip(i as int), book_id@) =~= all.take(
                    i as int + 1,
                ) + remove_id(all.skip(i as int + 1), book_id@));
            }
            i = i + 1;
        }
        proof {
            assert(all.skip(i as int) =~= Seq::<BookAbs>::empty());
            assert(remove_id(all, book_id@) =~= all.take(i as int));
            assert(all.take(i as int) =~= all);
            lemma_remove_id_wf(all, book_id@);
        }
        false
    }

    /// Replaces the first record carrying `book`'s identifier, reporting
    /// whether one was present.  When none is, the catalog is unchanged.
    #[verifier::loop_isolation(false)]
    pub fn replace_book(&mut self, book: Book) -> (r: bool)
        requires
            old(self)@.wf(),
            book@.wf(),
        ensures
            r == has_id(old(self)@.books, book@.id),
            r ==> final(self)@ == (CatalogAbs {
                books: replace_id(old(self)@.books, book@),
                ..old(self)@
            }),
            !r ==> final(self)@ == old(self)@,
            final(self)@.wf(),
    {
        let ghost pre = self@;
        let ghost all = self@.books;
        let ghost b = book@;
        proof {
            assert(all.skip(0) =~= all);
            assert(all.take(0) + replace_id(all.skip(0), b) =~= replace_id(all, b));
        }
        let mut i: usize = 0;
        while i < self.books.len()
            invariant
                i <= self.books.len(),
                self@ == pre,
                all == pre.books,
                pre.wf(),
                book@ == b,
                b.wf(),
                forall|k: int| 0 <= k < i ==> (#[trigger] all[k].id) != b.id,
                find_id(all, b.id) == find_id(all.skip(i as int), b.id),
                replace_id(all, b) =~= all.take(i as int) + replace_id(all.skip(i as int), b),
            decreases self.books.len() - i,
        {
            proof {
                assert(all.skip(i as int)[0] == all[i as int]);
                assert(all[i as int] == self.books@[i as int]@);
            }
            if crate::strutil::str_eq(self.books[i].id.as_str(), book.id.as_str()) {
                proof {
                    assert(all[i as int].id == b.id);
                    assert(find_id(all.skip(i as int), b.id) == Some(all[i as int]));
                }
                self.books.set(i, book);
                proof {
                    assert(all.skip(i as int).drop_first() =~= all.skip(i as int + 1));
                    assert(self@.books =~= all.update(i as int, b));
                    assert(all.update(i as int, b) =~= all.take(i as int) + (seq![b]
                        + all.skip(i as int + 1)));
                    assert(self@.books =~= replace_id(all, b));
                    assert forall|p: int, q: int| 0 <= p < q < self@.books.len() implies (
                    #[trigger] self@.books[p].id) != (#[trigger] self@.books[q].id) by {
                        assert(all[p].id != all[q].id);
                        assert(self@.books[p] == all.update(i as int, b)[p]);
                        assert(self@.books[q] == all.update(i as int, b)[q]);
                        assert(self@.books[p].id == all[p].id);
                        assert(self@.books[q].id == all[q].id);
                    }
                }
                return true;
            }
            proof {
                assert(all.skip(i as int).drop_first() =~= all.skip(i as int + 1));
                assert(all.take(i as int + 1) =~= all.take(i as int) + seq![all[i as int]]);
                assert(all.take(i as int) + replace_id(all.skip(i as int), b) =~= all.take(
                    i as int + 1,
                ) + replace_id(all.skip(i as int + 1), b));
            }
            i = i + 1;
        }
        proof {
            assert(all.skip(i as int) =~= Seq::<BookAbs>::empty());
        }
        false
    }
}

impl Catalog {
    /// Whether the whole catalog satisfies its invariant.
    #[verifier::loop_isolation(false)]
    pub fn check_wf(&self) -> (r: bool)
        ensures
            r == self@.wf(),
    {
        if self.hours_read_this_week.len() != 7 {
            return false;
        }
        let d = self.most_active_day;
        if !(1 <= d.month && d.month <= 12 && 1 <= d.day && d.day <= 31) {
            return false;
        }
        let n = self.books.len();
        let mut i: usize = 0;
        while i < n
            invariant
                i <= n,
                forall|p: int| 0 <= p < i ==> (#[trigger] self@.books[p]).wf(),
                forall|p: int, q: int|
                    0 <= p < q < i ==> (#[trigger] self@.books[p].id) != (
                    #[trigger] self@.books[q].id),
            decreases n - i,
        {
            proof {
                assert(self@.books[i as int] == self.books@[i as int]@);
            }
            if !self.books[i].is_well_formed() {
                proof {
                    assert(!self@.books[i as int].wf());
                }
                return false;
            }
            let mut j: usize = 0;
            while j < i
                invariant
                    j <= i < n,
                    forall|q: int| 0 <= q < j ==> (#[trigger] self@.books[q].id) != self@.books[i as int].id,
                decreases i - j,
            {
                proof {
                    assert(self@.books[j as int] == self.books@[j as int]@);
                    assert(self@.books[i as int] == self.books@[i as int]@);
                }
                if crate::strutil::str_eq(self.books[j].id.as_str(), self.books[i].id.as_str()) {
                    proof {
                        assert(self@.books[j as int].id == self@.books[i as int].id);
                    }
                    return false;
                }
                j = j + 1;
            }
            i = i + 1;
        }
        true
    }
}

/// A present identifier has an index, and an identifier with an index is
/// present.
pub proof fn lemma_has_id_index(books: Seq<BookAbs>, id: Seq<char>)
    ensures
        has_id(books, id) <==> exists|i: int| 0 <= i < books.len() && (#[trigger] books[i].id)
            == id,
    decreases books.len(),
{
    if books.len() > 0 {
        lemma_has_id_index(books.drop_first(), id);
        if books[0].id == id {
            assert(books[0].id == id);
        } else {
            if has_id(books.drop_first(), id) {
                let i = choose|i: int|
                    0 <= i < books.drop_first().len() && (#[trigger] books.drop_first()[i].id)
                        == id;
                assert(books[i + 1].id == id);
            }
            if exists|i: int| 0 <= i < books.len() && (#[trigger] books[i].id) == id {
                let i = choose|i: int| 0 <= i < books.len() && (#[trigger] books[i].id) == id;
                assert(books.drop_first()[i - 1].id == id);
            }
        }
    }
}

/// Unique identifiers and well-formedness carry over to the tail of a
/// collection.
proof fn lemma_drop_first_props(books: Seq<BookAbs>)
    requires
        books.len() > 0,
    ensures
        unique_ids(books) ==> unique_ids(books.drop_first()),
        all_wf(books) ==> all_wf(books.drop_first()),
{
    let rest = books.drop_first();
    if unique_ids(books) {
        assert forall|i: int, j: int| 0 <= i < j < rest.len() implies (#[trigger] rest[i].id) != (
        #[trigger] rest[j].id) by {
            assert(books[i + 1].id != books[j + 1].id);
        }
    }
    if all_wf(books) {
        assert forall|i: int| 0 <= i < rest.len() implies (#[trigger] rest[i]).wf() by {
            assert(books[i + 1].wf());
        }
    }
}

/// Removing an absent identifier changes nothing; removing a present one
/// shortens the collection by one record.
proof fn lemma_remove_id_len(books: Seq<BookAbs>, id: Seq<char>)
    ensures
        !has_id(books, id) ==> remove_id(books, id) == books,
        has_id(books, id) ==> remove_id(books, id).len() == books.len() - 1,
        !has_id(books, id) ==> remove_id(books, id).len() == books.len(),
    decreases books.len(),
{
    if books.len() == 0 {
        assert(remove_id(books, id) =~= books);
    } else if books[0].id == id {
    } else {
        lemma_remove_id_len(books.drop_first(), id);
        if !has_id(books, id) {
            assert(remove_id(books, id) =~= books);
        }
    }
}

/// Every record of `remove_id`'s result occurs in the original collection.
pub proof fn lemma_remove_in(books: Seq<BookAbs>, id: Seq<char>)
    ensures
        forall|i: int|
            0 <= i < remove_id(books, id).len() ==> exists|k: int|
                0 <= k < books.len() && books[k] == (#[trigger] remove_id(books, id)[i]),
    decreases books.len(),
{
    if books.len() == 0 {
    } else if books[0].id == id {
        assert forall|i: int| 0 <= i < remove_id(books, id).len() implies exists|k: int|
            0 <= k < books.len() && books[k] == (#[trigger] remove_id(books, id)[i]) by {
            assert(books[i + 1] == remove_id(books, id)[i]);
        }
    } else {
        let rest = books.drop_first();
        lemma_remove_in(rest, id);
        let r = remove_id(books, id);
        assert forall|i: int| 0 <= i < r.len() implies exists|k: int|
            0 <= k < books.len() && books[k] == (#[trigger] r[i]) by {
            if i == 0 {
                assert(books[0] == r[0]);
            } else {
                assert(r[i] == remove_id(rest, id)[i - 1]);
                let k = choose|k: int| 0 <= k < rest.len() && rest[k] == remove_id(rest, id)[i - 1];
                assert(books[k + 1] == r[i]);
            }
        }
    }
}

/// Removing an identifier keeps identifiers unique and leaves none of that
/// identifier behind.
proof fn lemma_remove_id_unique(books: Seq<BookAbs>, id: Seq<char>)
    requires
        unique_ids(books),
    ensures
        unique_ids(remove_id(books, id)),
        !has_id(remove_id(books, id), id),
    decreases books.len(),
{
    if books.len() == 0 {
    } else if books[0].id == id {
        let rest = books.drop_first();
        lemma_drop_first_props(books);
        lemma_has_id_index(rest, id);
        if has_id(rest, id) {
            let i = choose|i: int| 0 <= i < rest.len() && (#[trigger] rest[i].id) == id;
            assert(books[0].id == books[i + 1].id);
            assert(false);
        }
    } else {
        let rest = books.drop_first();
        lemma_drop_first_props(books);
        lemma_remove_id_unique(rest, id);
        lemma_remove_in(rest, id);
        let rr = remove_id(rest, id);
        let r = seq![books[0]] + rr;
        assert(r[0] == books[0]);
        assert forall|i: int, j: int| 0 <= i < j < r.len() implies (#[trigger] r[i].id) != (
        #[trigger] r[j].id) by {
            if i == 0 {
                let k = choose|k: int| 0 <= k < rest.len() && rest[k] == rr[j - 1];
                assert(books[0].id != books[k + 1].id);
            } else {
                assert(rr[i - 1].id != rr[j - 1].id);
            }
        }
        assert(r.drop_first() =~= rr);
        assert(!has_id(r, id));
    }
}

/// Removing one identifier does not disturb the lookup of any other.
proof fn lemma_remove_id_find(books: Seq<BookAbs>, id: Seq<char>)
    ensures
        forall|other: Seq<char>|
            other != id ==> #[trigger] find_id(remove_id(books, id), other) == find_id(
                books,
                other,
            ),
    decreases books.len(),
{
    if books.len() == 0 {
    } else if books[0].id == id {
        let rest = books.drop_first();
        assert forall|other: Seq<char>| other != id implies #[trigger] find_id(
            remove_id(books, id),
            other,
        ) == find_id(books, other) by {
            assert(find_id(books, other) == find_id(rest, other));
        }
    } else {
        let rest = books.drop_first();
        lemma_remove_id_find(rest, id);
        let rr = remove_id(rest, id);
        let r = seq![books[0]] + rr;
        assert forall|other: Seq<char>| other != id implies #[trigger] find_id(
            remove_id(books, id),
            other,
        ) == find_id(books, other) by {
            assert(r[0] == books[0]);
            assert(r.drop_first() =~= rr);
            if books[0].id == other {
                assert(find_id(r, other) == Some(books[0]));
                assert(find_id(books, other) == Some(books[0]));
            } else {
                assert(find_id(r, other) == find_id(rr, other));
                assert(find_id(rr, other) == find_id(rest, other));
                assert(find_id(books, other) == find_id(rest, other));
            }
        }
    }
}

/// Removing an identifier keeps well-formedness and uniqueness, removes that
/// identifier entirely, and leaves every other identifier's first record as it
/// was.
pub proof fn lemma_remove_id_wf(books: Seq<BookAbs>, id: Seq<char>)
    requires
        all_wf(books),
        unique_ids(books),
    ensures
        all_wf(remove_id(books, id)),
        unique_ids(remove_id(books, id)),
        !has_id(remove_id(books, id), id),
        forall|other: Seq<char>|
            other != id ==> #[trigger] find_id(remove_id(books, id), other) == find_id(
                books,
                other,
            ),
        !has_id(books, id) ==> remove_id(books, id) == books,
        has_id(books, id) ==> remove_id(books, id).len() == books.len() - 1,
        !has_id(books, id) ==> remove_id(books, id).len() == books.len(),
{
    lemma_remove_id_len(books, id);
    lemma_remove_in(books, id);
    lemma_remove_id_unique(books, id);
    lemma_remove_id_find(books, id);
    let r = remove_id(books, id);
    assert forall|i: int| 0 <= i < r.len() implies (#[trigger] r[i]).wf() by {
        let k = choose|k: int| 0 <= k < books.len() && books[k] == r[i];
        assert(books[k].wf());
    }
}


/// A found record is one of the stored records, under its identifier.
pub proof fn lemma_find_id_index(books: Seq<BookAbs>, id: Seq<char>)
    ensures
        find_id(books, id) matches Some(b) ==> exists|i: int|
            0 <= i < books.len() && (#[trigger] books[i]) == b && b.id == id,
    decreases books.len(),
{
    if books.len() > 0 {
        if books[0].id == id {
            assert(books[0] == find_id(books, id).unwrap());
        } else {
            lemma_find_id_index(books.drop_first(), id);
            if find_id(books, id) is Some {
                let b = find_id(books, id).unwrap();
                let i = choose|i: int|
                    0 <= i < books.drop_first().len() && (#[trigger] books.drop_first()[i]) == b
                        && b.id == id;
                assert(books[i + 1] == b);
            }
        }
    }
}

/// Under unique identifiers, looking a record's own identifier up finds it.
pub proof fn lemma_find_id_self(books: Seq<BookAbs>, k: int)
    requires
        unique_ids(books),
        0 <= k < books.len(),
    ensures
        find_id(books, books[k].id) == Some(books[k]),
    decreases books.len(),
{
    if k == 0 {
    } else {
        assert(books[0].id != books[k].id);
        let rest = books.drop_first();
        assert forall|i: int, j: int| 0 <= i < j < rest.len() implies (#[trigger] rest[i].id) != (
        #[trigger] rest[j].id) by {
            assert(books[i + 1].id != books[j + 1].id);
        }
        lemma_find_id_self(rest, k - 1);
        assert(rest[k - 1] == books[k]);
    }
}

/// Replacing changes at most the first record carrying the identifier, in
/// place.
pub proof fn lemma_replace_id_pointwise(books: Seq<BookAbs>, b: BookAbs)
    ensures
        replace_id(books, b).len() == books.len(),
        forall|k: int|
            0 <= k < books.len() ==> ((#[trigger] replace_id(books, b)[k]) == books[k] || (
            replace_id(books, b)[k] == b && books[k].id == b.id)),
    decreases books.len(),
{
    if books.len() == 0 {
    } else if books[0].id == b.id {
        let r = replace_id(books, b);
        assert forall|k: int| 0 <= k < books.len() implies ((#[trigger] r[k]) == books[k] || (r[k]
            == b && books[k].id == b.id)) by {
            if k > 0 {
                assert(r[k] == books[k]);
            }
        }
    } else {
        let rest = books.drop_first();
        lemma_replace_id_pointwise(rest, b);
        let r = replace_id(books, b);
        assert(r == seq![books[0]] + replace_id(rest, b));
        assert forall|k: int| 0 <= k < books.len() implies ((#[trigger] r[k]) == books[k] || (r[k]
            == b && books[k].id == b.id)) by {
            if k > 0 {
                assert(r[k] == replace_id(rest, b)[k - 1]);
                assert(books[k] == rest[k - 1]);
            }
        }
    }
}

/// Deleting an absent identifier changes nothing, so deleting twice is the
/// same as deleting once.
pub proof fn lemma_delete_idempotent(books: Seq<BookAbs>, id: Seq<char>)
    requires
        all_wf(books),
        unique_ids(books),
    ensures
        remove_id(remove_id(books, id), id) == remove_id(books, id),
{
    lemma_remove_id_wf(books, id);
    lemma_remove_id_wf(remove_id(books, id), id);
}

} // verus!
