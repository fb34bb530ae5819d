//! The library service: the single gateway through which the catalog is read
//! and changed.  It keeps three things consistent: the in-memory catalog, the
//! set of managed files it knows to exist, and — through snapshots that the
//! caller persists after every mutation — the on-disk document.
//!
//! File-system work itself (copying a source file in, writing a thumbnail,
//! removing files, reading and writing the snapshot) happens outside; the
//! service decides what must be done, hands out the exact managed names, and
//! is told when the work succeeded.
use vstd::prelude::*;

use crate::catalog::find_id;
use crate::catalog::has_id;
use crate::catalog::remove_id;
use crate::catalog::replace_id;
use crate::catalog::lemma_has_id_index;
use crate::catalog::Catalog;
use crate::catalog::CatalogAbs;
use crate::json_enc::encode_catalog;
use crate::json_spec::enc_catalog;
use crate::model::Book;
use crate::model::BookAbs;
use crate::model::Date;
use crate::model::TimeSpan;
use crate::paths::book_file_path;
use crate::paths::lemma_managed_paths_distinct;
use crate::paths::spec_book_file;
use crate::paths::spec_extension;
use crate::paths::spec_file_stem;
use crate::paths::spec_thumb_file;
use crate::paths::thumb_file_path;
use crate::strutil::str_eq;

verus! {

/// What can go wrong in the library.
#[derive(Clone, Copy, PartialEq, Eq, Structural, Debug)]
pub enum LibraryError {
    /// No record carries the requested identifier.
    NotFound,
    /// The source file's extension names no supported document format.
    UnsupportedFormat,
    /// The document could not be read as one of its format.
    ExtractionError,
    /// A file could not be copied, written, removed, or would be overwritten.
    IoError,
    /// The persisted store exists but is not a catalog document.
    CorruptStore,
}

impl LibraryError {
    /// A short description of the failure.
    pub fn message(&self) -> (r: &'static str)
        ensures
            r@ == match *self {
                LibraryError::NotFound => ("book not found")@,
                LibraryError::UnsupportedFormat => ("unsupported document format")@,
                LibraryError::ExtractionError => ("document metadata extraction failed")@,
                LibraryError::IoError => ("file operation failed")@,
                LibraryError::CorruptStore => ("persisted store is corrupt")@,
            },
    {
        match *self {
            LibraryError::NotFound => "book not found",
            LibraryError::UnsupportedFormat => "unsupported document format",
            LibraryError::ExtractionError => "document metadata extraction failed",
            LibraryError::IoError => "file operation failed",
            LibraryError::CorruptStore => "persisted store is corrupt",
        }
    }
}

/// Relies on uuid::Uuid::new_v4 and its Display form: a freshly drawn random
/// identifier, printed as 36 lowercase hexadecimal digits and hyphens.
#[verifier::external_body]
fn fresh_book_id() -> (r: String)
    ensures
        r@.len() == 36,
        forall|i: int|
            0 <= i < r@.len() ==> (48 <= (#[trigger] r@[i]) as u32 <= 57 || 97 <= r@[i] as u32
                <= 102 || r@[i] == '-'),
{
    uuid::Uuid::new_v4().to_string()
}

/// Relies on chrono::Utc::now and the Datelike accessors: the current date,
/// whose month lies in 1..=12 and day in 1..=31.
#[verifier::external_body]
fn today_utc() -> (r: Date)
    ensures
        r.wf(),
{
    let now = chrono::Utc::now();
    Date {
        year: chrono::Datelike::year(&now),
        month: chrono::Datelike::month(&now),
        day: chrono::Datelike::day(&now),
    }
}

/// The mathematical value of the service: the catalog and the managed files
/// known to exist.
#[verifier::ext_equal]
pub struct ServiceAbs {
    pub catalog: CatalogAbs,
    pub files: Seq<Seq<char>>,
}

impl ServiceAbs {
    /// Every record's managed names are the ones derived from its identifier,
    /// and both are present among the managed files.
    pub open spec fn book_paths_ok(self) -> bool {
        forall|i: int|
            0 <= i < self.catalog.books.len() ==> {
                &&& (#[trigger] self.catalog.books[i]).book_path == spec_book_file(
                    self.catalog.books[i].id,
                )
                &&& self.catalog.books[i].thumbnail_path == spec_thumb_file(
                    self.catalog.books[i].id,
                )
                &&& self.files.contains(self.catalog.books[i].book_path)
                &&& self.files.contains(self.catalog.books[i].thumbnail_path)
            }
    }

    /// Whether some record owns this managed name.
    pub open spec fn covers(self, f: Seq<char>) -> bool {
        exists|i: int|
            0 <= i < self.catalog.books.len() && (f == (
            #[trigger] self.catalog.books[i]).book_path || f
                == self.catalog.books[i].thumbnail_path)
    }

    /// Every managed name the service vouches for belongs to some record.
    pub open spec fn files_covered(self) -> bool {
        forall|t: int| 0 <= t < self.files.len() ==> self.covers(#[trigger] self.files[t])
    }

    pub open spec fn files_unique(self) -> bool {
        forall|i: int, j: int|
            0 <= i < j < self.files.len() ==> (#[trigger] self.files[i]) != (
            #[trigger] self.files[j])
    }

    /// The service invariant.
    pub open spec fn wf(self) -> bool {
        &&& self.catalog.wf()
        &&& self.book_paths_ok()
        &&& self.files_unique()
        &&& self.files_covered()
    }
}

/// Whether every record of a catalog carries the managed names derived from
/// its identifier.
pub open spec fn paths_derived(c: CatalogAbs) -> bool {
    forall|i: int|
        0 <= i < c.books.len() ==> {
            &&& (#[trigger] c.books[i]).book_path == spec_book_file(c.books[i].id)
            &&& c.books[i].thumbnail_path == spec_thumb_file(c.books[i].id)
        }
}

/// The names of the managed files, as sequences.
pub open spec fn files_abs(files: Seq<String>) -> Seq<Seq<char>> {
    files.map_values(|s: String| s@)
}

/// A sequence with one more element holds exactly the old ones and the new
/// one.
proof fn lemma_push_contains<A>(s: Seq<A>, x: A, y: A)
    ensures
        s.push(x).contains(y) <==> (s.contains(y) || y == x),
{
    if s.contains(y) {
        let w = choose|w: int| 0 <= w < s.len() && s[w] == y;
        assert(s.push(x)[w] == y);
    }
    assert(s.push(x)[s.len() as int] == x);
    if s.push(x).contains(y) {
        let w = choose|w: int| 0 <= w < s.push(x).len() && s.push(x)[w] == y;
        if w < s.len() {
            assert(s[w] == y);
        }
    }
}

/// Coverage of the managed names depends only on the files and the records.
proof fn lemma_covered_same(a: ServiceAbs, b: ServiceAbs)
    requires
        a.files_covered(),
        b.files == a.files,
        b.catalog.books == a.catalog.books,
    ensures
        b.files_covered(),
{
    assert forall|t: int| 0 <= t < b.files.len() implies b.covers(#[trigger] b.files[t]) by {
        assert(a.files[t] == b.files[t]);
        assert(a.covers(a.files[t]));
        let k = choose|k: int|
            0 <= k < a.catalog.books.len() && (a.files[t] == (
            #[trigger] a.catalog.books[k]).book_path || a.files[t]
                == a.catalog.books[k].thumbnail_path);
        assert(b.catalog.books[k] == a.catalog.books[k]);
        assert(b.files[t] == b.catalog.books[k].book_path || b.files[t]
            == b.catalog.books[k].thumbnail_path);
    }
}

/// A present identifier points at a stored record of the same identifier, so
/// in particular at one whose identifier has that length.
proof fn lemma_stored_id_witness(s: ServiceAbs, id: Seq<char>)
    requires
        has_id(s.catalog.books, id),
    ensures
        exists|i: int|
            0 <= i < s.catalog.books.len() && (#[trigger] s.catalog.books[i]).id.len() == id.len(),
{
    crate::catalog::lemma_find_id_index(s.catalog.books, id);
    let b = find_id(s.catalog.books, id).unwrap();
    let i = choose|i: int|
        0 <= i < s.catalog.books.len() && (#[trigger] s.catalog.books[i]) == b && b.id == id;
    assert(s.catalog.books[i].id.len() == id.len());
}

/// Without a record for an identifier, a well-formed service vouches for
/// neither of the identifier's managed names.
proof fn lemma_no_record_no_files(s: ServiceAbs, id: Seq<char>)
    requires
        s.wf(),
        !has_id(s.catalog.books, id),
    ensures
        !s.files.contains(spec_book_file(id)),
        !s.files.contains(spec_thumb_file(id)),
{
    lemma_has_id_index(s.catalog.books, id);
    if s.files.contains(spec_book_file(id)) {
        let t = choose|t: int| 0 <= t < s.files.len() && s.files[t] == spec_book_file(id);
        assert(s.covers(s.files[t]));
        let i = choose|i: int|
            0 <= i < s.catalog.books.len() && (s.files[t] == (
            #[trigger] s.catalog.books[i]).book_path || s.files[t]
                == s.catalog.books[i].thumbnail_path);
        lemma_managed_paths_distinct(id, s.catalog.books[i].id);
        lemma_managed_paths_distinct(s.catalog.books[i].id, id);
        assert(s.catalog.books[i].id == id);
        assert(false);
    }
    if s.files.contains(spec_thumb_file(id)) {
        let t = choose|t: int| 0 <= t < s.files.len() && s.files[t] == spec_thumb_file(id);
        assert(s.covers(s.files[t]));
        let i = choose|i: int|
            0 <= i < s.catalog.books.len() && (s.files[t] == (
            #[trigger] s.catalog.books[i]).book_path || s.files[t]
                == s.catalog.books[i].thumbnail_path);
        lemma_managed_paths_distinct(id, s.catalog.books[i].id);
        lemma_managed_paths_distinct(s.catalog.books[i].id, id);
        assert(s.catalog.books[i].id == id);
        assert(false);
    }
}

/// The library service.
pub struct BookService {
    catalog: Catalog,
    files: Vec<String>,
}

impl View for BookService {
    type V = ServiceAbs;

    closed spec fn view(&self) -> ServiceAbs {
        ServiceAbs {
            catalog: self.catalog@,
            files: self.files@.map_values(|s: String| s@),
        }
    }
}

impl BookService {
    /// Builds the service around a loaded catalog, refusing one whose records
    /// break the invariant or point at managed names not derived from their
    /// identifiers.
    #[verifier::loop_isolation(false)]
    pub fn new(catalog: Catalog) -> (r: Result<BookService, LibraryError>)
        ensures
            (r is Ok) <==> (catalog@.wf() && paths_derived(catalog@)),
            match r {
                Ok(s) => {
                    &&& s@.catalog == catalog@
                    &&& s@.wf()
                    &&& forall|p: Seq<char>|
                        #[trigger] s@.files.contains(p) <==> exists|i: int|
                            0 <= i < catalog@.books.len() && (p == (
                            #[trigger] catalog@.books[i]).book_path || p
                                == catalog@.books[i].thumbnail_path)
                },
                Err(e) => e == LibraryError::CorruptStore,
            },
    {
        if !catalog.check_wf() {
            return Err(LibraryError::CorruptStore);
        }
        let books = catalog.books_ref();
        let n = books.len();
        let mut i: usize = 0;
        while i < n
            invariant
                i <= n,
                forall|k: int|
                    0 <= k < i ==> {
                        &&& (#[trigger] catalog@.books[k]).book_path == spec_book_file(
                            catalog@.books[k].id,
                        )
                        &&& catalog@.books[k].thumbnail_path == spec_thumb_file(
                            catalog@.books[k].id,
                        )
                    },
            decreases n - i,
        {
            proof {
                assert(catalog@.books[i as int] == books@[i as int]@);
            }
            let b = &books[i];
            let bp = book_file_path(b.id.as_str());
            if !str_eq(b.book_path.as_str(), bp.as_str()) {
                proof {
                    assert(!paths_derived(catalog@));
                }
                return Err(LibraryError::CorruptStore);
            }
            let tp = thumb_file_path(b.id.as_str());
            if !str_eq(b.thumbnail_path.as_str(), tp.as_str()) {
                proof {
                    assert(!paths_derived(catalog@));
                }
                return Err(LibraryError::CorruptStore);
            }
            i = i + 1;
        }
        let mut files: Vec<String> = Vec::new();
        let mut j: usize = 0;
        while j < n
            invariant
                j <= n,
                forall|p: Seq<char>|
                    #[trigger] files_abs(files@).contains(p) <==> exists|k: int|
                        0 <= k < j && (p == (#[trigger] catalog@.books[k]).book_path || p
                            == catalog@.books[k].thumbnail_path),
                forall|a: int, b: int|
                    0 <= a < b < files@.len() ==> (#[trigger] files_abs(files@)[a]) != (
                    #[trigger] files_abs(files@)[b]),
            decreases n - j,
        {
            let ghost pre = files_abs(files@);
            proof {
                assert(catalog@.books[j as int] == books@[j as int]@);
            }
            let b = &books[j];
            let bp = book_file_path(b.id.as_str());
            let tp = thumb_file_path(b.id.as_str());
            let ghost bpv = bp@;
            let ghost tpv = tp@;
            proof {
                assert forall|k: int| 0 <= k < j implies !(bpv == (
                #[trigger] catalog@.books[k]).book_path || bpv == catalog@.books[k].thumbnail_path)
                    by {
                    lemma_managed_paths_distinct(catalog@.books[j as int].id, catalog@.books[k].id);
                    lemma_managed_paths_distinct(catalog@.books[k].id, catalog@.books[j as int].id);
                }
                assert(!pre.contains(bpv));
            }
            files.push(bp);
            proof {
                assert(files_abs(files@) =~= pre.push(bpv));
                assert forall|k: int| 0 <= k < j implies !(tpv == (
                #[trigger] catalog@.books[k]).book_path || tpv == catalog@.books[k].thumbnail_path)
                    by {
                    lemma_managed_paths_distinct(catalog@.books[k].id, catalog@.books[j as int].id);
                    lemma_managed_paths_distinct(catalog@.books[j as int].id, catalog@.books[k].id);
                }
                assert(!pre.contains(tpv));
                assert(tpv != bpv) by {
                    lemma_managed_paths_distinct(
                        catalog@.books[j as int].id,
                        catalog@.books[j as int].id,
                    );
                }
                assert(!pre.push(bpv).contains(tpv)) by {
                    lemma_push_contains(pre, bpv, tpv);
                }
            }
            let ghost mid = files_abs(files@);
            files.push(tp);
            proof {
                assert(files_abs(files@) =~= mid.push(tpv));
                let cur = files_abs(files@);
                assert forall|p: Seq<char>| #[trigger] cur.contains(p) <==> exists|k: int|
                    0 <= k < j + 1 && (p == (#[trigger] catalog@.books[k]).book_path || p
                        == catalog@.books[k].thumbnail_path) by {
                    lemma_push_contains(mid, tpv, p);
                    lemma_push_contains(pre, bpv, p);
                    if cur.contains(p) {
                        if pre.contains(p) {
                        } else {
                            assert(p == bpv || p == tpv);
                            assert(p == catalog@.books[j as int].book_path || p
                                == catalog@.books[j as int].thumbnail_path);
                        }
                    }
                    if exists|k: int|
                        0 <= k < j + 1 && (p == (#[trigger] catalog@.books[k]).book_path || p
                            == catalog@.books[k].thumbnail_path) {
                        let k = choose|k: int|
                            0 <= k < j + 1 && (p == (#[trigger] catalog@.books[k]).book_path || p
                                == catalog@.books[k].thumbnail_path);
                        if k < j {
                            assert(pre.contains(p));
                        }
                    }
                }
                assert forall|a: int, b: int| 0 <= a < b < cur.len() implies (#[trigger] cur[a])
                    != (#[trigger] cur[b]) by {
                    if b < mid.len() {
                        if b < pre.len() {
                        } else {
                            assert(cur[b] == bpv);
                            assert(pre.contains(cur[a]) || !pre.contains(cur[a]));
                            assert(pre[a] == cur[a]);
                            assert(pre.contains(cur[a]));
                        }
                    } else {
                        assert(cur[b] == tpv);
                        if a < pre.len() {
                            assert(mid.contains(cur[a]));
                            assert(!mid.contains(tpv));
                        } else {
                            assert(cur[a] == bpv);
                        }
                    }
                }
            }
            j = j + 1;
        }
        let s = BookService { catalog, files };
        proof {
            assert(s@.catalog == catalog@);
            assert(s@.files == files_abs(files@));
            assert forall|t: int| 0 <= t < s@.files.len() implies s@.covers(
                #[trigger] s@.files[t],
            ) by {
                assert(s@.files.contains(s@.files[t]));
                let k = choose|k: int|
                    0 <= k < catalog@.books.len() && (s@.files[t] == (
                    #[trigger] catalog@.books[k]).book_path || s@.files[t]
                        == catalog@.books[k].thumbnail_path);
                assert(s@.catalog.books[k] == catalog@.books[k]);
                assert(s@.files[t] == s@.catalog.books[k].book_path || s@.files[t]
                    == s@.catalog.books[k].thumbnail_path);
            }
        }
        Ok(s)
    }

    /// A snapshot copy of all records, insertion order kept.
    pub fn get_books(&self) -> (r: Vec<Book>)
        ensures
            r@.map_values(|b: Book| b@) == self@.catalog.books,
    {
        self.catalog.get_books()
    }

    /// The first record with the identifier, if any.
    pub fn get_book(&self, book_id: &str) -> (r: Option<&Book>)
        ensures
            match r {
                Some(b) => find_id(self@.catalog.books, book_id@) == Some(b@),
                None => find_id(self@.catalog.books, book_id@) is None,
            },
    {
        self.catalog.get_book(book_id)
    }

    pub fn get_theme(&self) -> (r: &String)
        ensures
            r@ == self@.catalog.theme,
    {
        self.catalog.get_theme()
    }

    /// Replaces the theme.  The caller persists the next snapshot before it
    /// reports success.
    pub fn set_theme(&mut self, theme: String)
        requires
            old(self)@.wf(),
        ensures
            final(self)@ == (ServiceAbs {
                catalog: CatalogAbs { theme: theme@, ..old(self)@.catalog },
                files: old(self)@.files,
            }),
            final(self)@.wf(),
    {
        self.catalog.set_theme(theme);
        proof {
            assert(final(self)@ =~~= (ServiceAbs {
                catalog: CatalogAbs { theme: theme@, ..old(self)@.catalog },
                files: old(self)@.files,
            }));
            lemma_covered_same(old(self)@, final(self)@);
        }
    }

    /// The document to persist: the whole catalog, encoded.
    pub fn snapshot(&self) -> (r: String)
        requires
            self@.wf(),
        ensures
            r@ == enc_catalog(self@.catalog),
    {
        encode_catalog(&self.catalog)
    }

    /// Whether the service knows a managed file by this name to exist.
    pub fn has_managed_file(&self, path: &str) -> (r: bool)
        ensures
            r == self@.files.contains(path@),
    {
        let mut i: usize = 0;
        while i < self.files.len()
            invariant
                i <= self.files.len(),
                forall|k: int| 0 <= k < i ==> (#[trigger] self.files@[k])@ != path@,
            decreases self.files.len() - i,
        {
            if str_eq(self.files[i].as_str(), path) {
                proof {
                    assert(self@.files[i as int] == path@);
                }
                return true;
            }
            i = i + 1;
        }
        proof {
            if self@.files.contains(path@) {
                let w = choose|w: int| 0 <= w < self@.files.len() && self@.files[w] == path@;
                assert(self.files@[w]@ == path@);
            }
        }
        false
    }
}

/// The managed names with the first occurrence of one name taken out.
pub open spec fn remove_val(files: Seq<Seq<char>>, p: Seq<char>) -> Seq<Seq<char>>
    decreases files.len(),
{
    if files.len() == 0 {
        files
    } else if files[0] == p {
        files.drop_first()
    } else {
        seq![files[0]] + remove_val(files.drop_first(), p)
    }
}

/// A sequence with one element in front holds exactly that element and the
/// rest.
proof fn lemma_cons_contains(x: Seq<char>, s: Seq<Seq<char>>, y: Seq<char>)
    ensures
        (seq![x] + s).contains(y) <==> (y == x || s.contains(y)),
{
    let r = seq![x] + s;
    assert(r[0] == x);
    if s.contains(y) {
        let w = choose|w: int| 0 <= w < s.len() && s[w] == y;
        assert(r[w + 1] == y);
    }
    if r.contains(y) {
        let w = choose|w: int| 0 <= w < r.len() && r[w] == y;
        if w > 0 {
            assert(s[w - 1] == y);
        }
    }
}

/// Removing a name from a duplicate-free collection removes it entirely,
/// keeps every other name, and keeps the collection duplicate-free.
proof fn lemma_remove_val(files: Seq<Seq<char>>, p: Seq<char>)
    requires
        forall|i: int, j: int|
            0 <= i < j < files.len() ==> (#[trigger] files[i]) != (#[trigger] files[j]),
    ensures
        !files.contains(p) ==> remove_val(files, p) == files,
        !remove_val(files, p).contains(p),
        forall|q: Seq<char>|
            q != p ==> (#[trigger] remove_val(files, p).contains(q) <==> files.contains(q)),
        forall|i: int, j: int|
            0 <= i < j < remove_val(files, p).len() ==> (#[trigger] remove_val(files, p)[i]) != (
            #[trigger] remove_val(files, p)[j]),
    decreases files.len(),
{
    if files.len() == 0 {
        assert(remove_val(files, p) =~= files);
        assert forall|q: Seq<char>| q != p implies (#[trigger] remove_val(files, p).contains(q)
            <==> files.contains(q)) by {}
    } else if files[0] == p {
        let rest = files.drop_first();
        assert(remove_val(files, p) == rest);
        if rest.contains(p) {
            let w = choose|w: int| 0 <= w < rest.len() && rest[w] == p;
            assert(files[w + 1] == files[0]);
            assert(false);
        }
        assert forall|q: Seq<char>| q != p implies (#[trigger] rest.contains(q) <==> files.contains(
            q,
        )) by {
            if rest.contains(q) {
                let w = choose|w: int| 0 <= w < rest.len() && rest[w] == q;
                assert(files[w + 1] == q);
            }
            if files.contains(q) {
                let w = choose|w: int| 0 <= w < files.len() && files[w] == q;
                assert(w != 0);
                assert(rest[w - 1] == q);
            }
        }
        assert forall|i: int, j: int| 0 <= i < j < rest.len() implies (#[trigger] rest[i]) != (
        #[trigger] rest[j]) by {
            assert(files[i + 1] != files[j + 1]);
        }
    } else {
        let rest = files.drop_first();
        assert forall|i: int, j: int| 0 <= i < j < rest.len() implies (#[trigger] rest[i]) != (
        #[trigger] rest[j]) by {
            assert(files[i + 1] != files[j + 1]);
        }
        lemma_remove_val(rest, p);
        let rr = remove_val(rest, p);
        let r = seq![files[0]] + rr;
        assert(remove_val(files, p) == r);
        lemma_cons_contains(files[0], rr, p);
        assert forall|q: Seq<char>| q != p implies (#[trigger] r.contains(q) <==> files.contains(q))
            by {
            lemma_cons_contains(files[0], rr, q);
            lemma_cons_contains(files[0], rest, q);
            assert(files =~= seq![files[0]] + rest);
        }
        assert forall|i: int, j: int| 0 <= i < j < r.len() implies (#[trigger] r[i]) != (
        #[trigger] r[j]) by {
            if i == 0 {
                assert(r[j] == rr[j - 1]);
                assert(rr.contains(rr[j - 1]));
                if rr[j - 1] == p {
                } else {
                    assert(rest.contains(rr[j - 1]));
                    let w = choose|w: int| 0 <= w < rest.len() && rest[w] == rr[j - 1];
                    assert(files[0] != files[w + 1]);
                }
            } else {
                assert(rr[i - 1] != rr[j - 1]);
            }
        }
        if !files.contains(p) {
            assert(!rest.contains(p)) by {
                if rest.contains(p) {
                    let w = choose|w: int| 0 <= w < rest.len() && rest[w] == p;
                    assert(files[w + 1] == p);
                }
            }
            assert(remove_val(files, p) =~= files);
        }
    }
}

impl BookService {
    /// Removes the first managed name equal to `p`.
    #[verifier::loop_isolation(false)]
    fn remove_managed(&mut self, p: &str) -> (r: bool)
        ensures
            final(self)@.files == remove_val(old(self)@.files, p@),
            final(self)@.catalog == old(self)@.catalog,
            r == old(self)@.files.contains(p@),
    {
        let ghost all = self@.files;
        proof {
            assert(all.skip(0) =~= all);
            assert(all.take(0) + remove_val(all.skip(0), p@) =~= remove_val(all, p@));
        }
        let mut i: usize = 0;
        while i < self.files.len()
            invariant
                i <= self.files.len(),
                self@.files == all,
                self@.catalog == old(self)@.catalog,
                forall|k: int| 0 <= k < i ==> (#[trigger] all[k]) != p@,
                remove_val(all, p@) =~= all.take(i as int) + remove_val(all.skip(i as int), p@),
            decreases self.files.len() - i,
        {
            proof {
                assert(all.skip(i as int)[0] == all[i as int]);
                assert(all[i as int] == self.files@[i as int]@);
            }
            if str_eq(self.files[i].as_str(), p) {
                proof {
                    assert(all[i as int] == p@);
                    assert(all.contains(p@));
                }
                self.files.remove(i);
                proof {
                    assert(all.skip(i as int).drop_first() =~= all.skip(i as int + 1));
                    assert(self@.files =~= all.take(i as int) + all.skip(i as int + 1));
                    assert(self@.files =~= remove_val(all, p@));
                }
                return true;
            }
            proof {
                assert(all.skip(i as int).drop_first() =~= all.skip(i as int + 1));
                assert(all.take(i as int + 1) =~= all.take(i as int) + seq![all[i as int]]);
                assert(all.take(i as int) + remove_val(all.skip(i as int), p@) =~= all.take(
                    i as int + 1,
                ) + remove_val(all.skip(i as int + 1), p@));
            }
            i = i + 1;
        }
        proof {
            assert(all.skip(i as int) =~= Seq::<Seq<char>>::empty());
            assert(remove_val(all, p@) =~= all.take(i as int));
            assert(all.take(i as int) =~= all);
            if all.contains(p@) {
                let w = choose|w: int| 0 <= w < all.len() && all[w] == p@;
                assert(all[w] != p@);
            }
        }
        false
    }

    /// The managed names of a record: what must be removed from disk before
    /// the record itself can go.
    pub fn book_files(&self, book_id: &str) -> (r: Option<(String, String)>)
        ensures
            match r {
                Some((bp, tp)) => {
                    &&& has_id(self@.catalog.books, book_id@)
                    &&& bp@ == find_id(self@.catalog.books, book_id@).unwrap().book_path
                    &&& tp@ == find_id(self@.catalog.books, book_id@).unwrap().thumbnail_path
                },
                None => !has_id(self@.catalog.books, book_id@),
            },
    {
        match self.catalog.get_book(book_id) {
            Some(b) => Some((b.book_path.clone(), b.thumbnail_path.clone())),
            None => None,
        }
    }

    /// Removes the record and the two managed names from the service's state.
    /// The caller removes the files themselves first and calls this only when
    /// that succeeded; an absent identifier is a no-op, so deleting twice is
    /// as good as deleting once.
    #[verifier::rlimit(100)]
    pub fn delete_book(&mut self, book_id: &str) -> (r: bool)
        requires
            old(self)@.wf(),
        ensures
            r == has_id(old(self)@.catalog.books, book_id@),
            final(self)@.catalog == (CatalogAbs {
                books: remove_id(old(self)@.catalog.books, book_id@),
                ..old(self)@.catalog
            }),
            r ==> final(self)@.files == remove_val(
                remove_val(old(self)@.files, spec_book_file(book_id@)),
                spec_thumb_file(book_id@),
            ),
            !r ==> final(self)@ == old(self)@,
            final(self)@.wf(),
            !has_id(final(self)@.catalog.books, book_id@),
            !final(self)@.files.contains(spec_book_file(book_id@)),
            !final(self)@.files.contains(spec_thumb_file(book_id@)),
    {
        let ghost pre = self@;
        let r = self.catalog.delete_book(book_id);
        if r {
            let bp = book_file_path(book_id);
            let tp = thumb_file_path(book_id);
            let ghost mid = remove_val(pre.files, bp@);
            self.remove_managed(bp.as_str());
            self.remove_managed(tp.as_str());
            proof {
                lemma_remove_val(pre.files, bp@);
                lemma_remove_val(mid, tp@);
                crate::catalog::lemma_remove_id_wf(pre.catalog.books, book_id@);
                crate::catalog::lemma_remove_in(pre.catalog.books, book_id@);
                let newbooks = remove_id(pre.catalog.books, book_id@);
                lemma_has_id_index(newbooks, book_id@);
                assert forall|i: int| 0 <= i < newbooks.len() implies {
                    &&& (#[trigger] newbooks[i]).book_path == spec_book_file(newbooks[i].id)
                    &&& newbooks[i].thumbnail_path == spec_thumb_file(newbooks[i].id)
                    &&& final(self)@.files.contains(newbooks[i].book_path)
                    &&& final(self)@.files.contains(newbooks[i].thumbnail_path)
                } by {
                    let k = choose|k: int|
                        0 <= k < pre.catalog.books.len() && (#[trigger] pre.catalog.books[k])
                            == newbooks[i];
                    assert(newbooks[i].id != book_id@);
                    lemma_managed_paths_distinct(newbooks[i].id, book_id@);
                    lemma_managed_paths_distinct(book_id@, newbooks[i].id);
                }
                assert(!final(self)@.files.contains(spec_book_file(book_id@)));
                let cur = final(self)@.files;
                assert forall|t: int| 0 <= t < cur.len() implies final(self)@.covers(
                    #[trigger] cur[t],
                ) by {
                    let f = cur[t];
                    assert(cur.contains(f));
                    assert(f != bp@ && f != tp@);
                    assert(mid.contains(f));
                    assert(pre.files.contains(f));
                    let w = choose|w: int| 0 <= w < pre.files.len() && pre.files[w] == f;
                    assert(pre.covers(pre.files[w]));
                    let k = choose|k: int|
                        0 <= k < pre.catalog.books.len() && (f == (
                        #[trigger] pre.catalog.books[k]).book_path || f
                            == pre.catalog.books[k].thumbnail_path);
                    crate::catalog::lemma_find_id_self(pre.catalog.books, k);
                    if pre.catalog.books[k].id == book_id@ {
                        assert(f == bp@ || f == tp@);
                        assert(false);
                    } else {
                        crate::catalog::lemma_find_id_index(newbooks, pre.catalog.books[k].id);
                        let j = choose|j: int|
                            0 <= j < newbooks.len() && (#[trigger] newbooks[j])
                                == pre.catalog.books[k] && pre.catalog.books[k].id
                                == pre.catalog.books[k].id;
                        assert(final(self)@.catalog.books == newbooks);
                        assert(f == newbooks[j].book_path || f == newbooks[j].thumbnail_path);
                    }
                }
            }
            true
        } else {
            proof {
                crate::catalog::lemma_remove_id_wf(pre.catalog.books, book_id@);
                assert(final(self)@ =~~= pre);
                lemma_no_record_no_files(pre, book_id@);
            }
            false
        }
    }
}

/// What an import will create: a fresh identifier, the record's display name,
/// and the two managed names that the caller must put the files under.
#[derive(Debug)]
pub struct ImportPlan {
    pub book_id: String,
    pub name: String,
    pub book_path: String,
    pub thumbnail_path: String,
}

/// The record that a finished import stores: progress zeroed, metadata from
/// the extractor, managed names derived from the identifier.
pub open spec fn imported_book(
    id: Seq<char>,
    name: Seq<char>,
    file_size: u64,
    page_count: u64,
) -> BookAbs {
    BookAbs {
        id,
        name,
        description: Seq::empty(),
        current_page: 0,
        page_count,
        score: None,
        is_favorite: false,
        is_open: false,
        time_spent: TimeSpan { secs: 0, nanos: 0 },
        completed_at: None,
        last_time_opened: None,
        text_highlights: Seq::empty(),
        file_size,
        book_path: spec_book_file(id),
        thumbnail_path: spec_thumb_file(id),
    }
}

impl BookService {
    /// Plans one import: the source must carry the one supported extension;
    /// a fresh identifier is drawn, and it must collide with nothing — a
    /// collision fails the import rather than overwrite anything.  A collision
    /// can only be reported where something is already stored, so planning a
    /// supported source on an empty library always succeeds.
    pub fn plan_import(&self, source_path: &str) -> (r: Result<ImportPlan, LibraryError>)
        requires
            self@.wf(),
        ensures
            match r {
                Ok(plan) => {
                    &&& spec_extension(source_path@) == Some(("pdf")@)
                    &&& spec_file_stem(source_path@) == Some(plan.name@)
                    &&& plan.book_path@ == spec_book_file(plan.book_id@)
                    &&& plan.thumbnail_path@ == spec_thumb_file(plan.book_id@)
                    &&& plan.book_id@.len() == 36
                    &&& !has_id(self@.catalog.books, plan.book_id@)
                    &&& !self@.files.contains(plan.book_path@)
                    &&& !self@.files.contains(plan.thumbnail_path@)
                },
                Err(e) => {
                    &&& (e == LibraryError::UnsupportedFormat || e == LibraryError::IoError)
                    &&& ((e == LibraryError::UnsupportedFormat) <==> spec_extension(source_path@)
                        != Some(("pdf")@))
                    &&& (e == LibraryError::IoError ==> exists|i: int|
                        0 <= i < self@.catalog.books.len() && (
                        #[trigger] self@.catalog.books[i]).id.len() == 36)
                },
            },
    {
        let ext_ok = match crate::paths::extension_of(source_path) {
            Some(e) => str_eq(e.as_str(), "pdf"),
            None => false,
        };
        if !ext_ok {
            return Err(LibraryError::UnsupportedFormat);
        }
        let name = match crate::paths::file_stem_of(source_path) {
            Some(t) => t,
            None => {
                proof {
                    crate::paths::lemma_ext_implies_stem(source_path@);
                }
                vstd::pervasive::unreached()
            },
        };
        let id = fresh_book_id();
        if self.catalog.has_book(id.as_str()) {
            proof {
                lemma_stored_id_witness(self@, id@);
            }
            return Err(LibraryError::IoError);
        }
        let bp = book_file_path(id.as_str());
        let tp = thumb_file_path(id.as_str());
        if self.has_managed_file(bp.as_str()) {
            proof {
                lemma_no_record_no_files(self@, id@);
                lemma_stored_id_witness(self@, id@);
            }
            return Err(LibraryError::IoError);
        }
        if self.has_managed_file(tp.as_str()) {
            proof {
                lemma_no_record_no_files(self@, id@);
                lemma_stored_id_witness(self@, id@);
            }
            return Err(LibraryError::IoError);
        }
        Ok(ImportPlan { book_id: id, name, book_path: bp, thumbnail_path: tp })
    }

    /// Stores the record of a finished import.  The caller calls this only
    /// once the document copy and the thumbnail both exist under the plan's
    /// managed names; a page count of zero means extraction failed.
    #[verifier::rlimit(100)]
    pub fn finish_import(&mut self, plan: &ImportPlan, file_size: u64, page_count: u64) -> (r:
        Result<Book, LibraryError>)
        requires
            old(self)@.wf(),
        ensures
            (r is Ok) <==> {
                &&& page_count >= 1
                &&& plan.book_path@ == spec_book_file(plan.book_id@)
                &&& plan.thumbnail_path@ == spec_thumb_file(plan.book_id@)
                &&& !has_id(old(self)@.catalog.books, plan.book_id@)
                &&& !old(self)@.files.contains(plan.book_path@)
                &&& !old(self)@.files.contains(plan.thumbnail_path@)
            },
            match r {
                Ok(b) => {
                    &&& b@ == imported_book(plan.book_id@, plan.name@, file_size, page_count)
                    &&& final(self)@.catalog == (CatalogAbs {
                        books: old(self)@.catalog.books.push(b@),
                        ..old(self)@.catalog
                    })
                    &&& final(self)@.files == old(self)@.files.push(plan.book_path@).push(
                        plan.thumbnail_path@,
                    )
                    &&& final(self)@.wf()
                    &&& final(self)@.files.contains(spec_book_file(plan.book_id@))
                    &&& final(self)@.files.contains(spec_thumb_file(plan.book_id@))
                },
                Err(e) => {
                    &&& final(self)@ == old(self)@
                    &&& (e == LibraryError::ExtractionError || e == LibraryError::IoError)
                    &&& ((e == LibraryError::ExtractionError) <==> page_count == 0)
                },
            },
    {
        if page_count == 0 {
            return Err(LibraryError::ExtractionError);
        }
        let bp = book_file_path(plan.book_id.as_str());
        let tp = thumb_file_path(plan.book_id.as_str());
        if !str_eq(plan.book_path.as_str(), bp.as_str()) {
            return Err(LibraryError::IoError);
        }
        if !str_eq(plan.thumbnail_path.as_str(), tp.as_str()) {
            return Err(LibraryError::IoError);
        }
        if self.catalog.has_book(plan.book_id.as_str()) {
            return Err(LibraryError::IoError);
        }
        if self.has_managed_file(plan.book_path.as_str()) {
            return Err(LibraryError::IoError);
        }
        if self.has_managed_file(plan.thumbnail_path.as_str()) {
            return Err(LibraryError::IoError);
        }
        let ghost pre = self@;
        let book = Book {
            id: plan.book_id.clone(),
            name: plan.name.clone(),
            description: String::new(),
            current_page: 0,
            page_count,
            score: None,
            is_favorite: false,
            is_open: false,
            time_spent: TimeSpan::zero(),
            completed_at: None,
            last_time_opened: None,
            text_highlights: Vec::new(),
            file_size,
            book_path: plan.book_path.clone(),
            thumbnail_path: plan.thumbnail_path.clone(),
        };
        proof {
            assert(book@ =~= imported_book(plan.book_id@, plan.name@, file_size, page_count));
        }
        let stored = book.clone();
        self.files.push(plan.book_path.clone());
        self.files.push(plan.thumbnail_path.clone());
        proof {
            assert(self@.files =~= pre.files.push(plan.book_path@).push(plan.thumbnail_path@));
        }
        self.catalog.add_book(book);
        let ghost cur = self@;
        proof {
            let b = imported_book(plan.book_id@, plan.name@, file_size, page_count);
            let newbooks = pre.catalog.books.push(b);
            assert(cur.catalog.books == newbooks);
            assert(cur.files == pre.files.push(spec_book_file(plan.book_id@)).push(
                spec_thumb_file(plan.book_id@),
            ));
            let mid = pre.files.push(spec_book_file(plan.book_id@));
            assert forall|a: int, bb: int| 0 <= a < bb < cur.files.len() implies (
            #[trigger] cur.files[a]) != (#[trigger] cur.files[bb]) by {
                lemma_managed_paths_distinct(plan.book_id@, plan.book_id@);
                if bb == cur.files.len() - 1 {
                    if a < pre.files.len() {
                        assert(pre.files[a] == cur.files[a]);
                        assert(pre.files.contains(cur.files[a]));
                    }
                } else if bb == cur.files.len() - 2 {
                    assert(pre.files[a] == cur.files[a]);
                    assert(pre.files.contains(cur.files[a]));
                } else {
                    assert(pre.files[a] != pre.files[bb]);
                }
            }
            assert forall|i: int| 0 <= i < newbooks.len() implies {
                &&& (#[trigger] newbooks[i]).book_path == spec_book_file(newbooks[i].id)
                &&& newbooks[i].thumbnail_path == spec_thumb_file(newbooks[i].id)
                &&& cur.files.contains(newbooks[i].book_path)
                &&& cur.files.contains(newbooks[i].thumbnail_path)
            } by {
                if i < pre.catalog.books.len() {
                    assert(newbooks[i] == pre.catalog.books[i]);
                    lemma_push_contains(pre.files, spec_book_file(plan.book_id@), newbooks[i].book_path);
                    lemma_push_contains(mid, spec_thumb_file(plan.book_id@), newbooks[i].book_path);
                    lemma_push_contains(
                        pre.files,
                        spec_book_file(plan.book_id@),
                        newbooks[i].thumbnail_path,
                    );
                    lemma_push_contains(
                        mid,
                        spec_thumb_file(plan.book_id@),
                        newbooks[i].thumbnail_path,
                    );
                } else {
                    assert(newbooks[i] == b);
                    assert(cur.files[cur.files.len() - 2] == spec_book_file(plan.book_id@));
                    assert(cur.files[cur.files.len() - 1] == spec_thumb_file(plan.book_id@));
                }
            }
            assert forall|t: int| 0 <= t < cur.files.len() implies cur.covers(
                #[trigger] cur.files[t],
            ) by {
                if t < pre.files.len() {
                    assert(pre.files[t] == cur.files[t]);
                    assert(pre.covers(pre.files[t]));
                    let k = choose|k: int|
                        0 <= k < pre.catalog.books.len() && (pre.files[t] == (
                        #[trigger] pre.catalog.books[k]).book_path || pre.files[t]
                            == pre.catalog.books[k].thumbnail_path);
                    assert(cur.catalog.books[k] == pre.catalog.books[k]);
                    assert(cur.files[t] == cur.catalog.books[k].book_path || cur.files[t]
                        == cur.catalog.books[k].thumbnail_path);
                } else {
                    let j = newbooks.len() - 1;
                    assert(cur.catalog.books[j] == b);
                    assert(cur.files[t] == b.book_path || cur.files[t] == b.thumbnail_path);
                }
            }
            assert(cur.files.contains(spec_book_file(plan.book_id@))) by {
                assert(cur.files[cur.files.len() - 2] == spec_book_file(plan.book_id@));
            }
            assert(cur.files.contains(spec_thumb_file(plan.book_id@))) by {
                assert(cur.files[cur.files.len() - 1] == spec_thumb_file(plan.book_id@));
            }
        }
        Ok(stored)
    }

    /// Replaces the record carrying the given record's identifier wholesale.
    /// The managed names and the captured source size stay what the store
    /// assigned at import; everything else is taken from the caller's record.
    #[verifier::rlimit(100)]
    pub fn update_book(&mut self, book: Book) -> (r: Result<(), LibraryError>)
        requires
            old(self)@.wf(),
            book@.wf(),
        ensures
            (r is Ok) <==> has_id(old(self)@.catalog.books, book@.id),
            match r {
                Ok(_) => {
                    &&& final(self)@.catalog == (CatalogAbs {
                        books: replace_id(
                            old(self)@.catalog.books,
                            BookAbs {
                                book_path: find_id(
                                    old(self)@.catalog.books,
                                    book@.id,
                                ).unwrap().book_path,
                                thumbnail_path: find_id(
                                    old(self)@.catalog.books,
                                    book@.id,
                                ).unwrap().thumbnail_path,
                                file_size: find_id(
                                    old(self)@.catalog.books,
                                    book@.id,
                                ).unwrap().file_size,
                                ..book@
                            },
                        ),
                        ..old(self)@.catalog
                    })
                    &&& final(self)@.files == old(self)@.files
                    &&& final(self)@.wf()
                },
                Err(e) => {
                    &&& e == LibraryError::NotFound
                    &&& final(self)@ == old(self)@
                },
            },
    {
        let ghost pre = self@;
        let (bp, tp, fs) = match self.catalog.get_book(book.id.as_str()) {
            None => {
                proof {
                    assert(final(self)@ =~~= pre);
                }
                return Err(LibraryError::NotFound);
            },
            Some(sb) => (sb.book_path.clone(), sb.thumbnail_path.clone(), sb.file_size),
        };
        let ghost stored = find_id(pre.catalog.books, book@.id).unwrap();
        let patched = Book { book_path: bp, thumbnail_path: tp, file_size: fs, ..book };
        let ghost pb = patched@;
        proof {
            assert(pb =~= (BookAbs {
                book_path: stored.book_path,
                thumbnail_path: stored.thumbnail_path,
                file_size: stored.file_size,
                ..book@
            }));
        }
        let replaced = self.catalog.replace_book(patched);
        proof {
            assert(replaced);
            let cur = self@;
            let newbooks = replace_id(pre.catalog.books, pb);
            crate::catalog::lemma_replace_id_pointwise(pre.catalog.books, pb);
            crate::catalog::lemma_find_id_index(pre.catalog.books, book@.id);
            let si = choose|si: int|
                0 <= si < pre.catalog.books.len() && (#[trigger] pre.catalog.books[si]) == stored
                    && stored.id == book@.id;
            assert forall|i: int| 0 <= i < newbooks.len() implies {
                &&& (#[trigger] newbooks[i]).book_path == spec_book_file(newbooks[i].id)
                &&& newbooks[i].thumbnail_path == spec_thumb_file(newbooks[i].id)
                &&& cur.files.contains(newbooks[i].book_path)
                &&& cur.files.contains(newbooks[i].thumbnail_path)
            } by {
                if newbooks[i] == pre.catalog.books[i] {
                } else {
                    assert(newbooks[i] == pb && pre.catalog.books[i].id == pb.id);
                    crate::catalog::lemma_find_id_self(pre.catalog.books, i);
                    assert(pre.catalog.books[i] == stored);
                }
            }
            assert forall|t: int| 0 <= t < cur.files.len() implies cur.covers(
                #[trigger] cur.files[t],
            ) by {
                assert(pre.covers(pre.files[t]));
                let k = choose|k: int|
                    0 <= k < pre.catalog.books.len() && (pre.files[t] == (
                    #[trigger] pre.catalog.books[k]).book_path || pre.files[t]
                        == pre.catalog.books[k].thumbnail_path);
                if newbooks[k] == pre.catalog.books[k] {
                    assert(cur.files[t] == newbooks[k].book_path || cur.files[t]
                        == newbooks[k].thumbnail_path);
                } else {
                    assert(newbooks[k] == pb && pre.catalog.books[k].id == pb.id);
                    crate::catalog::lemma_find_id_self(pre.catalog.books, k);
                    assert(pre.catalog.books[k] == stored);
                    assert(pb.book_path == stored.book_path);
                    assert(cur.files[t] == newbooks[k].book_path || cur.files[t]
                        == newbooks[k].thumbnail_path);
                }
            }
        }
        Ok(())
    }
}

/// Deleting is idempotent: once an identifier's record is gone, deleting it
/// again changes neither the records nor the managed names, so a second
/// deletion observes exactly the state the first one left.
pub proof fn lemma_delete_absent_noop(s: ServiceAbs, id: Seq<char>)
    requires
        s.wf(),
        !has_id(s.catalog.books, id),
    ensures
        remove_id(s.catalog.books, id) == s.catalog.books,
        remove_val(s.files, spec_book_file(id)) == s.files,
        remove_val(s.files, spec_thumb_file(id)) == s.files,
{
    crate::catalog::lemma_remove_id_wf(s.catalog.books, id);
    lemma_no_record_no_files(s, id);
    lemma_remove_val(s.files, spec_book_file(id));
    lemma_remove_val(s.files, spec_thumb_file(id));
}

/// A fresh catalog for a first run: dark theme, zeroed counters, no books,
/// dated today.
pub fn bootstrap_catalog() -> (r: Catalog)
    ensures
        r@.theme == ("dark")@,
        r@.hours_read_this_week =~= seq![0u8, 0u8, 0u8, 0u8, 0u8, 0u8, 0u8],
        r@.average_hours_this_month == 0u16,
        r@.books =~= Seq::<BookAbs>::empty(),
        r@.wf(),
{
    let today = today_utc();
    Catalog::new(today)
}

/// Interprets what the repository read: no file at all bootstraps a fresh
/// catalog; a file that is not a catalog document is corrupt.
pub fn load_catalog(contents: Option<&str>) -> (r: Result<Catalog, LibraryError>)
    ensures
        match contents {
            None => match r {
                Ok(c) => c@.theme == ("dark")@ && c@.hours_read_this_week =~= seq![0u8, 0u8, 0u8, 0u8, 0u8, 0u8, 0u8]
                    && c@.average_hours_this_month == 0u16 && c@.books
                    =~= Seq::<BookAbs>::empty() && c@.wf(),
                Err(_) => false,
            },
            Some(text) => match crate::json_spec::p_catalog(text@) {
                Some((cab, rest)) => {
                    if rest.len() == 0 {
                        match r {
                            Ok(c) => c@ == cab,
                            Err(_) => false,
                        }
                    } else {
                        r == Err::<Catalog, LibraryError>(LibraryError::CorruptStore)
                    }
                },
                None => r == Err::<Catalog, LibraryError>(LibraryError::CorruptStore),
            },
        },
{
    match contents {
        None => Ok(bootstrap_catalog()),
        Some(text) => match crate::json_dec::decode_catalog(text) {
            Some(c) => Ok(c),
            None => Err(LibraryError::CorruptStore),
        },
    }
}

} // verus!
