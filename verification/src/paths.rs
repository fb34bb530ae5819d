//! Derivation of managed file names and the textual splitting of source
//! paths.  A managed document is named by its book identifier with the source
//! extension preserved; a managed thumbnail is named by the identifier alone.
//! Path splitting here is purely textual, with both `/` and `\\` taken as
//! directory separators: the extension is the part of the last path component
//! after its last dot, when that dot is not the component's first character.
use vstd::prelude::*;

use crate::strutil::string_from_chars;

verus! {

/// The managed document file of a book, relative to the store directory.
pub open spec fn spec_book_file(id: Seq<char>) -> Seq<char> {
    ("books/")@ + id + (".pdf")@
}

/// The managed thumbnail file of a book, relative to the store directory.
pub open spec fn spec_thumb_file(id: Seq<char>) -> Seq<char> {
    ("thumbnails/")@ + id
}

pub fn book_file_path(id: &str) -> (r: String)
    ensures
        r@ == spec_book_file(id@),
{
    let mut r = String::from_str("books/");
    r.append(id);
    r.append(".pdf");
    proof {
        assert(r@ =~= spec_book_file(id@));
    }
    r
}

pub fn thumb_file_path(id: &str) -> (r: String)
    ensures
        r@ == spec_thumb_file(id@),
{
    let mut r = String::from_str("thumbnails/");
    r.append(id);
    proof {
        assert(r@ =~= spec_thumb_file(id@));
    }
    r
}

/// Managed names collide only when the identifiers do: distinct identifiers
/// give distinct document files and distinct thumbnails, and a document file
/// is never a thumbnail.
pub proof fn lemma_managed_paths_distinct(a: Seq<char>, b: Seq<char>)
    ensures
        a != b ==> spec_book_file(a) != spec_book_file(b),
        a != b ==> spec_thumb_file(a) != spec_thumb_file(b),
        spec_book_file(a) != spec_thumb_file(b),
{
    reveal_strlit("books/");
    reveal_strlit(".pdf");
    reveal_strlit("thumbnails/");
    if a != b && spec_book_file(a) == spec_book_file(b) {
        assert(spec_book_file(a).len() == spec_book_file(b).len());
        assert(a.len() == b.len());
        assert forall|k: int| 0 <= k < a.len() implies a[k] == b[k] by {
            assert(spec_book_file(a)[6 + k] == a[k]);
            assert(spec_book_file(b)[6 + k] == b[k]);
        }
        assert(a =~= b);
    }
    if a != b && spec_thumb_file(a) == spec_thumb_file(b) {
        assert(spec_thumb_file(a).len() == spec_thumb_file(b).len());
        assert(a.len() == b.len());
        assert forall|k: int| 0 <= k < a.len() implies a[k] == b[k] by {
            assert(spec_thumb_file(a)[11 + k] == a[k]);
            assert(spec_thumb_file(b)[11 + k] == b[k]);
        }
        assert(a =~= b);
    }
    assert(spec_book_file(a)[0] == 'b');
    assert(spec_thumb_file(b)[0] == 't');
}

/// A directory separator.
pub open spec fn is_sep(c: char) -> bool {
    c == '/' || c == '\\'
}

/// The position of the dot that starts a path's extension: the last dot, with
/// no directory separator after it, and not the first character of its
/// component.
pub open spec fn is_ext_dot(p: Seq<char>, k: int) -> bool {
    &&& 0 <= k < p.len()
    &&& p[k] == '.'
    &&& (forall|m: int| k < m < p.len() ==> p[m] != '.' && !is_sep(#[trigger] p[m]))
    &&& k > 0
    &&& !is_sep(p[k - 1])
}

/// The extension of a path, textually.
pub open spec fn spec_extension(p: Seq<char>) -> Option<Seq<char>> {
    if exists|k: int| is_ext_dot(p, k) {
        Some(p.skip((choose|k: int| is_ext_dot(p, k)) + 1))
    } else {
        None
    }
}

/// At most one position starts the extension.
proof fn lemma_ext_dot_unique(p: Seq<char>, k1: int, k2: int)
    requires
        is_ext_dot(p, k1),
        is_ext_dot(p, k2),
    ensures
        k1 == k2,
{
    if k1 < k2 {
        assert(p[k2] != '.');
        assert(false);
    }
    if k2 < k1 {
        assert(p[k1] != '.');
        assert(false);
    }
}

/// The extension of a path, if any.
pub fn extension_of(p: &str) -> (r: Option<String>)
    ensures
        match r {
            Some(e) => exists|k: int| is_ext_dot(p@, k) && e@ == p@.skip(k + 1),
            None => !(exists|k: int| is_ext_dot(p@, k)),
        },
        (r is Some) == (spec_extension(p@) is Some),
        r matches Some(e) ==> spec_extension(p@) == Some(e@),
{
    let len = p.unicode_len();
    let mut i = len;
    while i > 0
        invariant
            i <= len,
            len == p@.len(),
            forall|m: int| i <= m < len ==> p@[m] != '.' && !is_sep(#[trigger] p@[m]),
        decreases i,
    {
        i = i - 1;
        let c = p.get_char(i);
        if c == '/' || c == '\\' {
            proof {
                assert forall|k: int| !is_ext_dot(p@, k) by {
                    if is_ext_dot(p@, k) {
                        if k > i {
                            assert(p@[k] != '.');
                        } else if k == i {
                            assert(p@[k] == '.');
                        } else {
                            assert(!is_sep(p@[i as int]));
                        }
                    }
                }
            }
            return None;
        }
        if c == '.' {
            if i == 0 || p.get_char(i - 1) == '/' || p.get_char(i - 1) == '\\' {
                proof {
                    assert forall|k: int| !is_ext_dot(p@, k) by {
                        if is_ext_dot(p@, k) {
                            if k > i {
                                assert(p@[k] != '.');
                            } else if k == i {
                            } else {
                                assert(p@[i as int] != '.');
                            }
                        }
                    }
                }
                return None;
            }
            proof {
                assert(is_ext_dot(p@, i as int));
            }
            let mut ext: Vec<char> = Vec::new();
            let mut j = i + 1;
            while j < len
                invariant
                    i + 1 <= j <= len,
                    len == p@.len(),
                    ext@ =~= p@.subrange(i as int + 1, j as int),
                decreases len - j,
            {
                ext.push(p.get_char(j));
                j = j + 1;
                proof {
                    assert(ext@ =~= p@.subrange(i as int + 1, j as int));
                }
            }
            proof {
                assert(ext@ =~= p@.skip(i as int + 1));
                let kk = choose|k: int| is_ext_dot(p@, k);
                lemma_ext_dot_unique(p@, kk, i as int);
            }
            return Some(string_from_chars(&ext));
        }
    }
    proof {
        assert forall|k: int| !is_ext_dot(p@, k) by {
            if is_ext_dot(p@, k) {
                assert(p@[k] != '.');
            }
        }
    }
    None
}

/// A path with an extension always has a stem: the extension dot is inside
/// the last component and not its first character.
pub proof fn lemma_ext_implies_stem(p: Seq<char>)
    requires
        exists|k: int| is_ext_dot(p, k),
    ensures
        spec_file_stem(p) is Some,
{
    let k = choose|k: int| is_ext_dot(p, k);
    lemma_ext_dot_unique(p, choose|k2: int| is_ext_dot(p, k2), k);
    assert(spec_stem_end(p) == k);
    if exists|s: int| is_last_sep(p, s) {
        let s = choose|s: int| is_last_sep(p, s);
        lemma_last_sep_unique(p, choose|s2: int| is_last_sep(p, s2), s);
        if s > k {
            assert(!is_sep(p[s]));
        }
        if s == k {
            assert(is_sep(p[s]) && p[k] == '.');
        }
        if s == k - 1 {
            assert(!is_sep(p[k - 1]));
        }
        assert(s < k - 1);
        assert(spec_component_start(p) == s + 1);
    } else {
        assert(spec_component_start(p) == 0);
    }
}

/// The position of the last directory separator.
pub open spec fn is_last_sep(p: Seq<char>, s: int) -> bool {
    &&& 0 <= s < p.len()
    &&& is_sep(p[s])
    &&& (forall|m: int| s < m < p.len() ==> !is_sep(#[trigger] p[m]))
}

/// Where the last path component starts.
pub open spec fn spec_component_start(p: Seq<char>) -> int {
    if exists|s: int| is_last_sep(p, s) {
        (choose|s: int| is_last_sep(p, s)) + 1
    } else {
        0
    }
}

/// Where the file stem ends: at the extension dot, or at the end of the path.
pub open spec fn spec_stem_end(p: Seq<char>) -> int {
    if exists|k: int| is_ext_dot(p, k) {
        choose|k: int| is_ext_dot(p, k)
    } else {
        p.len() as int
    }
}

/// The stem of the last path component: what remains once the directory part
/// and the extension are cut away; nothing when the component is empty.
pub open spec fn spec_file_stem(p: Seq<char>) -> Option<Seq<char>> {
    if spec_component_start(p) < spec_stem_end(p) {
        Some(p.subrange(spec_component_start(p), spec_stem_end(p)))
    } else {
        None
    }
}

proof fn lemma_last_sep_unique(p: Seq<char>, s1: int, s2: int)
    requires
        is_last_sep(p, s1),
        is_last_sep(p, s2),
    ensures
        s1 == s2,
{
    if s1 < s2 {
        assert(!is_sep(p[s2]));
        assert(false);
    }
    if s2 < s1 {
        assert(!is_sep(p[s1]));
        assert(false);
    }
}

/// The stem of the last path component, if any.
pub fn file_stem_of(p: &str) -> (r: Option<String>)
    ensures
        match r {
            Some(t) => spec_file_stem(p@) == Some(t@),
            None => spec_file_stem(p@) is None,
        },
{
    let len = p.unicode_len();
    let mut comp_start: usize = 0;
    let mut i = len;
    let mut found_sep = false;
    while i > 0 && !found_sep
        invariant
            i <= len,
            len == p@.len(),
            !found_sep ==> comp_start == 0 && (forall|m: int|
                i <= m < len ==> !is_sep(#[trigger] p@[m])),
            found_sep ==> comp_start >= 1 && is_last_sep(p@, comp_start - 1),
        decreases i,
    {
        i = i - 1;
        let c = p.get_char(i);
        if c == '/' || c == '\\' {
            comp_start = i + 1;
            found_sep = true;
        }
    }
    proof {
        if found_sep {
            let ss = choose|s: int| is_last_sep(p@, s);
            lemma_last_sep_unique(p@, ss, comp_start - 1);
            assert(spec_component_start(p@) == comp_start as int);
        } else {
            assert forall|s: int| !is_last_sep(p@, s) by {
                if is_last_sep(p@, s) {
                    assert(!is_sep(p@[s]));
                }
            }
            assert(spec_component_start(p@) == 0);
        }
    }
    let stem_end: usize = match extension_of(p) {
        Some(_) => {
            let mut k = len;
            let mut dot: usize = 0;
            let mut found_dot = false;
            while k > 0 && !found_dot
                invariant
                    k <= len,
                    len == p@.len(),
                    exists|kk: int| is_ext_dot(p@, kk),
                    !found_dot ==> forall|m: int| k <= m < len ==> p@[m] != '.',
                    found_dot ==> dot < len && p@[dot as int] == '.' && (forall|m: int|
                        dot < m < len ==> p@[m] != '.'),
                decreases k,
            {
                k = k - 1;
                if p.get_char(k) == '.' {
                    dot = k;
                    found_dot = true;
                }
            }
            proof {
                let kk = choose|kk: int| is_ext_dot(p@, kk);
                if !found_dot {
                    assert(p@[kk] != '.');
                    assert(false);
                }
                if kk < dot {
                    assert(p@[dot as int] != '.');
                    assert(false);
                }
                if dot < kk {
                    assert(p@[kk] != '.');
                    assert(false);
                }
                assert(spec_stem_end(p@) == dot as int);
            }
            dot
        },
        None => {
            proof {
                assert(spec_stem_end(p@) == p@.len() as int);
            }
            len
        },
    };
    if comp_start < stem_end {
        let mut stem: Vec<char> = Vec::new();
        let mut j = comp_start;
        while j < stem_end
            invariant
                comp_start <= j <= stem_end,
                stem_end <= p@.len(),
                len == p@.len(),
                stem@ =~= p@.subrange(comp_start as int, j as int),
            decreases stem_end - j,
        {
            stem.push(p.get_char(j));
            j = j + 1;
            proof {
                assert(stem@ =~= p@.subrange(comp_start as int, j as int));
            }
        }
        Some(string_from_chars(&stem))
    } else {
        None
    }
}

} // verus!
