//! Catalog operations, path splitting, the extractor facade, and settings.
use bookshelf::catalog::Catalog;
use bookshelf::extractor::BookMetadataFactory;
use bookshelf::model::Book;
use bookshelf::model::Date;
use bookshelf::model::TimeSpan;
use bookshelf::paths::book_file_path;
use bookshelf::paths::extension_of;
use bookshelf::paths::file_stem_of;
use bookshelf::paths::thumb_file_path;
use bookshelf::service::LibraryError;
use bookshelf::settings::SettingsData;
use bookshelf::settings::SettingsStore;
use bookshelf::settings::StoreUnitType;
use bookshelf::settings::SETTING;

fn plain_book(id: &str) -> Book {
    Book {
        id: id.to_string(),
        name: id.to_string(),
        description: String::new(),
        current_page: 0,
        page_count: 1,
        score: None,
        is_favorite: false,
        is_open: false,
        time_spent: TimeSpan { secs: 0, nanos: 0 },
        completed_at: None,
        last_time_opened: None,
        text_highlights: Vec::new(),
        file_size: 1,
        book_path: format!("books/{}.pdf", id),
        thumbnail_path: format!("thumbnails/{}", id),
    }
}

fn date() -> Date {
    Date { year: 2023, month: 1, day: 2 }
}

#[test]
fn catalog_add_get_delete() {
    let mut c = Catalog::new(date());
    c.add_book(plain_book("a"));
    c.add_book(plain_book("b"));
    assert_eq!(c.book_count(), 2);
    assert!(c.has_book("a"));
    assert_eq!(c.get_book("b").unwrap().name, "b");
    assert!(c.get_book("z").is_none());
    assert!(c.delete_book("a"));
    assert!(!c.has_book("a"));
    assert_eq!(c.book_count(), 1);
    // Deleting what is gone reports that and changes nothing.
    assert!(!c.delete_book("a"));
    assert_eq!(c.book_count(), 1);
}

#[test]
fn catalog_replace_first_match_only() {
    let mut c = Catalog::new(date());
    c.add_book(plain_book("a"));
    c.add_book(plain_book("b"));
    let mut b2 = plain_book("b");
    b2.name = "newer".to_string();
    assert!(c.replace_book(b2));
    assert_eq!(c.get_book("b").unwrap().name, "newer");
    let missing = plain_book("zzz");
    assert!(!c.replace_book(missing));
    assert_eq!(c.book_count(), 2);
}

#[test]
fn catalog_keeps_insertion_order() {
    let mut c = Catalog::new(date());
    c.add_book(plain_book("first"));
    c.add_book(plain_book("second"));
    c.add_book(plain_book("third"));
    let names: Vec<String> = c.get_books().iter().map(|b| b.name.clone()).collect();
    assert_eq!(names, vec!["first", "second", "third"]);
}

#[test]
fn theme_is_read_back() {
    let mut c = Catalog::new(date());
    assert_eq!(c.get_theme(), "dark");
    c.set_theme("light".to_string());
    assert_eq!(c.get_theme(), "light");
}

#[test]
fn managed_names_derive_from_the_identifier() {
    assert_eq!(book_file_path("abc"), "books/abc.pdf");
    assert_eq!(thumb_file_path("abc"), "thumbnails/abc");
}

#[test]
fn extension_splits_textually() {
    assert_eq!(extension_of("dir/report.pdf"), Some("pdf".to_string()));
    assert_eq!(extension_of("report.tar.gz"), Some("gz".to_string()));
    assert_eq!(extension_of("dir.d/file"), None);
    assert_eq!(extension_of("noext"), None);
    assert_eq!(extension_of("dir/.hidden"), None);
    assert_eq!(extension_of(".hidden"), None);
    assert_eq!(extension_of("dir/.hidden.txt"), Some("txt".to_string()));
    assert_eq!(extension_of("trailing."), Some("".to_string()));
}

#[test]
fn backslash_separates_too() {
    assert_eq!(extension_of("dir\\report.pdf"), Some("pdf".to_string()));
    assert_eq!(file_stem_of("dir\\report.pdf"), Some("report".to_string()));
    assert_eq!(file_stem_of("c\\inbox\\files.d\\plain"), Some("plain".to_string()));
    assert_eq!(extension_of("dir.pdf\\file"), None);
    assert_eq!(extension_of("dir\\.hidden"), None);
    assert_eq!(file_stem_of("dir\\"), None);
}

#[test]
fn stem_splits_textually() {
    assert_eq!(file_stem_of("dir/report.pdf"), Some("report".to_string()));
    assert_eq!(file_stem_of("report.tar.gz"), Some("report.tar".to_string()));
    assert_eq!(file_stem_of("dir/plain"), Some("plain".to_string()));
    assert_eq!(file_stem_of("dir/"), None);
    assert_eq!(file_stem_of(".hidden"), Some(".hidden".to_string()));
}

#[test]
fn extractor_routes_by_extension() {
    let meta = BookMetadataFactory::metadata_from(
        &"books/xyz.pdf".to_string(),
        &"xyz".to_string(),
        42,
    )
    .expect("supported");
    assert_eq!(meta.page_count, 42);
    assert_eq!(meta.thumbnail_path, "thumbnails/xyz");
    let err = BookMetadataFactory::metadata_from(
        &"books/xyz.epub".to_string(),
        &"xyz".to_string(),
        42,
    )
    .unwrap_err();
    assert_eq!(err, LibraryError::UnsupportedFormat);
}

#[test]
fn error_messages_name_the_failure() {
    assert_eq!(LibraryError::NotFound.message(), "book not found");
    assert_eq!(LibraryError::UnsupportedFormat.message(), "unsupported document format");
    assert_eq!(LibraryError::ExtractionError.message(), "document metadata extraction failed");
    assert_eq!(LibraryError::IoError.message(), "file operation failed");
    assert_eq!(LibraryError::CorruptStore.message(), "persisted store is corrupt");
}

#[test]
fn settings_defaults_and_updates() {
    let mut s = SettingsStore::new();
    match s.get(SETTING::Theme) {
        StoreUnitType::Text(t) => assert_eq!(t, "dark"),
        _ => panic!("the default theme is text"),
    }
    assert!(matches!(s.get(SETTING::BookLoadPath), StoreUnitType::Unset));
    s.set(SETTING::BookLoadPath, StoreUnitType::Text("/books".to_string()));
    match s.get(SETTING::BookLoadPath) {
        StoreUnitType::Text(t) => assert_eq!(t, "/books"),
        _ => panic!("was just set to text"),
    }
    match s.get(SETTING::Theme) {
        StoreUnitType::Text(t) => assert_eq!(t, "dark"),
        _ => panic!("untouched key keeps its value"),
    }
    s.apply(SettingsData { theme: "light".to_string(), book_load_path: "/new".to_string() });
    match s.get(SETTING::Theme) {
        StoreUnitType::Text(t) => assert_eq!(t, "light"),
        _ => panic!("applied"),
    }
    s.set(SETTING::Theme, StoreUnitType::Array(vec!["a".to_string(), "b".to_string()]));
    match s.get(SETTING::Theme) {
        StoreUnitType::Array(v) => assert_eq!(v.len(), 2),
        _ => panic!("was just set to an array"),
    }
}
