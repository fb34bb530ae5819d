//! The library service: importing, deleting, updating, theme persistence.
use bookshelf::json_dec::decode_catalog;
use bookshelf::model::Book;
use bookshelf::model::TimeSpan;
use bookshelf::service::bootstrap_catalog;
use bookshelf::service::load_catalog;
use bookshelf::service::BookService;
use bookshelf::service::ImportPlan;
use bookshelf::service::LibraryError;

fn fresh_service() -> BookService {
    BookService::new(bootstrap_catalog()).expect("a fresh catalog satisfies the invariant")
}

fn import_one(service: &mut BookService, source: &str, size: u64, pages: u64) -> Book {
    let plan = service.plan_import(source).expect("plan");
    // The caller would now copy the file and extract; then the record lands.
    service.finish_import(&plan, size, pages).expect("finish")
}

#[test]
fn fresh_environment_has_dark_theme_and_no_books() {
    // No persisted file at all: load bootstraps the defaults.
    let catalog = load_catalog(None).expect("bootstrap");
    assert_eq!(catalog.get_theme(), "dark");
    assert_eq!(catalog.book_count(), 0);
    assert_eq!(catalog.week_ref(), &vec![0u8, 0, 0, 0, 0, 0, 0]);
    assert_eq!(catalog.average_hours(), 0);
    let d = catalog.most_active_day();
    assert!(1 <= d.month && d.month <= 12);
    assert!(1 <= d.day && d.day <= 31);
}

#[test]
fn corrupt_store_is_reported_not_recreated() {
    assert_eq!(load_catalog(Some("{broken")).unwrap_err(), LibraryError::CorruptStore);
}

#[test]
fn import_stores_the_reported_metadata() {
    let mut service = fresh_service();
    let book = import_one(&mut service, "inbox/report.pdf", 4096, 3);
    // The scenario of a three-page document.
    assert_eq!(book.page_count, 3);
    assert_eq!(book.current_page, 0);
    assert!(!book.is_favorite);
    assert!(!book.is_open);
    assert_eq!(book.file_size, 4096);
    assert_eq!(book.name, "report");
    assert_eq!(book.description, "");
    assert_eq!(book.score, None);
    assert_eq!(book.time_spent, TimeSpan { secs: 0, nanos: 0 });
    assert_eq!(book.completed_at, None);
    assert_eq!(book.last_time_opened, None);
    assert!(book.text_highlights.is_empty());
    // Identifiers are freshly drawn, 36 characters of lowercase hex and hyphens.
    assert_eq!(book.id.len(), 36);
    assert!(book.id.chars().all(|c| c.is_ascii_hexdigit() && !c.is_ascii_uppercase() || c == '-'));
    // Both managed files are recorded present, under the derived names.
    assert_eq!(book.book_path, format!("books/{}.pdf", book.id));
    assert_eq!(book.thumbnail_path, format!("thumbnails/{}", book.id));
    assert!(service.has_managed_file(&book.book_path));
    assert!(service.has_managed_file(&book.thumbnail_path));
    // And the record is stored.
    assert_eq!(service.get_books().len(), 1);
    assert!(service.get_book(&book.id).is_some());
}

#[test]
fn identifiers_are_fresh_per_import() {
    let mut service = fresh_service();
    let a = import_one(&mut service, "same/source.pdf", 5, 1);
    let b = import_one(&mut service, "same/source.pdf", 5, 1);
    // The same source imported twice lands as two records with fresh
    // identifiers and distinct managed files.
    assert_ne!(a.id, b.id);
    assert_ne!(a.book_path, b.book_path);
    assert_eq!(service.get_books().len(), 2);
    assert!(service.has_managed_file(&a.book_path));
    assert!(service.has_managed_file(&b.book_path));
}

#[test]
fn backslash_paths_import_like_slash_paths() {
    let mut service = fresh_service();
    let book = import_one(&mut service, "inbox\\report.pdf", 7, 2);
    assert_eq!(book.name, "report");
    assert_eq!(book.page_count, 2);
}

#[test]
fn unsupported_extension_fails_fast() {
    let service = fresh_service();
    assert_eq!(service.plan_import("notes.txt").unwrap_err(), LibraryError::UnsupportedFormat);
    assert_eq!(service.plan_import("archive").unwrap_err(), LibraryError::UnsupportedFormat);
    assert_eq!(service.plan_import("dir.pdf/file").unwrap_err(), LibraryError::UnsupportedFormat);
    assert_eq!(service.plan_import("dir/.pdf").unwrap_err(), LibraryError::UnsupportedFormat);
}

#[test]
fn failed_extraction_stores_nothing() {
    let mut service = fresh_service();
    let plan = service.plan_import("inbox/broken.pdf").expect("plan");
    let err = service.finish_import(&plan, 10, 0).unwrap_err();
    assert_eq!(err, LibraryError::ExtractionError);
    assert_eq!(service.get_books().len(), 0);
    // The copied file may remain on disk, but no record points at it.
    assert!(service.get_book(&plan.book_id).is_none());
}

#[test]
fn forged_plans_are_refused() {
    let mut service = fresh_service();
    let plan = ImportPlan {
        book_id: "someid".to_string(),
        name: "x".to_string(),
        book_path: "elsewhere/file.pdf".to_string(),
        thumbnail_path: "thumbnails/someid".to_string(),
    };
    assert_eq!(service.finish_import(&plan, 1, 1).unwrap_err(), LibraryError::IoError);
    assert_eq!(service.get_books().len(), 0);
}

#[test]
fn delete_removes_record_and_files() {
    let mut service = fresh_service();
    let book = import_one(&mut service, "a/first.pdf", 10, 5);
    let other = import_one(&mut service, "a/second.pdf", 20, 7);
    let (bp, tp) = service.book_files(&book.id).expect("present");
    assert_eq!(bp, book.book_path);
    assert_eq!(tp, book.thumbnail_path);
    // The caller removed both files; the record follows.
    assert!(service.delete_book(&book.id));
    assert!(service.get_book(&book.id).is_none());
    assert!(!service.has_managed_file(&bp));
    assert!(!service.has_managed_file(&tp));
    // The other book is untouched.
    assert!(service.get_book(&other.id).is_some());
    assert!(service.has_managed_file(&other.book_path));
    assert!(service.has_managed_file(&other.thumbnail_path));
}

#[test]
fn delete_twice_is_delete_once() {
    let mut service = fresh_service();
    let book = import_one(&mut service, "a/only.pdf", 10, 5);
    assert!(service.delete_book(&book.id));
    let snapshot_after_first = service.snapshot();
    // The second call reports nothing to do and changes nothing.
    assert!(!service.delete_book(&book.id));
    assert_eq!(service.snapshot(), snapshot_after_first);
    assert!(service.get_book(&book.id).is_none());
}

#[test]
fn update_replaces_wholesale_but_keeps_managed_names() {
    let mut service = fresh_service();
    let book = import_one(&mut service, "a/tome.pdf", 10, 9);
    let mut changed = book.clone();
    changed.name = "renamed".to_string();
    changed.current_page = 4;
    changed.score = Some(10);
    changed.is_favorite = true;
    changed.file_size = 999999;
    changed.book_path = "books/forged.pdf".to_string();
    changed.thumbnail_path = "thumbnails/forged".to_string();
    service.update_book(changed).expect("record exists");
    let stored = service.get_book(&book.id).expect("still there").clone();
    assert_eq!(stored.name, "renamed");
    assert_eq!(stored.current_page, 4);
    assert_eq!(stored.score, Some(10));
    assert!(stored.is_favorite);
    // The managed names and the captured size stay what import assigned.
    assert_eq!(stored.book_path, book.book_path);
    assert_eq!(stored.thumbnail_path, book.thumbnail_path);
    assert_eq!(stored.file_size, 10);
}

#[test]
fn update_unknown_identifier_fails_and_changes_nothing() {
    let mut service = fresh_service();
    let book = import_one(&mut service, "a/kept.pdf", 10, 2);
    let before = service.snapshot();
    let mut ghostly = book.clone();
    ghostly.id = "no-such-identifier".to_string();
    ghostly.name = "should not land".to_string();
    assert_eq!(service.update_book(ghostly).unwrap_err(), LibraryError::NotFound);
    assert_eq!(service.snapshot(), before);
    assert_eq!(service.get_book(&book.id).unwrap().name, "kept");
}

#[test]
fn theme_survives_a_restart() {
    let mut service = fresh_service();
    service.set_theme("light".to_string());
    let persisted = service.snapshot();
    // A new process loads the persisted document afresh.
    let reloaded = load_catalog(Some(&persisted)).expect("own snapshot decodes");
    assert_eq!(reloaded.get_theme(), "light");
    let service2 = BookService::new(reloaded).expect("snapshot satisfies the invariant");
    assert_eq!(service2.get_theme(), "light");
}

#[test]
fn replayed_operations_match_a_reloaded_catalog() {
    let mut service = fresh_service();
    let a = import_one(&mut service, "x/a.pdf", 1, 1);
    let b = import_one(&mut service, "x/b.pdf", 2, 2);
    let _c = import_one(&mut service, "x/c.pdf", 3, 3);
    let mut renamed = b.clone();
    renamed.name = "b prime".to_string();
    service.update_book(renamed).expect("update");
    assert!(service.delete_book(&a.id));
    // Persist, reload, and compare the identifier sets and names.
    let persisted = service.snapshot();
    let reloaded = decode_catalog(&persisted).expect("own snapshot decodes");
    let mut live_ids: Vec<String> = service.get_books().iter().map(|x| x.id.clone()).collect();
    let mut disk_ids: Vec<String> = reloaded.get_books().iter().map(|x| x.id.clone()).collect();
    live_ids.sort();
    disk_ids.sort();
    assert_eq!(live_ids, disk_ids);
    let service2 = BookService::new(reloaded).expect("snapshot satisfies the invariant");
    assert_eq!(service2.get_book(&b.id).unwrap().name, "b prime");
    assert!(service2.get_book(&a.id).is_none());
    // And a second round trip is stable.
    assert_eq!(service2.snapshot(), persisted);
}
