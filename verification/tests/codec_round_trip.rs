//! The persisted format: encoding, decoding, and their round trip.
use bookshelf::catalog::Catalog;
use bookshelf::json_dec::decode_catalog;
use bookshelf::json_enc::encode_catalog;
use bookshelf::model::Book;
use bookshelf::model::Date;
use bookshelf::model::TextHighlight;
use bookshelf::model::TextHighlightColor;
use bookshelf::model::TimeSpan;
use bookshelf::model::Timestamp;

fn sample_book(id: &str, name: &str) -> Book {
    Book {
        id: id.to_string(),
        name: name.to_string(),
        description: String::new(),
        current_page: 0,
        page_count: 3,
        score: None,
        is_favorite: false,
        is_open: false,
        time_spent: TimeSpan { secs: 0, nanos: 0 },
        completed_at: None,
        last_time_opened: None,
        text_highlights: Vec::new(),
        file_size: 1234,
        book_path: format!("books/{}.pdf", id),
        thumbnail_path: format!("thumbnails/{}", id),
    }
}

fn sample_date() -> Date {
    Date { year: 2024, month: 5, day: 17 }
}

#[test]
fn empty_catalog_encodes_exactly() {
    let c = Catalog::new(sample_date());
    let text = encode_catalog(&c);
    assert_eq!(
        text,
        "{\"theme\":\"dark\",\"hours_read_this_week\":[0,0,0,0,0,0,0],\
         \"average_hours_this_month\":0,\"most_active_day\":\
         {\"year\":2024,\"month\":5,\"day\":17},\"books\":[]}"
    );
}

#[test]
fn empty_catalog_round_trips() {
    let c = Catalog::new(sample_date());
    let text = encode_catalog(&c);
    let back = decode_catalog(&text).expect("own encoding must decode");
    assert_eq!(back.get_theme(), "dark");
    assert_eq!(back.book_count(), 0);
    assert_eq!(back.week_ref(), &vec![0u8, 0, 0, 0, 0, 0, 0]);
    assert_eq!(back.average_hours(), 0);
    let d = back.most_active_day();
    assert_eq!((d.year, d.month, d.day), (2024, 5, 17));
}

#[test]
fn full_catalog_round_trips() {
    let mut book = sample_book("id-1", "Systems Book");
    book.description = "line1\nline2 \"quoted\" back\\slash".to_string();
    book.current_page = 2;
    book.score = Some(9);
    book.is_favorite = true;
    book.is_open = true;
    book.time_spent = TimeSpan { secs: 3661, nanos: 500_000_000 };
    book.completed_at = Some(Timestamp { secs: 1_700_000_000, nanos: 1 });
    book.last_time_opened = Some(Timestamp { secs: 1_700_000_100, nanos: 999_999_999 });
    book.text_highlights = vec![
        TextHighlight {
            page_number: 1,
            line_number: 2,
            start_pos: 3,
            length: 4,
            color: TextHighlightColor::RED,
        },
        TextHighlight {
            page_number: 65535,
            line_number: 0,
            start_pos: 0,
            length: 1,
            color: TextHighlightColor::PURPLE,
        },
    ];
    let other = sample_book("id-2", "übermäßig 📚 name");
    let c = Catalog::from_parts(
        "light".to_string(),
        vec![1, 2, 3, 4, 5, 6, 7],
        12,
        Date { year: -44, month: 3, day: 15 },
        vec![book, other],
    );
    let text = encode_catalog(&c);
    let back = decode_catalog(&text).expect("own encoding must decode");
    assert_eq!(back.get_theme(), "light");
    assert_eq!(back.week_ref(), &vec![1u8, 2, 3, 4, 5, 6, 7]);
    assert_eq!(back.average_hours(), 12);
    let d = back.most_active_day();
    assert_eq!((d.year, d.month, d.day), (-44, 3, 15));
    let books = back.get_books();
    assert_eq!(books.len(), 2);
    let b = &books[0];
    assert_eq!(b.id, "id-1");
    assert_eq!(b.name, "Systems Book");
    assert_eq!(b.description, "line1\nline2 \"quoted\" back\\slash");
    assert_eq!(b.current_page, 2);
    assert_eq!(b.page_count, 3);
    assert_eq!(b.score, Some(9));
    assert!(b.is_favorite);
    assert!(b.is_open);
    assert_eq!(b.time_spent, TimeSpan { secs: 3661, nanos: 500_000_000 });
    assert_eq!(b.completed_at, Some(Timestamp { secs: 1_700_000_000, nanos: 1 }));
    assert_eq!(b.last_time_opened, Some(Timestamp { secs: 1_700_000_100, nanos: 999_999_999 }));
    assert_eq!(b.text_highlights.len(), 2);
    assert_eq!(b.text_highlights[0].color, TextHighlightColor::RED);
    assert_eq!(b.text_highlights[1].page_number, 65535);
    assert_eq!(b.text_highlights[1].color, TextHighlightColor::PURPLE);
    assert_eq!(b.file_size, 1234);
    assert_eq!(b.book_path, "books/id-1.pdf");
    assert_eq!(b.thumbnail_path, "thumbnails/id-1");
    assert_eq!(books[1].id, "id-2");
    assert_eq!(books[1].name, "übermäßig 📚 name");
}

#[test]
fn control_characters_escape_and_return() {
    let mut book = sample_book("x", "a\u{0}b\u{1f}c");
    book.description = "\t\r\n".to_string();
    let c = Catalog::from_parts(
        "dark".to_string(),
        vec![0; 7],
        0,
        sample_date(),
        vec![book],
    );
    let text = encode_catalog(&c);
    assert!(text.contains("\\u0000"));
    assert!(text.contains("\\u001f"));
    assert!(text.contains("\\u0009"));
    let back = decode_catalog(&text).expect("own encoding must decode");
    let books = back.get_books();
    assert_eq!(books[0].name, "a\u{0}b\u{1f}c");
    assert_eq!(books[0].description, "\t\r\n");
}

#[test]
fn extreme_numbers_round_trip() {
    let mut book = sample_book("n", "n");
    book.page_count = u64::MAX;
    book.file_size = 0;
    book.current_page = 0;
    let c = Catalog::from_parts(
        "dark".to_string(),
        vec![255; 7],
        u16::MAX,
        Date { year: i32::MIN, month: 1, day: 1 },
        vec![book],
    );
    let text = encode_catalog(&c);
    let back = decode_catalog(&text).expect("own encoding must decode");
    assert_eq!(back.average_hours(), u16::MAX);
    assert_eq!(back.most_active_day().year, i32::MIN);
    assert_eq!(back.get_books()[0].page_count, u64::MAX);
    assert_eq!(back.get_books()[0].file_size, 0);
}

#[test]
fn handwritten_document_decodes() {
    let text = "{\"theme\":\"sepia\",\"hours_read_this_week\":[1,0,2,0,3,0,4],\
                \"average_hours_this_month\":7,\"most_active_day\":\
                {\"year\":1999,\"month\":12,\"day\":31},\"books\":\
                [{\"id\":\"k\",\"name\":\"K\",\"description\":\"\",\
                \"current_page\":1,\"page_count\":2,\"score\":null,\
                \"is_favorite\":true,\"is_open\":false,\
                \"time_spent\":{\"secs\":5,\"nanos\":6},\
                \"completed_at\":null,\"last_time_opened\":\
                {\"secs_since_epoch\":8,\"nanos_since_epoch\":9},\
                \"text_highlights\":[],\"file_size\":10,\
                \"book_path\":\"books/k.pdf\",\"thumbnail_path\":\"thumbnails/k\"}]}"
        .replace(" ", "")
        .replace("\\\n", "");
    let c = decode_catalog(&text).expect("a document of the format decodes");
    assert_eq!(c.get_theme(), "sepia");
    assert_eq!(c.week_ref(), &vec![1u8, 0, 2, 0, 3, 0, 4]);
    let books = c.get_books();
    assert_eq!(books.len(), 1);
    assert_eq!(books[0].name, "K");
    assert!(books[0].is_favorite);
    assert_eq!(books[0].time_spent, TimeSpan { secs: 5, nanos: 6 });
    assert_eq!(books[0].last_time_opened, Some(Timestamp { secs: 8, nanos: 9 }));
}

#[test]
fn garbage_is_rejected() {
    assert!(decode_catalog("").is_none());
    assert!(decode_catalog("{}").is_none());
    assert!(decode_catalog("not json at all").is_none());
    assert!(decode_catalog("{\"theme\":\"dark\"}").is_none());
    let c = Catalog::new(sample_date());
    let text = encode_catalog(&c);
    // Trailing garbage must be rejected: the document is the whole file.
    let mut longer = text.clone();
    longer.push(' ');
    assert!(decode_catalog(&longer).is_none());
    // A truncated document must be rejected.
    let short = &text[..text.len() - 1];
    assert!(decode_catalog(short).is_none());
    // Numbers with leading zeros are not of the format.
    let padded = text.replace("\"average_hours_this_month\":0", "\"average_hours_this_month\":00");
    assert!(decode_catalog(&padded).is_none());
}
