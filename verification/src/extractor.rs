//! Routing documents to their metadata extractor.  Extraction itself —
//! reading the document and rendering its first page — is file-system work
//! that the caller performs; here the route is decided by extension and the
//! metadata record is assembled from what the extractor reported.
use vstd::prelude::*;

use crate::paths::extension_of;
use crate::paths::spec_extension;
use crate::paths::spec_thumb_file;
use crate::paths::thumb_file_path;
use crate::service::LibraryError;
use crate::strutil::str_eq;

verus! {

/// What extraction yields for a stored document: its page count and the
/// managed name its thumbnail was written under.
#[derive(Debug)]
pub struct BookMetadata {
    pub page_count: u64,
    pub thumbnail_path: String,
}

/// Chooses the extractor for a document and assembles its metadata record.
pub struct BookMetadataFactory;

impl BookMetadataFactory {
    /// Routes by the managed document's extension — only one format is
    /// supported today, and an unrecognized extension fails fast — and
    /// assembles the record from the page count the extractor reported.
    pub fn metadata_from(book_path: &String, book_id: &String, page_count: u64) -> (r: Result<
        BookMetadata,
        LibraryError,
    >)
        ensures
            (r is Ok) <==> spec_extension(book_path@) == Some(("pdf")@),
            match r {
                Ok(m) => m.page_count == page_count && m.thumbnail_path@ == spec_thumb_file(
                    book_id@,
                ),
                Err(e) => e == LibraryError::UnsupportedFormat,
            },
    {
        let ext_ok = match extension_of(book_path.as_str()) {
            Some(e) => str_eq(e.as_str(), "pdf"),
            None => false,
        };
        if !ext_ok {
            return Err(LibraryError::UnsupportedFormat);
        }
        Ok(BookMetadata { page_count, thumbnail_path: thumb_file_path(book_id.as_str()) })
    }
}

} // verus!
