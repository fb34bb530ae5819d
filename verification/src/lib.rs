//! A personal document library: an in-memory catalog of book records with a
//! durable JSON representation, the derivation of managed file paths, and the
//! service that keeps the catalog, its persisted snapshot and the managed
//! files consistent.
pub mod catalog;
pub mod extractor;
pub mod json_dec;
pub mod json_enc;
pub mod json_props;
pub mod json_sound;
pub mod json_spec;
pub mod model;
pub mod paths;
pub mod service;
pub mod settings;
pub mod strutil;

pub use catalog::Catalog;
pub use extractor::BookMetadata;
pub use extractor::BookMetadataFactory;
pub use service::BookService;
pub use service::ImportPlan;
pub use service::LibraryError;
pub use settings::SettingsData;
pub use settings::SettingsStore;
pub use settings::StoreUnitType;
pub use settings::SETTING;

pub use model::Book;
pub use model::Date;
pub use model::TextHighlight;
pub use model::TextHighlightColor;
pub use model::TimeSpan;
pub use model::Timestamp;
