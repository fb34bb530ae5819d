//! User preferences outside the catalog: a small keyed store with a fixed set
//! of keys, persisted by the caller in its own file.
use vstd::prelude::*;

verus! {

/// The keys of the settings store.
#[derive(Clone, Copy, PartialEq, Eq, Structural, Debug, Hash)]
#[allow(non_camel_case_types)]
pub enum SETTING {
    Theme,
    BookLoadPath,
}

/// A stored settings value: text, a list of texts, or nothing yet.
#[derive(Debug)]
pub enum StoreUnitType {
    Text(String),
    Array(Vec<String>),
    Unset,
}

/// The mathematical value of a settings entry.
#[verifier::ext_equal]
pub enum StoreUnitAbs {
    Text(Seq<char>),
    Array(Seq<Seq<char>>),
    Unset,
}

impl View for StoreUnitType {
    type V = StoreUnitAbs;

    open spec fn view(&self) -> StoreUnitAbs {
        match self {
            StoreUnitType::Text(s) => StoreUnitAbs::Text(s@),
            StoreUnitType::Array(v) => StoreUnitAbs::Array(v@.map_values(|s: String| s@)),
            StoreUnitType::Unset => StoreUnitAbs::Unset,
        }
    }
}

/// The persisted shape of the settings: one text per key.
pub struct SettingsData {
    pub theme: String,
    pub book_load_path: String,
}

/// The mathematical value of the whole settings store.
#[verifier::ext_equal]
pub struct SettingsAbs {
    pub theme: StoreUnitAbs,
    pub book_load_path: StoreUnitAbs,
}

/// The settings store: one slot per key.
pub struct SettingsStore {
    theme: StoreUnitType,
    book_load_path: StoreUnitType,
}

impl View for SettingsStore {
    type V = SettingsAbs;

    closed spec fn view(&self) -> SettingsAbs {
        SettingsAbs { theme: self.theme@, book_load_path: self.book_load_path@ }
    }
}

/// The slot a key names.
pub open spec fn entry_of(s: SettingsAbs, key: SETTING) -> StoreUnitAbs {
    match key {
        SETTING::Theme => s.theme,
        SETTING::BookLoadPath => s.book_load_path,
    }
}

impl SettingsStore {
    /// The defaults of a fresh store: the dark theme, no load path yet.
    pub fn new() -> (r: SettingsStore)
        ensures
            r@.theme == StoreUnitAbs::Text(("dark")@),
            r@.book_load_path == StoreUnitAbs::Unset,
    {
        SettingsStore {
            theme: StoreUnitType::Text(String::from_str("dark")),
            book_load_path: StoreUnitType::Unset,
        }
    }

    /// The value stored under a key.
    pub fn get(&self, key: SETTING) -> (r: &StoreUnitType)
        ensures
            r@ == entry_of(self@, key),
    {
        match key {
            SETTING::Theme => &self.theme,
            SETTING::BookLoadPath => &self.book_load_path,
        }
    }

    /// Replaces the value stored under a key.
    pub fn set(&mut self, key: SETTING, value: StoreUnitType)
        ensures
            entry_of(final(self)@, key) == value@,
            forall|other: SETTING| other != key ==> entry_of(final(self)@, other) == entry_of(
                old(self)@,
                other,
            ),
    {
        match key {
            SETTING::Theme => {
                self.theme = value;
            },
            SETTING::BookLoadPath => {
                self.book_load_path = value;
            },
        }
    }

    /// Takes over every field of a persisted settings document.
    pub fn apply(&mut self, data: SettingsData)
        ensures
            final(self)@.theme == StoreUnitAbs::Text(data.theme@),
            final(self)@.book_load_path == StoreUnitAbs::Text(data.book_load_path@),
    {
        self.theme = StoreUnitType::Text(data.theme);
        self.book_load_path = StoreUnitType::Text(data.book_load_path);
    }
}

} // verus!
