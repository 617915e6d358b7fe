//! What reading a persisted file can give, and what each store makes of it.
//!
//! The caller reads the file and parses it; the rules for a missing, an
//! unreadable and a malformed file are decided here. The history surfaces a
//! malformed file as an error. The settings never do: they fall back to
//! their defaults.

use vstd::prelude::*;
use crate::config::{AppConfig, ConfigView};
use crate::item::ItemView;
use crate::store::ClipboardStorage;

verus! {

/// The outcome of reading and parsing one file.
pub enum Fetched<T, E> {
    /// There is no file at the path.
    Missing,
    /// The path could not be found out or the file could not be read.
    Unreadable(E),
    /// The file was read and is not of the expected form.
    Malformed(E),
    /// The file was read and parsed.
    Parsed(T),
}

/// Why a persisted file gave no value.
pub enum LoadError<E> {
    /// The path could not be found out or the file could not be read.
    Unreadable(E),
    /// The file was read and is not of the expected form.
    Malformed(E),
}

impl<E> LoadError<E> {
    /// The error as the caller met it.
    pub fn into_inner(self) -> (error: E)
        ensures
            error == match self {
                LoadError::Unreadable(e) => e,
                LoadError::Malformed(e) => e,
            },
    {
        match self {
            LoadError::Unreadable(e) => e,
            LoadError::Malformed(e) => e,
        }
    }
}

impl ClipboardStorage {
    /// The history that a read of the history file stands for. A missing
    /// file is the empty history. A file that cannot be read or parsed is an
    /// error: a damaged history is never silently thrown away.
    pub fn load<E>(fetched: Fetched<ClipboardStorage, E>) -> (loaded: Result<
        ClipboardStorage,
        LoadError<E>,
    >)
        ensures
            match fetched {
                Fetched::Missing => loaded is Ok && loaded->Ok_0@ == Seq::<ItemView>::empty(),
                Fetched::Unreadable(e) => loaded == Err::<ClipboardStorage, _>(
                    LoadError::Unreadable(e),
                ),
                Fetched::Malformed(e) => loaded == Err::<ClipboardStorage, _>(
                    LoadError::Malformed(e),
                ),
                Fetched::Parsed(storage) => loaded == Ok::<_, LoadError<E>>(storage),
            },
    {
        match fetched {
            Fetched::Missing => Ok(ClipboardStorage::new()),
            Fetched::Unreadable(e) => Err(LoadError::Unreadable(e)),
            Fetched::Malformed(e) => Err(LoadError::Malformed(e)),
            Fetched::Parsed(storage) => Ok(storage),
        }
    }
}

impl AppConfig {
    /// The settings that a read of the settings file stands for. A missing
    /// file and a malformed one both give the defaults: damaged settings
    /// never keep the application from starting. Only a file that cannot be
    /// read is an error.
    pub fn load<E>(fetched: Fetched<AppConfig, E>) -> (loaded: Result<AppConfig, LoadError<E>>)
        ensures
            match fetched {
                Fetched::Missing => loaded is Ok && loaded->Ok_0@ == ConfigView::defaults(),
                Fetched::Unreadable(e) => loaded == Err::<AppConfig, _>(LoadError::Unreadable(e)),
                Fetched::Malformed(e) => loaded is Ok && loaded->Ok_0@ == ConfigView::defaults(),
                Fetched::Parsed(config) => loaded == Ok::<_, LoadError<E>>(config),
            },
    {
        match fetched {
            Fetched::Missing => Ok(AppConfig::default()),
            Fetched::Unreadable(e) => Err(LoadError::Unreadable(e)),
            Fetched::Malformed(_) => Ok(AppConfig::default()),
            Fetched::Parsed(config) => Ok(config),
        }
    }
}

} // verus!
