//! Events of the command-line front end.
use std::path::PathBuf;
use std::sync::Arc;
use vstd::prelude::*;

use crate::event::MeasureEvent;
use crate::mirror::{MirrorId, Mirrorlist};

verus! {

/// An event of a command-line run.
#[derive(Debug, Clone)]
pub enum Event {
    CliParse(CliParseEvent),
    InitMirrorlist(InitMirrorlistEvent),
    Measure { id: MirrorId, event: MeasureEvent },
    SaveMirrorlist(SaveMirrorlistEvent),
}

/// Outcome of reading the command line.
#[derive(Debug, Clone, Copy, PartialEq, Eq, Structural)]
pub enum CliParseEvent {
    Error,
    Parsed { verbose: bool },
}

/// Progress of obtaining the mirror list.
#[derive(Debug, Clone)]
pub enum InitMirrorlistEvent {
    Success { mirrorlist: Arc<Mirrorlist> },
    CheckingCache { path: PathBuf },
    CacheExpired,
    CacheReadFailure,
    /// Fetching from this URL (its serialization).
    Fetching { url: String },
    FetchFailure,
    CacheSaveSuccess { path: PathBuf },
    CacheSaveFailure { path: PathBuf, error: String },
}

/// Outcome of ranking and saving.
#[derive(Debug, Clone)]
pub enum SaveMirrorlistEvent {
    NoMirrorsFound,
    MirrorsFound(Vec<MirrorId>),
    MirrorlistSaveSuccess { path: PathBuf },
    MirrorlistSaveFailure { path: PathBuf, error: String },
}

} // verus!
