//! What the library reports while it loads, ranks and saves mirrors.
use std::sync::Arc;
use std::time::Duration;
use vstd::prelude::*;

use crate::error::NetworkError;
use crate::mirror::{MirrorId, Mirrorlist, Rate};

verus! {

/// A receiver of events that can be copied to every concurrent measurement.
pub trait Callback: FnMut(Event) + Send + Clone {

}

impl<F> Callback for F where F: FnMut(Event) + Send + Clone {

}

/// An event of a ranking run.
#[derive(Debug, Clone)]
pub enum Event {
    CliParsingError,
    LoadMirrorlist(LoadMirrorlistEvent),
    SaveMirrorlist(SaveMirrorlistEvent),
    Measure { id: MirrorId, event: MeasureEvent },
    NoMirrorsFound,
}

/// Progress of loading the mirror list.
#[derive(Debug, Clone)]
pub enum LoadMirrorlistEvent {
    Success(Arc<Mirrorlist>),
    CacheExpired,
    CacheReadFailure,
    Fetching,
    FetchFailure,
}

/// Outcome of saving the cache or the ranked mirror list.
#[derive(Debug, Clone, Copy, PartialEq, Eq, Structural)]
pub enum SaveMirrorlistEvent {
    CacheSaveSuccess,
    CacheSaveFailure,
    MirrorlistSaveSuccess,
    MirrorlistSaveFailure,
}

/// Progress of measuring one mirror.
#[derive(Debug, Clone)]
pub enum MeasureEvent {
    Connecting,
    Connected { connection_time: Duration, file_size: Option<u64> },
    BytesReceived { rate: Rate },
    Finished { rate: Rate },
    Failed(NetworkError),
}

} // verus!
