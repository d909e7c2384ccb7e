//! Settings of a download measurement, and the bookkeeping of one download.
use std::time::Duration;
use vstd::prelude::*;

use crate::mirror::{Protocol, Rate};
use crate::time::TimeSpan;

verus! {

/// How measurements connect and when they give up.
#[derive(Debug, Clone, Copy, PartialEq, Eq)]
pub struct ConnectionConfig {
    pub connection_timeout: Duration,
    pub timeout: Duration,
    pub max_concurrent_measurements: usize,
    /// Whether a download cut short by the timeout still counts.
    pub keep_timeouted: bool,
}

/// The span `std::time::Duration::from_secs` makes of a number of whole
/// seconds.
pub uninterp spec fn span_of_secs(secs: u64) -> Duration;

/// Calls `std::time::Duration::from_secs`, which depends on the number of
/// seconds alone: the span is the named one for that number.
#[verifier::external_body]
fn duration_from_secs(secs: u64) -> (r: Duration)
    ensures
        r == span_of_secs(secs),
{
    Duration::from_secs(secs)
}

impl Default for ConnectionConfig {
    /// Two seconds to connect, five in all, twelve at once, and downloads
    /// cut short by the timeout are kept.
    fn default() -> (r: ConnectionConfig)
        ensures
            r.connection_timeout == span_of_secs(2),
            r.timeout == span_of_secs(5),
            r.max_concurrent_measurements == 12,
            r.keep_timeouted,
    {
        ConnectionConfig {
            connection_timeout: duration_from_secs(2),
            timeout: duration_from_secs(5),
            max_concurrent_measurements: 12,
            keep_timeouted: true,
        }
    }
}

impl ConnectionConfig {
    pub fn new(
        connection_timeout: Duration,
        timeout: Duration,
        max_concurrent_measurements: usize,
        keep_timeouted: bool,
    ) -> (r: ConnectionConfig)
        ensures
            r == (ConnectionConfig {
                connection_timeout,
                timeout,
                max_concurrent_measurements,
                keep_timeouted,
            }),
    {
        ConnectionConfig { connection_timeout, timeout, max_concurrent_measurements, keep_timeouted }
    }

    pub fn with_max_concurrent_measurements(self, max_concurrent_measurements: usize) -> (r:
        ConnectionConfig)
        ensures
            r == (ConnectionConfig { max_concurrent_measurements, ..self }),
    {
        let mut c = self;
        c.max_concurrent_measurements = max_concurrent_measurements;
        c
    }

    pub fn with_connection_timeout(self, connection_timeout: Duration) -> (r: ConnectionConfig)
        ensures
            r == (ConnectionConfig { connection_timeout, ..self }),
    {
        let mut c = self;
        c.connection_timeout = connection_timeout;
        c
    }

    pub fn with_timeout(self, timeout: Duration) -> (r: ConnectionConfig)
        ensures
            r == (ConnectionConfig { timeout, ..self }),
    {
        let mut c = self;
        c.timeout = timeout;
        c
    }

    pub fn keep_timeouted(self, keep: bool) -> (r: ConnectionConfig)
        ensures
            r == (ConnectionConfig { keep_timeouted: keep, ..self }),
    {
        let mut c = self;
        c.keep_timeouted = keep;
        c
    }
}

/// Measures download rates with one configuration.
#[derive(Debug, Clone)]
pub struct Measure {
    config: ConnectionConfig,
}

impl Measure {
    pub closed spec fn configured(self) -> ConnectionConfig {
        self.config
    }

    pub fn new(config: ConnectionConfig) -> (r: Measure)
        ensures
            r.configured() == config,
    {
        Measure { config }
    }

    /// The configuration this measurer uses.
    pub fn config(&self) -> (r: ConnectionConfig)
        ensures
            r == self.configured(),
    {
        self.config
    }
}

/// How a mirror is measured.
#[derive(Debug, Clone, Copy, PartialEq, Eq, Structural)]
pub enum Transfer {
    /// Download the package database over HTTP(S).
    Http,
    /// A simulated transfer: rsync is not measured yet.
    Simulated,
}

impl Measure {
    /// HTTP and HTTPS mirrors are downloaded from; rsync mirrors get a
    /// simulated transfer.
    pub fn transfer_for(protocol: Protocol) -> (r: Transfer)
        ensures
            r == (if protocol == Protocol::Rsync {
                Transfer::Simulated
            } else {
                Transfer::Http
            }),
    {
        match protocol {
            Protocol::Http | Protocol::Https => Transfer::Http,
            Protocol::Rsync => Transfer::Simulated,
        }
    }
}

/// The size a simulated transfer reports.
pub const SIMULATED_SIZE: u64 = 1000;

/// The bytes a simulated transfer advances by per tick.
pub const SIMULATED_CHUNK: u64 = 10;

/// The byte counts a simulated transfer reports, one per tick: every
/// multiple of the chunk below the size.
pub fn simulated_progress() -> (r: Vec<u64>)
    ensures
        r@.len() == SIMULATED_SIZE / SIMULATED_CHUNK,
        forall|k: int| 0 <= k < r@.len() ==> #[trigger] r@[k] == k * SIMULATED_CHUNK,
{
    let mut r: Vec<u64> = Vec::new();
    let mut i: u64 = 0;
    while i < SIMULATED_SIZE
        invariant
            i <= SIMULATED_SIZE,
            i % SIMULATED_CHUNK == 0,
            r@.len() == i / SIMULATED_CHUNK,
            forall|k: int| 0 <= k < r@.len() ==> #[trigger] r@[k] == k * SIMULATED_CHUNK,
        decreases SIMULATED_SIZE - i,
    {
        r.push(i);
        i = i + SIMULATED_CHUNK;
    }
    r
}

/// What to do when the download stream reports an error.
#[derive(Debug, Clone, Copy, PartialEq, Eq, Structural)]
pub enum StreamError {
    /// Stop reading and keep what was downloaded.
    Stop,
    /// The measurement fails with the error.
    Fail,
}

/// The running tally of one download.
#[derive(Debug, Clone, Copy)]
pub struct Download {
    rate: Rate,
}

impl Download {
    /// The tally so far.
    pub closed spec fn tally(self) -> Rate {
        self.rate
    }

    /// A download that connected after `connection_time` and has received
    /// nothing yet.
    pub fn start(connection_time: TimeSpan) -> (r: Download)
        ensures
            r.tally() == (Rate {
                connection_time,
                download_time: TimeSpan { secs: 0, nanos: 0 },
                bytes_downloaded: 0,
            }),
    {
        Download { rate: Rate { connection_time, download_time: TimeSpan::zero(), bytes_downloaded: 0 } }
    }

    /// Records a received chunk of `len` bytes, `elapsed` after the download
    /// began, and returns the tally to report.
    pub fn on_chunk(&mut self, len: u64, elapsed: TimeSpan) -> (r: Rate)
        requires
            old(self).tally().bytes_downloaded + len <= u64::MAX,
        ensures
            final(self).tally() == (Rate {
                bytes_downloaded: (old(self).tally().bytes_downloaded + len) as u64,
                download_time: elapsed,
                ..old(self).tally()
            }),
            r == final(self).tally(),
    {
        self.rate.bytes_downloaded = self.rate.bytes_downloaded + len;
        self.rate.download_time = elapsed;
        self.rate
    }

    /// A timeout ends the download early when timed-out downloads are kept;
    /// any other error fails the measurement.
    pub fn on_error(&self, is_timeout: bool, keep_timeouted: bool) -> (r: StreamError)
        ensures
            r == (if is_timeout && keep_timeouted {
                StreamError::Stop
            } else {
                StreamError::Fail
            }),
    {
        if is_timeout && keep_timeouted {
            StreamError::Stop
        } else {
            StreamError::Fail
        }
    }

    /// The final tally, the download having lasted `elapsed`.
    pub fn finish(self, elapsed: TimeSpan) -> (r: Rate)
        ensures
            r == (Rate { download_time: elapsed, ..self.tally() }),
    {
        Rate { download_time: elapsed, ..self.rate }
    }
}

} // verus!
