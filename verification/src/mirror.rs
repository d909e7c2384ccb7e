//! Mirror records, their conversion from raw status records, and the list
//! that holds them.
use std::cmp::Ordering;
use vstd::prelude::*;

use crate::error::MirusError;
use crate::float::{int_order, FloatBits};
use crate::time::{TimeSpan, Timestamp};
use crate::urls::{self, url_join, url_parse, url_text};

verus! {

/// The protocol a mirror is served over.
#[derive(Debug, Clone, Copy, PartialEq, Eq, Structural, PartialOrd, Ord, Hash)]
pub enum Protocol {
    Http,
    Https,
    Rsync,
}

impl Protocol {
    /// Position in declaration order, which is the order of the protocols.
    pub open spec fn rank(self) -> int {
        match self {
            Protocol::Http => 0,
            Protocol::Https => 1,
            Protocol::Rsync => 2,
        }
    }
}

/// The position of a mirror in its list.
#[derive(Debug, Default, Clone, Copy, PartialEq, Eq, Structural, PartialOrd, Ord, Hash)]
pub struct MirrorId(usize);

impl MirrorId {
    /// The position this id names.
    pub closed spec fn position(self) -> nat {
        self.0 as nat
    }

    /// The position this id names.
    pub fn index(&self) -> (r: usize)
        ensures
            r == self.position(),
    {
        self.0
    }
}

/// The outcome of a download measurement.
#[derive(Debug, Clone, Copy, PartialEq, Eq, Structural)]
pub struct Rate {
    pub connection_time: TimeSpan,
    pub download_time: TimeSpan,
    pub bytes_downloaded: u64,
}

impl Rate {
    /// Both spans are well formed.
    pub open spec fn wf(self) -> bool {
        self.connection_time.wf() && self.download_time.wf()
    }

    /// The bytes of `self` scaled by the download milliseconds of `other`:
    /// comparing `self.cross(other)` with `other.cross(self)` compares the two
    /// download rates without dividing.
    pub open spec fn cross(self, other: Rate) -> int {
        self.bytes_downloaded * other.download_time.millis()
    }

    /// Both cross products fit in `u128`.
    pub open spec fn comparable(self, other: Rate) -> bool {
        self.cross(other) <= u128::MAX && other.cross(self) <= u128::MAX
    }

    /// Comparing rates by cross-multiplying is transitive when every download
    /// took at least a millisecond.
    pub proof fn lemma_cross_transitive(x: Rate, y: Rate, z: Rate)
        requires
            x.download_time.millis() > 0,
            y.download_time.millis() > 0,
            z.download_time.millis() > 0,
            x.cross(y) <= y.cross(x),
            y.cross(z) <= z.cross(y),
        ensures
            x.cross(z) <= z.cross(x),
    {
        let xb = x.bytes_downloaded as int;
        let yb = y.bytes_downloaded as int;
        let zb = z.bytes_downloaded as int;
        let xt = x.download_time.millis();
        let yt = y.download_time.millis();
        let zt = z.download_time.millis();
        assert(xb * zt <= zb * xt) by (nonlinear_arith)
            requires
                xb * yt <= yb * xt,
                yb * zt <= zb * yt,
                xt > 0,
                yt > 0,
                zt > 0,
                xb >= 0,
                yb >= 0,
                zb >= 0,
        {
            assert(xb * yt * zt <= yb * xt * zt);
            assert(yb * zt * xt <= zb * yt * xt);
            assert(xb * zt * yt <= zb * xt * yt);
        }
    }

    /// Connection and download time together.
    pub fn total_time(&self) -> (r: TimeSpan)
        requires
            self.wf(),
            self.connection_time.sum_fits(self.download_time),
        ensures
            r.wf(),
            r.total_nanos() == self.connection_time.total_nanos() + self.download_time.total_nanos(),
    {
        self.connection_time.add(self.download_time)
    }

    /// Orders two rates by bytes per millisecond of download time, comparing
    /// by cross-multiplication.
    pub fn cmp(&self, other: &Rate) -> (r: Ordering)
        requires
            self.comparable(*other),
        ensures
            r == int_order(self.cross(*other), other.cross(*self)),
    {
        let x = self.cross_product(other);
        let y = other.cross_product(self);
        if x < y {
            Ordering::Less
        } else if x == y {
            Ordering::Equal
        } else {
            Ordering::Greater
        }
    }

    /// The same order as `cmp`, as a partial order that always answers.
    pub fn partial_cmp(&self, other: &Rate) -> (r: Option<Ordering>)
        requires
            self.comparable(*other),
        ensures
            r == Some(int_order(self.cross(*other), other.cross(*self))),
    {
        Some(self.cmp(other))
    }

    /// The download took fewer than 2^64 milliseconds, so that this rate can
    /// be compared with any other.
    pub open spec fn bounded(self) -> bool {
        self.download_time.millis() <= u64::MAX
    }

    pub proof fn lemma_bounded_comparable(x: Rate, y: Rate)
        requires
            x.bounded(),
            y.bounded(),
        ensures
            x.comparable(y),
    {
        let xb = x.bytes_downloaded as int;
        let yb = y.bytes_downloaded as int;
        let xt = x.download_time.millis();
        let yt = y.download_time.millis();
        assert(0 <= xb * yt <= u128::MAX) by (nonlinear_arith)
            requires
                0 <= xb <= u64::MAX,
                0 <= yt <= u64::MAX,
        ;
        assert(0 <= yb * xt <= u128::MAX) by (nonlinear_arith)
            requires
                0 <= yb <= u64::MAX,
                0 <= xt <= u64::MAX,
        ;
    }

    /// The cross product `self.cross(other)`.
    pub fn cross_product(&self, other: &Rate) -> (r: u128)
        requires
            self.cross(*other) <= u128::MAX,
        ensures
            r == self.cross(*other),
    {
        let millis = other.download_time.as_millis();
        (self.bytes_downloaded as u128) * millis
    }
}

/// One mirror of the package repository, as the status service reports it.
#[derive(Debug, Clone)]
pub struct Mirror {
    pub id: MirrorId,
    pub active: bool,
    /// Share of checks that reached the mirror.
    pub completion_pct: FloatBits,
    pub country: String,
    pub country_code: String,
    /// Average mirroring delay in seconds.
    pub delay: u32,
    pub details: Option<String>,
    /// Average time to fetch the sync file, in seconds.
    pub duration_avg: FloatBits,
    pub duration_stddev: FloatBits,
    pub ipv4: bool,
    pub ipv6: bool,
    pub isos: bool,
    pub last_sync: Timestamp,
    pub protocol: Protocol,
    /// A rough ranking figure; lower is better.
    pub score: FloatBits,
    /// The serialization of the mirror's URL.
    pub url: String,
    /// The measured download rate, once measured.
    pub rate: Option<Rate>,
}

/// A mirror record as it arrives, with measurements that may be missing.
#[derive(Debug, Clone)]
pub struct RawMirror {
    pub active: bool,
    pub completion_pct: Option<FloatBits>,
    pub country: String,
    pub country_code: String,
    pub delay: Option<u32>,
    pub details: Option<String>,
    pub duration_avg: Option<FloatBits>,
    pub duration_stddev: Option<FloatBits>,
    pub ipv4: bool,
    pub ipv6: bool,
    pub isos: bool,
    pub last_sync: Option<Timestamp>,
    pub protocol: Protocol,
    pub score: Option<FloatBits>,
    pub url: String,
}

/// The serialization of the URL that `url::Url::parse` makes of `input`, or
/// `None` where it refuses the input.
pub open spec fn parsed_url(input: Seq<char>) -> Option<Seq<char>> {
    match url_parse(input) {
        Some(u) => Some(url_text(u)),
        None => None,
    }
}

/// The serialization of the URL that `url::Url::join` makes of `base`, parsed
/// with `url::Url::parse`, and `input`; `None` where either step refuses.
pub open spec fn joined_url(base: Seq<char>, input: Seq<char>) -> Option<Seq<char>> {
    match url_parse(base) {
        Some(b) => match url_join(b, input) {
            Some(j) => Some(url_text(j)),
            None => None,
        },
        None => None,
    }
}

/// Parses a URL and keeps its serialization.
fn parse_url(input: &str) -> (r: Option<String>)
    ensures
        match r {
            Some(s) => parsed_url(input@) == Some(s@),
            None => parsed_url(input@) is None,
        },
{
    match urls::parse(input) {
        Some(u) => Some(urls::text(&u)),
        None => None,
    }
}

/// Parses `base`, joins `input` to it, and keeps the serialization of the
/// joined URL.
fn join_url(base: &str, input: &str) -> (r: Option<String>)
    ensures
        match r {
            Some(s) => joined_url(base@, input@) == Some(s@),
            None => joined_url(base@, input@) is None,
        },
{
    match urls::parse(base) {
        Some(b) => match urls::join(&b, input) {
            Some(j) => Some(urls::text(&j)),
            None => None,
        },
        None => None,
    }
}

/// All measurements are present and the mirror is active.
pub open spec fn is_complete(raw: RawMirror) -> bool {
    &&& raw.completion_pct is Some
    &&& raw.delay is Some
    &&& raw.duration_avg is Some
    &&& raw.duration_stddev is Some
    &&& raw.score is Some
    &&& raw.last_sync is Some
    &&& raw.active
}

/// The mirror made of a complete raw record, with the given id and URL
/// serialization and no rate.
pub open spec fn mirror_of(raw: RawMirror, id: MirrorId, url: String) -> Mirror {
    Mirror {
        id,
        active: true,
        completion_pct: raw.completion_pct.unwrap(),
        country: raw.country,
        country_code: raw.country_code,
        delay: raw.delay.unwrap(),
        details: raw.details,
        duration_avg: raw.duration_avg.unwrap(),
        duration_stddev: raw.duration_stddev.unwrap(),
        ipv4: raw.ipv4,
        ipv6: raw.ipv6,
        isos: raw.isos,
        last_sync: raw.last_sync.unwrap(),
        protocol: raw.protocol,
        score: raw.score.unwrap(),
        url,
        rate: None,
    }
}

/// A raw record is accepted when it is complete and its URL parses.
pub open spec fn is_accepted(raw: RawMirror) -> bool {
    is_complete(raw) && parsed_url(raw.url@) is Some
}

/// `m` is the mirror that an accepted raw record becomes, under the given id.
pub open spec fn converts_to(raw: RawMirror, m: Mirror, position: nat) -> bool {
    &&& m == mirror_of(raw, m.id, m.url)
    &&& m.id.position() == position
    &&& m.url@ == parsed_url(raw.url@).unwrap()
}

/// A mirror made of an accepted raw record keeps each field of the record:
/// it is active, its measurements are the record's, its flags, country,
/// details and protocol are the record's, its URL is the record's URL as
/// parsed, it sits at the given position, and no rate is measured yet.
pub proof fn lemma_conversion_keeps_fields(raw: RawMirror, m: Mirror, position: nat)
    requires
        is_accepted(raw),
        converts_to(raw, m, position),
    ensures
        m.active,
        raw.completion_pct == Some(m.completion_pct),
        raw.delay == Some(m.delay),
        raw.duration_avg == Some(m.duration_avg),
        raw.duration_stddev == Some(m.duration_stddev),
        raw.score == Some(m.score),
        raw.last_sync == Some(m.last_sync),
        m.ipv4 == raw.ipv4,
        m.ipv6 == raw.ipv6,
        m.isos == raw.isos,
        m.country == raw.country,
        m.country_code == raw.country_code,
        m.details == raw.details,
        m.protocol == raw.protocol,
        Some(m.url@) == parsed_url(raw.url@),
        m.id.position() == position,
        m.rate is None,
{
}

/// The message of the error that rejects a raw record.
pub open spec fn rejection_message(raw: RawMirror) -> Seq<char> {
    if is_complete(raw) {
        "invalid url"@
    } else {
        "mirror is not active"@
    }
}

/// The accepted records among `raws`, in their order.
pub open spec fn accepted(raws: Seq<RawMirror>) -> Seq<RawMirror> {
    raws.filter(|r: RawMirror| is_accepted(r))
}

impl Mirror {
    /// Where the package database lies below a mirror's URL.
    pub const DB_SUBPATH: &'static str = "extra/os/x86_64/extra.db";

    /// Makes a mirror of a raw record: it must be active with every
    /// measurement present, and its URL must parse.
    pub fn try_from(raw: RawMirror) -> (r: Result<Mirror, MirusError>)
        ensures
            match r {
                Ok(m) => is_accepted(raw) && converts_to(raw, m, 0),
                Err(e) => !is_accepted(raw) && e is InvalidMirror && (e->InvalidMirror_0)@
                    == rejection_message(raw),
            },
    {
        if raw.active && raw.completion_pct.is_some() && raw.delay.is_some()
            && raw.duration_avg.is_some() && raw.duration_stddev.is_some() && raw.score.is_some()
            && raw.last_sync.is_some() {
            match parse_url(raw.url.as_str()) {
                Some(url) => Ok(
                    Mirror {
                        id: MirrorId(0),
                        active: true,
                        completion_pct: raw.completion_pct.unwrap(),
                        country: raw.country,
                        country_code: raw.country_code,
                        delay: raw.delay.unwrap(),
                        details: raw.details,
                        duration_avg: raw.duration_avg.unwrap(),
                        duration_stddev: raw.duration_stddev.unwrap(),
                        ipv4: raw.ipv4,
                        ipv6: raw.ipv6,
                        isos: raw.isos,
                        last_sync: raw.last_sync.unwrap(),
                        protocol: raw.protocol,
                        score: raw.score.unwrap(),
                        url,
                        rate: None,
                    },
                ),
                None => Err(MirusError::InvalidMirror("invalid url".to_string())),
            }
        } else {
            Err(MirusError::InvalidMirror("mirror is not active".to_string()))
        }
    }

    /// The URL of the package database on this mirror.
    pub fn db_url(&self) -> (r: String)
        requires
            joined_url(self.url@, Self::DB_SUBPATH@) is Some,
        ensures
            r@ == joined_url(self.url@, Self::DB_SUBPATH@).unwrap(),
    {
        match join_url(self.url.as_str(), Self::DB_SUBPATH) {
            Some(u) => u,
            None => {
                assert(false);
                String::new()
            }
        }
    }

    /// The URL of the package database on this mirror, or `None` where the
    /// mirror's URL cannot be a base for it.
    pub fn checked_db_url(&self) -> (r: Option<String>)
        ensures
            match r {
                Some(s) => joined_url(self.url@, Self::DB_SUBPATH@) == Some(s@),
                None => joined_url(self.url@, Self::DB_SUBPATH@) is None,
            },
    {
        match join_url(self.url.as_str(), Self::DB_SUBPATH) {
            Some(_) => Some(self.db_url()),
            None => None,
        }
    }

    /// The line naming this mirror in a pacman mirrorlist.
    pub fn mirrorlist_entry(&self) -> (r: String)
        ensures
            r@ == entry_text(self.url@),
    {
        let mut line = "Server = ".to_string();
        line.append(self.url.as_str());
        line.append("/$repo/os/$arch");
        line
    }
}

/// The mirror list published by the status service.
#[derive(Debug)]
pub struct Mirrorlist {
    /// Where the list was fetched from, as a URL serialization.
    pub url: Option<String>,
    pub check_frequency: u32,
    pub cutoff: u32,
    pub last_check: Timestamp,
    pub num_checks: usize,
    pub mirrors: Vec<Mirror>,
    pub version: u32,
}

impl Mirrorlist {
    /// The status service's mirror list.
    pub const URL: &'static str = "https://archlinux.org/mirrors/status/json/";

    /// Every mirror's id names its own position.
    pub open spec fn ids_match(self) -> bool {
        forall|i: int| 0 <= i < self.mirrors@.len() ==> #[trigger] self.mirrors@[i].id.position() == i
    }

    /// In a list whose ids match their positions, looking a mirror up by its
    /// own id finds that mirror.
    pub proof fn lemma_get_own_id(self, i: int)
        requires
            self.ids_match(),
            0 <= i < self.mirrors@.len(),
        ensures
            self.mirrors@[i].id.position() < self.mirrors@.len(),
            self.mirrors@[self.mirrors@[i].id.position() as int] == self.mirrors@[i],
    {
        assert(self.mirrors@[i].id.position() == i);
    }

    /// The mirror at the position that `id` names.
    pub fn get(&self, id: MirrorId) -> (r: &Mirror)
        requires
            id.position() < self.mirrors@.len(),
        ensures
            *r == self.mirrors@[id.position() as int],
    {
        &self.mirrors[id.index()]
    }
}

/// The mirrorlist line naming a mirror with this URL serialization.
pub open spec fn entry_text(url: Seq<char>) -> Seq<char> {
    "Server = "@ + url + "/$repo/os/$arch"@
}

/// The text of a mirrorlist file naming the given mirrors: one entry line
/// per mirror, each ended by a newline.
pub open spec fn mirrorlist_text(urls: Seq<Seq<char>>) -> Seq<char>
    decreases urls.len(),
{
    if urls.len() == 0 {
        Seq::empty()
    } else {
        mirrorlist_text(urls.drop_last()) + entry_text(urls.last()) + "\n"@
    }
}

/// The URL serializations of some mirrors, in order.
pub open spec fn urls_of(mirrors: Seq<&Mirror>) -> Seq<Seq<char>> {
    mirrors.map_values(|m: &Mirror| m.url@)
}

impl Mirrorlist {
    /// The mirrorlist file naming the given mirrors in order, as the lines
    /// `Server = <url>/$repo/os/$arch`.
    pub fn formatted(mirrors: &Vec<&Mirror>) -> (r: String)
        ensures
            r@ == mirrorlist_text(urls_of(mirrors@)),
    {
        let mut text = String::new();
        let mut i: usize = 0;
        while i < mirrors.len()
            invariant
                i <= mirrors@.len(),
                text@ == mirrorlist_text(urls_of(mirrors@.take(i as int))),
            decreases mirrors.len() - i,
        {
            let entry = mirrors[i].mirrorlist_entry();
            text.append(entry.as_str());
            text.append("\n");
            assert(urls_of(mirrors@.take(i as int + 1)).drop_last() =~= urls_of(mirrors@.take(i as int)));
            assert(urls_of(mirrors@.take(i as int + 1)).last() == mirrors@[i as int].url@);
            assert(text@ =~= mirrorlist_text(urls_of(mirrors@.take(i as int + 1))));
            i = i + 1;
        }
        assert(mirrors@.take(mirrors@.len() as int) =~= mirrors@);
        text
    }
}

/// Turns raw records into mirrors, skipping those that are rejected, and
/// numbers the kept mirrors by their position.
pub fn stream_mirrors_skip_missing(raws: Vec<RawMirror>) -> (out: Vec<Mirror>)
    ensures
        out@.len() == accepted(raws@).len(),
        forall|k: int| 0 <= k < out@.len() ==> converts_to(accepted(raws@)[k], #[trigger] out@[k], k as nat),
{
    let ghost all = raws@;
    let mut out: Vec<Mirror> = Vec::new();
    for raw in it: raws
        invariant
            it.seq() == all,
            out@.len() == accepted(all.take(it.index() as int)).len(),
            forall|k: int| 0 <= k < out@.len() ==> converts_to(accepted(all.take(it.index() as int))[k], #[trigger] out@[k], k as nat),
    {
        let ghost i = it.index();
        assert(all.take(i + 1).drop_last() =~= all.take(i as int));
        reveal_with_fuel(Seq::filter, 1);
        if let Ok(mut mirror) = Mirror::try_from(raw) {
            mirror.id = MirrorId(out.len());
            out.push(mirror);
        }
    }
    assert(all.take(all.len() as int) =~= all);
    out
}

} // verus!
