//! How mirrors are sorted and filtered.
use std::cmp::Ordering;
use vstd::prelude::*;

use crate::float::{int_order, is_nan, numeric_order, FloatBits};
use crate::keys::{float_key, flag_key, protocol_key, u32_key};
use crate::mirror::{Mirror, Protocol, Rate};
use crate::text::{
    compare_text, eq_ignore_ascii_case, flip, lemma_lex_equal, lex_order, same_ignoring_ascii_case, text_key,
};
use vstd::utf8::encode_utf8;
use crate::time::Timestamp;

verus! {

/// What mirrors are sorted by.
#[derive(Debug, Clone, Copy, PartialEq, Eq, Structural)]
pub enum SortKey {
    CompPct,
    Country,
    Delay,
    Duration,
    IpV4,
    IpV6,
    LastSync,
    Protocol,
    Score,
    Rate,
    Url,
}

/// Ascending or descending.
#[derive(Debug, Clone, Copy, PartialEq, Eq, Structural)]
pub enum SortDir {
    Asc,
    Desc,
}

/// A sort key and a direction.
#[derive(Debug, Clone, Copy, PartialEq, Eq, Structural)]
pub struct SortCriteria {
    pub key: SortKey,
    pub dir: SortDir,
}

/// The key of a mirror under every sort key but `Rate`.
pub open spec fn sort_key(key: SortKey, m: Mirror) -> Seq<int> {
    match key {
        SortKey::CompPct => float_key(m.completion_pct),
        SortKey::Country => text_key(m.country@),
        SortKey::Delay => u32_key(m.delay),
        SortKey::Duration => float_key(m.duration_avg),
        SortKey::IpV4 => flag_key(m.ipv4),
        SortKey::IpV6 => flag_key(m.ipv6),
        SortKey::LastSync => m.last_sync.key(),
        SortKey::Protocol => protocol_key(m.protocol),
        SortKey::Score => float_key(m.score),
        SortKey::Rate => seq![],
        SortKey::Url => text_key(m.url@),
    }
}

/// Two optional rates can be compared without overflow.
pub open spec fn rates_comparable(a: Option<Rate>, b: Option<Rate>) -> bool {
    a is Some && b is Some ==> a.unwrap().comparable(b.unwrap())
}

/// The order of optional rates: no rate first, then by bytes per
/// millisecond, compared by cross-multiplying.
pub open spec fn rate_order(a: Option<Rate>, b: Option<Rate>) -> Ordering {
    match (a, b) {
        (None, None) => Ordering::Equal,
        (None, Some(_)) => Ordering::Less,
        (Some(_), None) => Ordering::Greater,
        (Some(x), Some(y)) => int_order(x.cross(y), y.cross(x)),
    }
}

/// The ascending order of two mirrors under a sort key.
pub open spec fn key_order(key: SortKey, a: Mirror, b: Mirror) -> Ordering {
    if key == SortKey::Rate {
        rate_order(a.rate, b.rate)
    } else {
        lex_order(sort_key(key, a), sort_key(key, b))
    }
}

/// The order of two mirrors under sort criteria.
pub open spec fn criteria_order(c: SortCriteria, a: Mirror, b: Mirror) -> Ordering {
    if c.dir == SortDir::Desc {
        flip(key_order(c.key, a, b))
    } else {
        key_order(c.key, a, b)
    }
}

proof fn lemma_lex_single(x: int, y: int)
    ensures
        lex_order(seq![x], seq![y]) == int_order(x, y),
{
    let e = Seq::<int>::empty();
    assert(seq![x].drop_first() =~= e);
    assert(seq![y].drop_first() =~= e);
    assert(lex_order(e, e) == Ordering::Equal);
}

proof fn lemma_lex_pair(x1: int, x2: int, y1: int, y2: int)
    ensures
        lex_order(seq![x1, x2], seq![y1, y2]) == (if x1 == y1 {
            int_order(x2, y2)
        } else {
            int_order(x1, y1)
        }),
{
    assert(seq![x1, x2].drop_first() =~= seq![x2]);
    assert(seq![y1, y2].drop_first() =~= seq![y2]);
    lemma_lex_single(x2, y2);
}

fn order_u32(a: u32, b: u32) -> (r: Ordering)
    ensures
        r == lex_order(u32_key(a), u32_key(b)),
{
    proof {
        lemma_lex_single(u32_key(a)[0], u32_key(b)[0]);
        assert(u32_key(a) =~= seq![u32_key(a)[0]]);
        assert(u32_key(b) =~= seq![u32_key(b)[0]]);
    }
    if a < b {
        Ordering::Less
    } else if a == b {
        Ordering::Equal
    } else {
        Ordering::Greater
    }
}

fn order_flags(a: bool, b: bool) -> (r: Ordering)
    ensures
        r == lex_order(flag_key(a), flag_key(b)),
{
    proof {
        lemma_lex_single(flag_key(a)[0], flag_key(b)[0]);
        assert(flag_key(a) =~= seq![flag_key(a)[0]]);
        assert(flag_key(b) =~= seq![flag_key(b)[0]]);
    }
    if a == b {
        Ordering::Equal
    } else if !a {
        Ordering::Less
    } else {
        Ordering::Greater
    }
}

fn order_floats(a: FloatBits, b: FloatBits) -> (r: Ordering)
    ensures
        r == lex_order(float_key(a), float_key(b)),
{
    let x = a.total_key();
    let y = b.total_key();
    proof {
        lemma_lex_single(float_key(a)[0], float_key(b)[0]);
        assert(float_key(a) =~= seq![float_key(a)[0]]);
        assert(float_key(b) =~= seq![float_key(b)[0]]);
    }
    if x < y {
        Ordering::Less
    } else if x == y {
        Ordering::Equal
    } else {
        Ordering::Greater
    }
}

fn order_protocols(a: Protocol, b: Protocol) -> (r: Ordering)
    ensures
        r == lex_order(protocol_key(a), protocol_key(b)),
{
    proof {
        lemma_lex_single(a.rank(), b.rank());
    }
    let x: u8 = match a {
        Protocol::Http => 0,
        Protocol::Https => 1,
        Protocol::Rsync => 2,
    };
    let y: u8 = match b {
        Protocol::Http => 0,
        Protocol::Https => 1,
        Protocol::Rsync => 2,
    };
    assert(x == a.rank() && y == b.rank());
    if x < y {
        Ordering::Less
    } else if x == y {
        Ordering::Equal
    } else {
        Ordering::Greater
    }
}

fn order_timestamps(a: Timestamp, b: Timestamp) -> (r: Ordering)
    ensures
        r == lex_order(a.key(), b.key()),
{
    proof {
        lemma_lex_pair(a.key()[0], a.key()[1], b.key()[0], b.key()[1]);
        assert(a.key() =~= seq![a.key()[0], a.key()[1]]);
        assert(b.key() =~= seq![b.key()[0], b.key()[1]]);
    }
    if a.secs < b.secs {
        Ordering::Less
    } else if a.secs > b.secs {
        Ordering::Greater
    } else if a.nanos < b.nanos {
        Ordering::Less
    } else if a.nanos == b.nanos {
        Ordering::Equal
    } else {
        Ordering::Greater
    }
}

fn order_rates(a: &Option<Rate>, b: &Option<Rate>) -> (r: Ordering)
    requires
        rates_comparable(*a, *b),
    ensures
        r == rate_order(*a, *b),
{
    match (a, b) {
        (None, None) => Ordering::Equal,
        (None, Some(_)) => Ordering::Less,
        (Some(_), None) => Ordering::Greater,
        (Some(x), Some(y)) => x.cmp(y),
    }
}

/// The opposite ordering.
pub fn reversed(o: Ordering) -> (r: Ordering)
    ensures
        r == flip(o),
{
    match o {
        Ordering::Less => Ordering::Greater,
        Ordering::Equal => Ordering::Equal,
        Ordering::Greater => Ordering::Less,
    }
}

impl SortCriteria {
    pub fn new(field: SortKey, dir: SortDir) -> (r: SortCriteria)
        ensures
            r == (SortCriteria { key: field, dir }),
    {
        SortCriteria { key: field, dir }
    }

    /// Orders two mirrors: by the key, then reversed when descending.
    pub fn compare(self, lhs: &Mirror, rhs: &Mirror) -> (r: Ordering)
        requires
            self.key == SortKey::Rate ==> rates_comparable(lhs.rate, rhs.rate),
        ensures
            r == criteria_order(self, *lhs, *rhs),
    {
        let ord = match self.key {
            SortKey::CompPct => order_floats(lhs.completion_pct, rhs.completion_pct),
            SortKey::Country => compare_text(lhs.country.as_str(), rhs.country.as_str()),
            SortKey::Delay => order_u32(lhs.delay, rhs.delay),
            SortKey::Duration => order_floats(lhs.duration_avg, rhs.duration_avg),
            SortKey::IpV4 => order_flags(lhs.ipv4, rhs.ipv4),
            SortKey::IpV6 => order_flags(lhs.ipv6, rhs.ipv6),
            SortKey::LastSync => order_timestamps(lhs.last_sync, rhs.last_sync),
            SortKey::Protocol => order_protocols(lhs.protocol, rhs.protocol),
            SortKey::Score => order_floats(lhs.score, rhs.score),
            SortKey::Rate => order_rates(&lhs.rate, &rhs.rate),
            SortKey::Url => compare_text(lhs.url.as_str(), rhs.url.as_str()),
        };
        match self.dir {
            SortDir::Desc => reversed(ord),
            SortDir::Asc => ord,
        }
    }
}

/// Two texts have equal keys only when they are the same text.
proof fn lemma_text_key_injective(a: Seq<char>, b: Seq<char>)
    requires
        text_key(a) == text_key(b),
    ensures
        a == b,
{
    let ea = encode_utf8(a);
    let eb = encode_utf8(b);
    assert(text_key(a).len() == ea.len());
    assert(text_key(b).len() == eb.len());
    assert forall|i: int| 0 <= i < ea.len() implies ea[i] == eb[i] by {
        assert(text_key(a)[i] == ea[i] as int);
        assert(text_key(b)[i] == eb[i] as int);
    }
    assert(ea =~= eb);
    vstd::utf8::encode_utf8_decode_utf8(a);
    vstd::utf8::encode_utf8_decode_utf8(b);
}

/// Sorting ascending by a key orders two mirrors by that field:
/// - protocols in their declaration order, `Http` before `Https` before
///   `Rsync`;
/// - delays as numbers;
/// - IP support and ISO hosting with `false` before `true`;
/// - last syncs earlier first, by seconds and then nanoseconds;
/// - countries and URLs equal exactly when the texts are equal;
/// - binary64 values equal exactly when their bit patterns are, and
///   non-negative values (sign bit clear) in the order of their bits;
/// - rates with an unmeasured mirror first.
///
/// `SortCriteria::compare` returns `criteria_order`, which for `Asc` is this
/// order and for `Desc` its reverse.
pub proof fn lemma_sort_keys_order_fields(a: Mirror, b: Mirror)
    ensures
        (key_order(SortKey::Protocol, a, b) == Ordering::Less) == ((a.protocol == Protocol::Http && b.protocol
            != Protocol::Http) || (a.protocol == Protocol::Https && b.protocol == Protocol::Rsync)),
        (key_order(SortKey::Protocol, a, b) == Ordering::Equal) == (a.protocol == b.protocol),
        (key_order(SortKey::Delay, a, b) == Ordering::Less) == (a.delay < b.delay),
        (key_order(SortKey::Delay, a, b) == Ordering::Equal) == (a.delay == b.delay),
        (key_order(SortKey::IpV4, a, b) == Ordering::Less) == (!a.ipv4 && b.ipv4),
        (key_order(SortKey::IpV4, a, b) == Ordering::Equal) == (a.ipv4 == b.ipv4),
        (key_order(SortKey::IpV6, a, b) == Ordering::Less) == (!a.ipv6 && b.ipv6),
        (key_order(SortKey::IpV6, a, b) == Ordering::Equal) == (a.ipv6 == b.ipv6),
        (key_order(SortKey::LastSync, a, b) == Ordering::Less) == (a.last_sync.secs < b.last_sync.secs || (
        a.last_sync.secs == b.last_sync.secs && a.last_sync.nanos < b.last_sync.nanos)),
        (key_order(SortKey::LastSync, a, b) == Ordering::Equal) == (a.last_sync == b.last_sync),
        (key_order(SortKey::Country, a, b) == Ordering::Equal) == (a.country@ == b.country@),
        (key_order(SortKey::Url, a, b) == Ordering::Equal) == (a.url@ == b.url@),
        (key_order(SortKey::CompPct, a, b) == Ordering::Equal) == (a.completion_pct == b.completion_pct),
        (key_order(SortKey::Duration, a, b) == Ordering::Equal) == (a.duration_avg == b.duration_avg),
        (key_order(SortKey::Score, a, b) == Ordering::Equal) == (a.score == b.score),
        a.score.bits < 0x8000_0000_0000_0000u64 && b.score.bits < 0x8000_0000_0000_0000u64 ==> (key_order(
            SortKey::Score,
            a,
            b,
        ) == Ordering::Less) == (a.score.bits < b.score.bits),
        a.rate is None && b.rate is Some ==> key_order(SortKey::Rate, a, b) == Ordering::Less,
        a.rate is None && b.rate is None ==> key_order(SortKey::Rate, a, b) == Ordering::Equal,
{
    lemma_lex_single(a.protocol.rank(), b.protocol.rank());
    lemma_lex_single(u32_key(a.delay)[0], u32_key(b.delay)[0]);
    assert(u32_key(a.delay) =~= seq![u32_key(a.delay)[0]]);
    assert(u32_key(b.delay) =~= seq![u32_key(b.delay)[0]]);
    lemma_lex_single(flag_key(a.ipv4)[0], flag_key(b.ipv4)[0]);
    assert(flag_key(a.ipv4) =~= seq![flag_key(a.ipv4)[0]]);
    assert(flag_key(b.ipv4) =~= seq![flag_key(b.ipv4)[0]]);
    lemma_lex_single(flag_key(a.ipv6)[0], flag_key(b.ipv6)[0]);
    assert(flag_key(a.ipv6) =~= seq![flag_key(a.ipv6)[0]]);
    assert(flag_key(b.ipv6) =~= seq![flag_key(b.ipv6)[0]]);
    lemma_lex_pair(a.last_sync.key()[0], a.last_sync.key()[1], b.last_sync.key()[0], b.last_sync.key()[1]);
    assert(a.last_sync.key() =~= seq![a.last_sync.key()[0], a.last_sync.key()[1]]);
    assert(b.last_sync.key() =~= seq![b.last_sync.key()[0], b.last_sync.key()[1]]);
    lemma_lex_equal(text_key(a.country@), text_key(b.country@));
    if text_key(a.country@) == text_key(b.country@) {
        lemma_text_key_injective(a.country@, b.country@);
    }
    lemma_lex_equal(text_key(a.url@), text_key(b.url@));
    if text_key(a.url@) == text_key(b.url@) {
        lemma_text_key_injective(a.url@, b.url@);
    }
    lemma_lex_single(float_key(a.completion_pct)[0], float_key(b.completion_pct)[0]);
    lemma_lex_single(float_key(a.duration_avg)[0], float_key(b.duration_avg)[0]);
    lemma_lex_single(float_key(a.score)[0], float_key(b.score)[0]);
}

/// A comparison of a mirror's value with a target.
#[derive(Debug, Clone, Copy, PartialEq, Eq, Structural)]
pub enum Cmp {
    Lt,
    Le,
    Eq,
    Gt,
    Ge,
}

/// An IP version.
#[derive(Debug, Clone, Copy, PartialEq, Eq, Structural)]
pub enum IpV {
    V4,
    V6,
}

/// A condition a mirror must meet to stay in the selection.
#[derive(Debug, Clone, PartialEq)]
pub enum FilterCriteria {
    CompPct { cmp: Cmp, target: FloatBits },
    Country { allowed: Vec<String> },
    Delay { cmp: Cmp, target: u32 },
    Duration { cmp: Cmp, target: FloatBits },
    IpV { v4: bool, v6: bool },
    LastSync { cmp: Cmp, target: Timestamp },
    Protocol { allowed: Vec<Protocol> },
    Score { cmp: Cmp, target: FloatBits },
    RateMeasured,
    Isos,
}

/// Whether a comparison holds of a value and a target, given how they
/// compare; values that do not compare (NaN) satisfy no comparison.
pub open spec fn comparison_holds(o: Option<Ordering>, c: Cmp) -> bool {
    match o {
        Some(Ordering::Less) => c == Cmp::Lt || c == Cmp::Le,
        Some(Ordering::Equal) => c == Cmp::Le || c == Cmp::Eq || c == Cmp::Ge,
        Some(Ordering::Greater) => c == Cmp::Ge || c == Cmp::Gt,
        None => false,
    }
}

/// Some allowed name matches the mirror's country or country code, ignoring
/// ASCII case.
pub open spec fn country_allowed(allowed: Seq<String>, m: Mirror) -> bool {
    exists|i: int|
        0 <= i < allowed.len() && (same_ignoring_ascii_case(m.country@, #[trigger] allowed[i]@)
            || same_ignoring_ascii_case(m.country_code@, allowed[i]@))
}

/// Whether a mirror meets a filter.
pub open spec fn filter_matches(f: FilterCriteria, m: Mirror) -> bool {
    match f {
        FilterCriteria::CompPct { cmp, target } => comparison_holds(
            numeric_order(m.completion_pct.bits, target.bits),
            cmp,
        ),
        FilterCriteria::Country { allowed } => country_allowed(allowed@, m),
        FilterCriteria::Delay { cmp, target } => comparison_holds(
            Some(lex_order(u32_key(m.delay), u32_key(target))),
            cmp,
        ),
        FilterCriteria::Duration { cmp, target } => comparison_holds(
            numeric_order(m.duration_avg.bits, target.bits),
            cmp,
        ),
        FilterCriteria::IpV { v4, v6 } => (!v4 || m.ipv4) && (!v6 || m.ipv6),
        FilterCriteria::LastSync { cmp, target } => comparison_holds(
            Some(lex_order(m.last_sync.key(), target.key())),
            cmp,
        ),
        FilterCriteria::Protocol { allowed } => allowed@.contains(m.protocol),
        FilterCriteria::Score { cmp, target } => comparison_holds(
            numeric_order(m.score.bits, target.bits),
            cmp,
        ),
        FilterCriteria::RateMeasured => m.rate is Some,
        FilterCriteria::Isos => m.isos,
    }
}

/// A NaN measurement, or a NaN target, meets no comparison filter.
pub proof fn lemma_nan_meets_no_comparison(m: Mirror, c: Cmp, target: FloatBits)
    ensures
        is_nan(m.completion_pct.bits) || is_nan(target.bits) ==> !filter_matches(
            FilterCriteria::CompPct { cmp: c, target },
            m,
        ),
        is_nan(m.duration_avg.bits) || is_nan(target.bits) ==> !filter_matches(
            FilterCriteria::Duration { cmp: c, target },
            m,
        ),
        is_nan(m.score.bits) || is_nan(target.bits) ==> !filter_matches(
            FilterCriteria::Score { cmp: c, target },
            m,
        ),
{
}

/// What each filter asks of a mirror, in terms of its fields:
/// - `IpV { v4, v6 }`: IPv4 support if `v4` is asked for, and IPv6 support
///   if `v6` is;
/// - `Protocol`: its protocol is among the allowed ones;
/// - `Isos`: it hosts ISO images;
/// - `RateMeasured`: its rate has been measured;
/// - `Delay`: its delay stands to the target as the comparison says;
/// - `LastSync`: its last sync, by seconds and then nanoseconds, stands to
///   the target as the comparison says.
pub proof fn lemma_filters_ask_of_fields(
    m: Mirror,
    v4: bool,
    v6: bool,
    allowed: Vec<Protocol>,
    c: Cmp,
    delay: u32,
    when: Timestamp,
)
    ensures
        filter_matches(FilterCriteria::IpV { v4, v6 }, m) == ((v4 ==> m.ipv4) && (v6 ==> m.ipv6)),
        filter_matches(FilterCriteria::Protocol { allowed }, m) == exists|i: int|
            0 <= i < allowed@.len() && #[trigger] allowed@[i] == m.protocol,
        filter_matches(FilterCriteria::Isos, m) == m.isos,
        filter_matches(FilterCriteria::RateMeasured, m) == (m.rate is Some),
        filter_matches(FilterCriteria::Delay { cmp: c, target: delay }, m) == (
        (c == Cmp::Lt && m.delay < delay) || (c == Cmp::Le && m.delay <= delay) || (c == Cmp::Eq && m.delay
            == delay) || (c == Cmp::Ge && m.delay >= delay) || (c == Cmp::Gt && m.delay > delay)),
        filter_matches(FilterCriteria::LastSync { cmp: c, target: when }, m) == ({
            let before = m.last_sync.secs < when.secs || (m.last_sync.secs == when.secs && m.last_sync.nanos
                < when.nanos);
            let same = m.last_sync == when;
            (c == Cmp::Lt && before) || (c == Cmp::Le && (before || same)) || (c == Cmp::Eq && same) || (c
                == Cmp::Ge && !before) || (c == Cmp::Gt && !before && !same)
        }),
{
    lemma_lex_single(u32_key(m.delay)[0], u32_key(delay)[0]);
    assert(u32_key(m.delay) =~= seq![u32_key(m.delay)[0]]);
    assert(u32_key(delay) =~= seq![u32_key(delay)[0]]);
    lemma_lex_pair(m.last_sync.key()[0], m.last_sync.key()[1], when.key()[0], when.key()[1]);
    assert(m.last_sync.key() =~= seq![m.last_sync.key()[0], m.last_sync.key()[1]]);
    assert(when.key() =~= seq![when.key()[0], when.key()[1]]);
    if allowed@.contains(m.protocol) {
        let i = choose|i: int| 0 <= i < allowed@.len() && allowed@[i] == m.protocol;
        assert(allowed@[i] == m.protocol);
    }
}

fn holds(o: Option<Ordering>, c: Cmp) -> (r: bool)
    ensures
        r == comparison_holds(o, c),
{
    match o {
        Some(Ordering::Less) => matches!(c, Cmp::Lt | Cmp::Le),
        Some(Ordering::Equal) => matches!(c, Cmp::Le | Cmp::Eq | Cmp::Ge),
        Some(Ordering::Greater) => matches!(c, Cmp::Ge | Cmp::Gt),
        None => false,
    }
}

fn numeric(a: FloatBits, b: FloatBits) -> (r: Option<Ordering>)
    ensures
        r == numeric_order(a.bits, b.bits),
{
    if a.is_nan() || b.is_nan() {
        None
    } else if a.is_zero() && b.is_zero() {
        Some(Ordering::Equal)
    } else {
        let x = a.total_key();
        let y = b.total_key();
        if x < y {
            Some(Ordering::Less)
        } else if x == y {
            Some(Ordering::Equal)
        } else {
            Some(Ordering::Greater)
        }
    }
}

fn country_matches(allowed: &Vec<String>, m: &Mirror) -> (r: bool)
    ensures
        r == country_allowed(allowed@, *m),
{
    let mut i: usize = 0;
    while i < allowed.len()
        invariant
            i <= allowed@.len(),
            forall|j: int|
                0 <= j < i ==> !(same_ignoring_ascii_case(m.country@, #[trigger] allowed@[j]@)
                    || same_ignoring_ascii_case(m.country_code@, allowed@[j]@)),
        decreases allowed.len() - i,
    {
        if eq_ignore_ascii_case(m.country.as_str(), allowed[i].as_str()) || eq_ignore_ascii_case(
            m.country_code.as_str(),
            allowed[i].as_str(),
        ) {
            return true;
        }
        i = i + 1;
    }
    false
}

fn protocol_allowed(allowed: &Vec<Protocol>, p: Protocol) -> (r: bool)
    ensures
        r == allowed@.contains(p),
{
    let mut i: usize = 0;
    while i < allowed.len()
        invariant
            i <= allowed@.len(),
            forall|j: int| 0 <= j < i ==> allowed@[j] != p,
        decreases allowed.len() - i,
    {
        if allowed[i] == p {
            return true;
        }
        i = i + 1;
    }
    false
}

impl FilterCriteria {
    /// Whether a mirror meets this filter.
    pub fn matches(&self, mirror: &Mirror) -> (r: bool)
        ensures
            r == filter_matches(*self, *mirror),
    {
        match self {
            FilterCriteria::CompPct { cmp, target } => holds(
                numeric(mirror.completion_pct, *target),
                *cmp,
            ),
            FilterCriteria::Country { allowed } => country_matches(allowed, mirror),
            FilterCriteria::Delay { cmp, target } => holds(Some(order_u32(mirror.delay, *target)), *cmp),
            FilterCriteria::Duration { cmp, target } => holds(
                numeric(mirror.duration_avg, *target),
                *cmp,
            ),
            FilterCriteria::IpV { v4, v6 } => (!*v4 || mirror.ipv4) && (!*v6 || mirror.ipv6),
            FilterCriteria::LastSync { cmp, target } => holds(
                Some(order_timestamps(mirror.last_sync, *target)),
                *cmp,
            ),
            FilterCriteria::Protocol { allowed } => protocol_allowed(allowed, mirror.protocol),
            FilterCriteria::Score { cmp, target } => holds(numeric(mirror.score, *target), *cmp),
            FilterCriteria::RateMeasured => mirror.rate.is_some(),
            FilterCriteria::Isos => mirror.isos,
        }
    }

    pub fn completion_pct(cmp: Cmp, target: FloatBits) -> (r: FilterCriteria)
        ensures
            r == (FilterCriteria::CompPct { cmp, target }),
    {
        FilterCriteria::CompPct { cmp, target }
    }

    pub fn delay(cmp: Cmp, target: u32) -> (r: FilterCriteria)
        ensures
            r == (FilterCriteria::Delay { cmp, target }),
    {
        FilterCriteria::Delay { cmp, target }
    }

    pub fn duration(cmp: Cmp, target: FloatBits) -> (r: FilterCriteria)
        ensures
            r == (FilterCriteria::Duration { cmp, target }),
    {
        FilterCriteria::Duration { cmp, target }
    }

    pub fn score(cmp: Cmp, target: FloatBits) -> (r: FilterCriteria)
        ensures
            r == (FilterCriteria::Score { cmp, target }),
    {
        FilterCriteria::Score { cmp, target }
    }

    pub fn ip_version(v4: bool, v6: bool) -> (r: FilterCriteria)
        ensures
            r == (FilterCriteria::IpV { v4, v6 }),
    {
        FilterCriteria::IpV { v4, v6 }
    }

    pub fn protocol(allowed: Vec<Protocol>) -> (r: FilterCriteria)
        ensures
            r == (FilterCriteria::Protocol { allowed }),
    {
        FilterCriteria::Protocol { allowed }
    }

    pub fn country(allowed: Vec<String>) -> (r: FilterCriteria)
        ensures
            r == (FilterCriteria::Country { allowed }),
    {
        FilterCriteria::Country { allowed }
    }
}

} // verus!
