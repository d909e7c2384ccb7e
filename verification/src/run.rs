//! The decisions of a ranking run: whether the cached mirror list can be
//! used, and what is reported once the mirrors are ranked.
use vstd::prelude::*;
use vstd::string::StringSliceAdditionalSpecFns;

use crate::error::{status_display, status_text, NetworkError};
use crate::keys::int_of;
use crate::mirror::{Mirror, MirrorId, Mirrorlist};
use crate::time::TimeSpan;

verus! {

/// The cache is consulted only when there is a cache file and a non-zero
/// time to live.
pub fn cache_enabled(has_cache_file: bool, ttl: TimeSpan) -> (r: bool)
    ensures
        r == (has_cache_file && ttl.total_nanos() != 0),
{
    has_cache_file && !(ttl.secs == 0 && ttl.nanos == 0)
}

/// A cache file is fresh when its age is known and below the time to live.
pub fn cache_fresh(age: Option<TimeSpan>, ttl: TimeSpan) -> (r: bool)
    requires
        age is Some ==> age.unwrap().wf(),
        ttl.wf(),
    ensures
        r == (age is Some && age.unwrap().total_nanos() < ttl.total_nanos()),
{
    match age {
        None => false,
        Some(a) => a.secs < ttl.secs || (a.secs == ttl.secs && a.nanos < ttl.nanos),
    }
}

/// A cached list is used only when it was fetched from the wanted URL.
pub fn cached_list_usable(list: &Mirrorlist, url: &str) -> (r: bool)
    ensures
        r == (list.url is Some && list.url.unwrap()@ == url@),
{
    match &list.url {
        Some(u) => equal_text(u.as_str(), url),
        None => false,
    }
}

fn equal_text(a: &str, b: &str) -> (r: bool)
    ensures
        r == (a@ == b@),
{
    let x = a.as_bytes();
    let y = b.as_bytes();
    if x.len() != y.len() {
        proof {
            if a@ == b@ {
                assert(x@ == y@);
            }
        }
        return false;
    }
    let mut i: usize = 0;
    while i < x.len()
        invariant
            i <= x@.len(),
            x@.len() == y@.len(),
            x@ == a.spec_bytes(),
            y@ == b.spec_bytes(),
            forall|j: int| 0 <= j < i ==> x@[j] == y@[j],
        decreases x.len() - i,
    {
        if x[i] != y[i] {
            proof {
                if a@ == b@ {
                    assert(x@ == y@);
                }
            }
            return false;
        }
        i = i + 1;
    }
    assert(x@ =~= y@);
    proof {
        vstd::utf8::encode_utf8_decode_utf8(a@);
        vstd::utf8::encode_utf8_decode_utf8(b@);
    }
    true
}

/// The ids of the ranked mirrors, in rank order.
pub fn found_ids(mirrors: &Vec<&Mirror>) -> (r: Vec<MirrorId>)
    ensures
        r@.len() == mirrors@.len(),
        forall|k: int| 0 <= k < r@.len() ==> #[trigger] r@[k] == mirrors@[k].id,
{
    let mut r: Vec<MirrorId> = Vec::new();
    let mut i: usize = 0;
    while i < mirrors.len()
        invariant
            i <= mirrors@.len(),
            r@.len() == int_of(i),
            forall|k: int| 0 <= k < i ==> #[trigger] r@[k] == mirrors@[k].id,
        decreases mirrors.len() - i,
    {
        r.push(mirrors[i].id);
        i = i + 1;
    }
    r
}

/// The message a progress bar shows for a failed measurement: the status
/// (code and reason) for an HTTP status, a plain "network error" for other
/// network failures, and the error's own message otherwise.
pub fn failure_message(error: &NetworkError) -> (r: String)
    ensures
        match error {
            NetworkError::Other(_) => r@ == "network error"@,
            NetworkError::Connect => r@ == "connection error"@,
            NetworkError::Decode => r@ == "error decoding response body"@,
            NetworkError::Io => r@ == "network io error"@,
            NetworkError::Timeout => r@ == "connection timeout"@,
            NetworkError::Status(status) => r@ == status_display(*status),
        },
{
    match error {
        NetworkError::Status(status) => status_text(status),
        NetworkError::Other(_) => "network error".to_string(),
        _ => error.describe(),
    }
}

/// A finished download fell short of the announced size: some size was
/// announced and fewer bytes arrived.
pub fn fell_short(announced: Option<u64>, received: u64) -> (r: bool)
    ensures
        r == (announced is Some && received < announced.unwrap()),
{
    match announced {
        Some(len) => received < len,
        None => false,
    }
}

} // verus!
