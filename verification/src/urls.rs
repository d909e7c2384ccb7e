//! URLs as the `url` crate parses, joins and renders them.
use vstd::prelude::*;

verus! {

#[verifier::external_type_specification]
#[verifier::external_body]
pub struct ExUrl(url::Url);

/// The URL that `url::Url::parse` makes of a text, or `None` where it
/// refuses the text.
pub uninterp spec fn url_parse(input: Seq<char>) -> Option<url::Url>;

/// The URL that `url::Url::join` makes of a base and a text, or `None` where
/// it refuses the text.
pub uninterp spec fn url_join(base: url::Url, input: Seq<char>) -> Option<url::Url>;

/// The serialization of a URL, as `url::Url::as_str` gives it.
pub uninterp spec fn url_text(u: url::Url) -> Seq<char>;

/// The scheme of a URL, as `url::Url::scheme` gives it.
pub uninterp spec fn url_scheme(u: url::Url) -> Seq<char>;

/// The host of a URL as text, as `url::Url::host_str` gives it, if it has
/// one.
pub uninterp spec fn url_host(u: url::Url) -> Option<Seq<char>>;

/// Calls `url::Url::parse`, which depends on the text alone; its error is
/// dropped.
#[verifier::external_body]
pub(crate) fn parse(input: &str) -> (r: Option<url::Url>)
    ensures
        r == url_parse(input@),
{
    url::Url::parse(input).ok()
}

/// Calls `url::Url::join`, which depends on the base and the text alone; its
/// error is dropped.
#[verifier::external_body]
pub(crate) fn join(base: &url::Url, input: &str) -> (r: Option<url::Url>)
    ensures
        r == url_join(*base, input@),
{
    base.join(input).ok()
}

/// Calls `url::Url::as_str`, which gives the URL's serialization.
#[verifier::external_body]
pub(crate) fn text(u: &url::Url) -> (r: String)
    ensures
        r@ == url_text(*u),
{
    u.as_str().to_string()
}

/// Calls `url::Url::scheme`, which gives the URL's scheme.
#[verifier::external_body]
pub(crate) fn scheme(u: &url::Url) -> (r: String)
    ensures
        r@ == url_scheme(*u),
{
    u.scheme().to_string()
}

/// Calls `url::Url::host_str`, which gives the URL's host as text, if any.
#[verifier::external_body]
pub(crate) fn host(u: &url::Url) -> (r: Option<String>)
    ensures
        match r {
            Some(h) => url_host(*u) == Some(h@),
            None => url_host(*u) is None,
        },
{
    u.host_str().map(|h| h.to_string())
}

/// The label of a mirror's progress bar: the scheme and host of its URL,
/// `??` standing for a missing host; `None` where the URL does not parse.
pub open spec fn bar_label(url: Seq<char>) -> Option<Seq<char>> {
    match url_parse(url) {
        Some(u) => Some(
            url_scheme(u) + "://"@ + match url_host(u) {
                Some(h) => h,
                None => "??"@,
            },
        ),
        None => None,
    }
}

/// The label of a mirror's progress bar: the scheme and host of its URL,
/// `??` standing for a missing host; `None` where the URL does not parse.
pub fn progress_label(url: &str) -> (r: Option<String>)
    ensures
        match r {
            Some(s) => bar_label(url@) == Some(s@),
            None => bar_label(url@) is None,
        },
{
    match parse(url) {
        Some(u) => {
            let mut label = scheme(&u);
            label.append("://");
            match host(&u) {
                Some(h) => label.append(h.as_str()),
                None => label.append("??"),
            }
            Some(label)
        },
        None => None,
    }
}

} // verus!
