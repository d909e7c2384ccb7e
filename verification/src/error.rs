//! The library's errors, and the classification of failed HTTP requests.
use vstd::prelude::*;

verus! {

/// Everything that can go wrong while loading, ranking or saving mirrors.
#[derive(Debug)]
pub enum MirusError {
    InvalidMirror(String),
    Io(std::io::Error),
    Network(NetworkError),
    Serde(serde_json::Error),
}

/// Why a network transfer failed.
#[derive(Debug, Clone)]
pub enum NetworkError {
    Connect,
    Decode,
    Io,
    /// The server answered with this HTTP status.
    Status(reqwest::StatusCode),
    Timeout,
    Other(String),
}

/// What a failed request reports about itself.
pub struct RequestFailure {
    pub timeout: bool,
    pub status: Option<reqwest::StatusCode>,
    pub connect: bool,
    pub decode: bool,
    pub message: String,
}

/// The classification of a failed request: a timeout first, then an HTTP
/// status, then a connection failure, then a body that could not be decoded,
/// and otherwise the request's own message.
pub open spec fn classified(f: RequestFailure) -> NetworkError {
    if f.timeout {
        NetworkError::Timeout
    } else if f.status is Some {
        NetworkError::Status(f.status.unwrap())
    } else if f.connect {
        NetworkError::Connect
    } else if f.decode {
        NetworkError::Decode
    } else {
        NetworkError::Other(f.message)
    }
}

/// Whether `reqwest::Error::is_timeout` holds of an error: whether some
/// error in its chain of sources is a timeout.
pub uninterp spec fn request_timeout(e: reqwest::Error) -> bool;

/// What `reqwest::Error::status` gives for an error: the status of the
/// response it was made from, if any.
pub uninterp spec fn request_status_code(e: reqwest::Error) -> Option<reqwest::StatusCode>;

/// Whether `reqwest::Error::is_connect` holds of an error: whether some
/// error in its chain of sources is a failure to connect.
pub uninterp spec fn request_connect(e: reqwest::Error) -> bool;

/// Whether `reqwest::Error::is_decode` holds of an error: whether it arose
/// while decoding a response body.
pub uninterp spec fn request_decode(e: reqwest::Error) -> bool;

/// The text of an error through `reqwest::Error`'s `Display` impl: its kind,
/// then the URL it concerns, if any.
pub uninterp spec fn request_text(e: reqwest::Error) -> Seq<char>;

/// Calls `reqwest::Error::is_timeout`, which looks only at the error and its
/// sources: the answer is the named one for the error.
#[verifier::external_body]
fn request_is_timeout(e: &reqwest::Error) -> (r: bool)
    ensures
        r == request_timeout(*e),
{
    e.is_timeout()
}

/// Calls `reqwest::Error::status`, which reads the error's kind: the answer
/// is the named one for the error.
#[verifier::external_body]
fn request_status(e: &reqwest::Error) -> (r: Option<reqwest::StatusCode>)
    ensures
        r == request_status_code(*e),
{
    e.status()
}

/// Calls `reqwest::Error::is_connect`, which looks only at the error's
/// sources: the answer is the named one for the error.
#[verifier::external_body]
fn request_is_connect(e: &reqwest::Error) -> (r: bool)
    ensures
        r == request_connect(*e),
{
    e.is_connect()
}

/// Calls `reqwest::Error::is_decode`, which reads the error's kind: the
/// answer is the named one for the error.
#[verifier::external_body]
fn request_is_decode(e: &reqwest::Error) -> (r: bool)
    ensures
        r == request_decode(*e),
{
    e.is_decode()
}

/// Renders a `reqwest::Error` through its `Display` impl, which writes only
/// the error's kind and URL: the text is the named one for the error.
#[verifier::external_body]
fn request_message(e: &reqwest::Error) -> (r: String)
    ensures
        r@ == request_text(*e),
{
    e.to_string()
}

impl NetworkError {
    /// Classifies a failed request from what it reports about itself.
    pub fn classify(failure: RequestFailure) -> (r: NetworkError)
        ensures
            r == classified(failure),
    {
        if failure.timeout {
            NetworkError::Timeout
        } else if let Some(code) = failure.status {
            NetworkError::Status(code)
        } else if failure.connect {
            NetworkError::Connect
        } else if failure.decode {
            NetworkError::Decode
        } else {
            NetworkError::Other(failure.message)
        }
    }

    /// Classifies a failed `reqwest` request by what it reports about
    /// itself: whether it timed out, its HTTP status, whether connecting
    /// failed, whether decoding failed, and its message.
    pub fn from_request_error(error: &reqwest::Error) -> (r: NetworkError)
        ensures
            exists|message: String|
                message@ == request_text(*error) && r == classified(
                    RequestFailure {
                        timeout: request_timeout(*error),
                        status: request_status_code(*error),
                        connect: request_connect(*error),
                        decode: request_decode(*error),
                        message,
                    },
                ),
    {
        let failure = RequestFailure {
            timeout: request_is_timeout(error),
            status: request_status(error),
            connect: request_is_connect(error),
            decode: request_is_decode(error),
            message: request_message(error),
        };
        let ghost f = failure;
        let r = Self::classify(failure);
        assert(f.message@ == request_text(*error) && r == classified(f));
        r
    }
}

impl From<NetworkError> for MirusError {
    fn from(error: NetworkError) -> (r: MirusError) {
        MirusError::Network(error)
    }
}

impl vstd::std_specs::convert::FromSpecImpl<NetworkError> for MirusError {
    open spec fn obeys_from_spec() -> bool {
        true
    }

    open spec fn from_spec(v: NetworkError) -> MirusError {
        MirusError::Network(v)
    }
}

impl From<std::io::Error> for MirusError {
    fn from(error: std::io::Error) -> (r: MirusError) {
        MirusError::Io(error)
    }
}

impl vstd::std_specs::convert::FromSpecImpl<std::io::Error> for MirusError {
    open spec fn obeys_from_spec() -> bool {
        true
    }

    open spec fn from_spec(v: std::io::Error) -> MirusError {
        MirusError::Io(v)
    }
}

impl From<serde_json::Error> for MirusError {
    fn from(error: serde_json::Error) -> (r: MirusError) {
        MirusError::Serde(error)
    }
}

impl vstd::std_specs::convert::FromSpecImpl<serde_json::Error> for MirusError {
    open spec fn obeys_from_spec() -> bool {
        true
    }

    open spec fn from_spec(v: serde_json::Error) -> MirusError {
        MirusError::Serde(v)
    }
}

/// The text of an HTTP status through `http::StatusCode`'s `Display` impl:
/// its code, a space, and its canonical reason.
pub uninterp spec fn status_display(s: reqwest::StatusCode) -> Seq<char>;

/// The number of an HTTP status, as `http::StatusCode::as_u16` gives it.
pub uninterp spec fn status_number(s: reqwest::StatusCode) -> u16;

/// The text of a string through `str`'s `Debug` impl: the string quoted,
/// with quotes, backslashes and unprintable characters escaped.
pub uninterp spec fn debug_quoted(s: Seq<char>) -> Seq<char>;

/// Renders an HTTP status through its `Display` impl, which depends on the
/// status alone: the text is the named one for the status.
#[verifier::external_body]
pub(crate) fn status_text(status: &reqwest::StatusCode) -> (r: String)
    ensures
        r@ == status_display(*status),
{
    status.to_string()
}

/// Calls `http::StatusCode::as_u16`, which gives the status's number.
#[verifier::external_body]
fn status_code_number(status: &reqwest::StatusCode) -> (r: u16)
    ensures
        r == status_number(*status),
{
    status.as_u16()
}

/// The character of a decimal digit.
pub open spec fn digit_char(d: nat) -> char {
    if d == 0 {
        '0'
    } else if d == 1 {
        '1'
    } else if d == 2 {
        '2'
    } else if d == 3 {
        '3'
    } else if d == 4 {
        '4'
    } else if d == 5 {
        '5'
    } else if d == 6 {
        '6'
    } else if d == 7 {
        '7'
    } else if d == 8 {
        '8'
    } else {
        '9'
    }
}

/// A number written in decimal, without leading zeros.
pub open spec fn decimal(n: nat) -> Seq<char>
    decreases n,
{
    if n < 10 {
        seq![digit_char(n)]
    } else {
        decimal(n / 10).push(digit_char(n % 10))
    }
}

/// The text of a decimal digit.
fn digit_text(d: u16) -> (r: &'static str)
    requires
        d < 10,
    ensures
        r@ == seq![digit_char(d as nat)],
{
    proof {
        reveal_strlit("0");
        reveal_strlit("1");
        reveal_strlit("2");
        reveal_strlit("3");
        reveal_strlit("4");
        reveal_strlit("5");
        reveal_strlit("6");
        reveal_strlit("7");
        reveal_strlit("8");
        reveal_strlit("9");
    }
    let r = if d == 0 {
        "0"
    } else if d == 1 {
        "1"
    } else if d == 2 {
        "2"
    } else if d == 3 {
        "3"
    } else if d == 4 {
        "4"
    } else if d == 5 {
        "5"
    } else if d == 6 {
        "6"
    } else if d == 7 {
        "7"
    } else if d == 8 {
        "8"
    } else {
        "9"
    };
    assert(r@ =~= seq![digit_char(d as nat)]);
    r
}

/// A number written in decimal, as the `Debug` impl of an integer writes it.
fn decimal_text(n: u16) -> (r: String)
    ensures
        r@ == decimal(n as nat),
    decreases n,
{
    if n < 10 {
        String::from_str(digit_text(n))
    } else {
        let mut r = decimal_text(n / 10);
        r.append(digit_text(n % 10));
        r
    }
}

/// Renders a string through `str`'s `Debug` impl, which depends on the
/// characters alone: the text is the named one for the string.
#[verifier::external_body]
fn str_debug_text(text: &str) -> (r: String)
    ensures
        r@ == debug_quoted(text@),
{
    format!("{text:?}")
}

/// Renders an I/O error through its `Display` impl; nothing is stated of the
/// text.
#[verifier::external_body]
fn io_error_text(error: &std::io::Error) -> String {
    error.to_string()
}

/// Renders a JSON error through `serde_json::Error`'s `Debug` impl, which
/// writes `Error(`, then the quoted message, line and column. Only that
/// opening is stated: the message of an I/O error inside comes from the
/// operating system.
#[verifier::external_body]
fn json_error_debug_text(error: &serde_json::Error) -> (r: String)
    ensures
        r@.len() >= 6,
        r@.take(6) == "Error("@,
{
    format!("{error:?}")
}

/// The text of a network error as its derived `Debug` impl writes it: the
/// variant's name, and for a variant with a field the field's own `Debug`
/// text in parentheses; an HTTP status's own text is its number in decimal,
/// as `http::StatusCode`'s `Debug` impl writes it.
pub open spec fn network_debug(e: NetworkError) -> Seq<char> {
    match e {
        NetworkError::Connect => "Connect"@,
        NetworkError::Decode => "Decode"@,
        NetworkError::Io => "Io"@,
        NetworkError::Status(status) => "Status("@ + decimal(status_number(status) as nat) + ")"@,
        NetworkError::Timeout => "Timeout"@,
        NetworkError::Other(message) => "Other("@ + debug_quoted(message@) + ")"@,
    }
}

/// Prefixes a text.
fn prefixed(prefix: &str, text: String) -> (r: String)
    ensures
        r@ == prefix@ + text@,
{
    let mut r = prefix.to_string();
    r.append(text.as_str());
    r
}

/// Puts a text between an opening and a closing.
fn enclosed(open: &str, text: String, close: &str) -> (r: String)
    ensures
        r@ == open@ + text@ + close@,
{
    let mut r = prefixed(open, text);
    r.append(close);
    r
}

impl NetworkError {
    /// The message shown for this error.
    pub fn describe(&self) -> (r: String)
        ensures
            match self {
                NetworkError::Connect => r@ == "connection error"@,
                NetworkError::Decode => r@ == "error decoding response body"@,
                NetworkError::Io => r@ == "network io error"@,
                NetworkError::Status(status) => r@ == "status "@ + status_display(*status),
                NetworkError::Timeout => r@ == "connection timeout"@,
                NetworkError::Other(message) => r@ == "network error: "@ + message@,
            },
    {
        match self {
            NetworkError::Connect => "connection error".to_string(),
            NetworkError::Decode => "error decoding response body".to_string(),
            NetworkError::Io => "network io error".to_string(),
            NetworkError::Status(status) => prefixed("status ", status_text(status)),
            NetworkError::Timeout => "connection timeout".to_string(),
            NetworkError::Other(message) => prefixed("network error: ", message.clone()),
        }
    }

    /// The text of this error as its derived `Debug` impl writes it.
    pub fn debug_text(&self) -> (r: String)
        ensures
            r@ == network_debug(*self),
    {
        match self {
            NetworkError::Connect => "Connect".to_string(),
            NetworkError::Decode => "Decode".to_string(),
            NetworkError::Io => "Io".to_string(),
            NetworkError::Status(status) => enclosed("Status(", decimal_text(status_code_number(status)), ")"),
            NetworkError::Timeout => "Timeout".to_string(),
            NetworkError::Other(message) => enclosed("Other(", str_debug_text(message.as_str()), ")"),
        }
    }
}

impl MirusError {
    /// The message shown for this error.
    pub fn describe(&self) -> (r: String)
        ensures
            match self {
                MirusError::InvalidMirror(msg) => r@ == "invalid mirror: "@ + msg@,
                MirusError::Io(_) => exists|t: Seq<char>| r@ == "IO error: "@ + t,
                MirusError::Network(e) => r@ == "network error: "@ + network_debug(*e),
                MirusError::Serde(_) => exists|t: Seq<char>|
                    r@ == "serialization error: "@ + t && t.len() >= 6 && t.take(6) == "Error("@,
            },
    {
        match self {
            MirusError::InvalidMirror(msg) => prefixed("invalid mirror: ", msg.clone()),
            MirusError::Io(e) => prefixed("IO error: ", io_error_text(e)),
            MirusError::Network(e) => prefixed("network error: ", e.debug_text()),
            MirusError::Serde(e) => prefixed("serialization error: ", json_error_debug_text(e)),
        }
    }
}

} // verus!
