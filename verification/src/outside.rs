//! Declarations of the outside types that the library carries without looking inside.
use vstd::prelude::*;

verus! {

#[verifier::external_type_specification]
#[verifier::external_body]
pub struct ExIoError(std::io::Error);

#[verifier::external_type_specification]
#[verifier::external_body]
pub struct ExJsonError(serde_json::Error);

#[verifier::external_type_specification]
#[verifier::external_body]
pub struct ExRequestError(reqwest::Error);

#[verifier::external_type_specification]
#[verifier::external_body]
pub struct ExStatusCode(reqwest::StatusCode);

#[verifier::external_type_specification]
#[verifier::external_body]
pub struct ExPathBuf(std::path::PathBuf);

/// `http::StatusCode` derives `Clone` beside `Copy`: a clone is the same
/// status.
pub assume_specification[ <reqwest::StatusCode as std::clone::Clone>::clone ](
    status: &reqwest::StatusCode,
) -> (r: reqwest::StatusCode)
    ensures
        r == *status,
;

/// `std::time::Duration` is `Copy`: a clone is the same span.
pub assume_specification[ <std::time::Duration as std::clone::Clone>::clone ](
    span: &std::time::Duration,
) -> (r: std::time::Duration)
    ensures
        r == *span,
;

/// `std::path::PathBuf::clone`; nothing is stated of the copy.
pub assume_specification[ <std::path::PathBuf as std::clone::Clone>::clone ](
    path: &std::path::PathBuf,
) -> std::path::PathBuf;

} // verus!
