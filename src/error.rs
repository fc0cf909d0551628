//! The error type that backing stores and the cache report.
use vstd::prelude::*;

verus! {

/// `writium::Error`: an HTTP status, a description and an optional cause,
/// carried through unchanged.
#[verifier::external_type_specification]
#[verifier::external_body]
pub struct ExError(writium::error::Error);

/// The error that `writium::Error::internal` builds for a description: an
/// HTTP 500 status, that description, default headers and no cause.
pub uninterp spec fn internal_error(description: Seq<char>) -> writium::error::Error;

/// Relies on `writium::Error::internal`: builds an HTTP 500 error from the
/// description alone (`Error::new(InternalServerError, description)`).
pub assume_specification[ writium::error::Error::internal ](description: &'static str) -> (r: writium::error::Error)
    ensures
        r == internal_error(description@),
;

} // verus!
