//! The submission verifier's decision: a chunk counts as accepted exactly
//! when the sink's response carries a top-level boolean `errors` member that
//! is `false`.  Anything else is fatal, and the raw body travels with the
//! error for diagnostics.

use vstd::prelude::*;

use crate::errors::PipelineError;

verus! {

/// The top-level `errors` member of a response body: `Some` of its value
/// when the body parses as JSON and holds a boolean `errors` member, `None`
/// otherwise.  A pure function of the body's characters.
pub uninterp spec fn errors_flag_of(body: Seq<char>) -> Option<bool>;

/// Relies on `serde_json::from_str` and `serde_json::Value::get` /
/// `Value::as_bool`: whether a body parses as JSON, and what its top-level
/// `errors` member holds, is a function of the body's characters alone.
#[verifier::external_body]
fn parse_errors_flag(body: &str) -> (r: Option<bool>)
    ensures
        r == errors_flag_of(body@),
{
    match serde_json::from_str::<serde_json::Value>(body) {
        Ok(v) => v.get("errors").and_then(|e| e.as_bool()),
        Err(_) => None,
    }
}

/// Decides whether the sink accepted a chunk.  Accepts exactly the bodies
/// whose `errors` flag is `false`; a `true` flag or a body without a boolean
/// `errors` member fails the run, carrying the raw body.
pub fn check_response(body: &str) -> (r: Result<(), PipelineError>)
    ensures
        r is Ok <==> errors_flag_of(body@) == Some(false),
        match r {
            Ok(_) => true,
            Err(e) => match e {
                PipelineError::SinkErrors { body: b } => errors_flag_of(body@) == Some(true)
                    && b@ == body@,
                PipelineError::BadResponse { body: b } => errors_flag_of(body@) is None
                    && b@ == body@,
                _ => false,
            },
        },
{
    match parse_errors_flag(body) {
        Some(flag) => {
            if flag {
                Err(PipelineError::SinkErrors { body: body.to_owned() })
            } else {
                Ok(())
            }
        },
        None => Err(PipelineError::BadResponse { body: body.to_owned() }),
    }
}

} // verus!
