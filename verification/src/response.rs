//! Uniform translation of a handler's unexpected failure into a response:
//! a fixed status and a body carrying the failure's message, so that no
//! request can take the server down.

use vstd::prelude::*;

verus! {

/// The status sent for an unexpected failure inside a handler.
pub const INTERNAL_ERROR_STATUS: u16 = 500;

/// The body sent for an unexpected failure: the fixed heading with the
/// failure's message appended, and nothing else of the failure exposed.
pub fn internal_error_body(message: &str) -> (r: String)
    ensures
        r@ == "Internal server error:\n"@ + message@,
{
    let mut body = String::from_str("Internal server error:\n");
    body.append(message);
    body
}

} // verus!
