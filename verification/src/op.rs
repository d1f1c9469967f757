//! 1Password (`op`) secret references and the handling of what `op read`
//! prints.

use vstd::prelude::*;
use vstd::utf8::{decode_utf8, valid_utf8};

use crate::text::{starts_with, starts_with_seq, trim, trim_seq};

verus! {

/// What goes wrong when resolving a secret.
#[derive(Debug, PartialEq, Eq, Structural)]
pub enum OpError {
    /// The reference does not start with `op://`.
    InvalidReference,
    /// The environment variable that holds the service account token is
    /// not set.
    MissingTokenEnv,
    /// `op read` could not be started.
    LaunchFailed,
    /// `op read` reported a failure.
    ReadFailed,
    /// `op read` printed something that is not UTF-8.
    NotUtf8,
}

/// A reference to a 1Password secret: after trimming, it starts with
/// `op://`.
pub open spec fn is_op_reference(reference: Seq<char>) -> bool {
    starts_with_seq(trim_seq(reference), "op://"@)
}

pub fn validate_reference(reference: &str) -> (r: Result<(), OpError>)
    ensures
        r is Ok <==> is_op_reference(reference@),
        r matches Err(e) ==> e == OpError::InvalidReference,
{
    let t = trim(reference);
    if starts_with(t.as_str(), "op://") {
        Ok(())
    } else {
        Err(OpError::InvalidReference)
    }
}

/// Decodes UTF-8 (`String::from_utf8`). Claimed: it succeeds exactly on
/// valid UTF-8, and then yields the decoded characters.
#[verifier::external_body]
pub(crate) fn utf8_text(bytes: &[u8]) -> (r: Option<String>)
    ensures
        r is Some <==> valid_utf8(bytes@),
        r matches Some(s) ==> s@ == decode_utf8(bytes@),
{
    match String::from_utf8(bytes.to_vec()) {
        Ok(s) => Some(s),
        Err(_) => None,
    }
}

/// The secret that a successful `op read` printed: its output, trimmed.
pub fn secret_from_output(stdout: &[u8]) -> (r: Result<String, OpError>)
    ensures
        match r {
            Ok(s) => valid_utf8(stdout@) && s@ == trim_seq(decode_utf8(stdout@)),
            Err(e) => !valid_utf8(stdout@) && e == OpError::NotUtf8,
        },
{
    match utf8_text(stdout) {
        Some(s) => Ok(trim(s.as_str())),
        None => Err(OpError::NotUtf8),
    }
}

} // verus!
