//! Guarding a protected handler: a request goes on only with a
//! well-formed `AcAuth` credential whose token the validator accepts.
//!
//! The work is split in two steps around the validator, which may be slow or
//! remote: `on_request` reads the credential, the caller asks the validator,
//! and `on_verdict` decides from its answer.
use vstd::prelude::*;

use crate::credential::{has_scheme_prefix, parse_token, AcAuth};

verus! {

/// Why a request is turned away.
#[derive(Clone, Copy, Debug, PartialEq, Eq, Structural)]
pub enum Rejection {
    /// The authorization header is missing, of another scheme, or malformed.
    BadRequest,
    /// The credential is well-formed but was not accepted.
    Unauthorized,
}

/// The HTTP status that stands for a rejection.
pub open spec fn status_of(r: Rejection) -> u16 {
    match r {
        Rejection::BadRequest => 400,
        Rejection::Unauthorized => 401,
    }
}

impl Rejection {
    /// The HTTP status of the response that turns the request away.
    pub fn status(&self) -> (r: u16)
        ensures
            r == status_of(*self),
    {
        match self {
            Rejection::BadRequest => 400,
            Rejection::Unauthorized => 401,
        }
    }
}

/// What the token validator answered.
#[derive(Clone, Copy, Debug, PartialEq, Eq, Structural)]
pub enum Verdict {
    /// The token is currently valid.
    Valid,
    /// The token is not valid.
    Invalid,
    /// The validator could not decide.
    Unavailable,
}

/// The credential that a request carries: its authorization header value, if
/// there is one, must start with `AcAuth ` and carry a token.
pub open spec fn header_credential(authorization: Option<&[u8]>) -> Option<Seq<char>> {
    match authorization {
        Some(v) => if has_scheme_prefix(v@) {
            parse_token(v@)
        } else {
            None
        },
        None => None,
    }
}

/// First step of the guard: reads the credential from the request's
/// authorization header value (`None` when the request has none). A request
/// without a credential is a bad request.
pub fn on_request(authorization: Option<&[u8]>) -> (r: Result<AcAuth, Rejection>)
    ensures
        match r {
            Ok(c) => header_credential(authorization) == Some(c@),
            Err(e) => header_credential(authorization) is None && e == Rejection::BadRequest,
        },
{
    match authorization {
        Some(value) => {
            if !crate::credential::starts_with_scheme(value) {
                return Err(Rejection::BadRequest);
            }
            match AcAuth::decode(value) {
                Some(c) => Ok(c),
                None => Err(Rejection::BadRequest),
            }
        },
        None => Err(Rejection::BadRequest),
    }
}

/// Second step of the guard: the request goes on only when the validator
/// found its token valid. A validator that could not decide counts as a
/// refusal.
pub fn on_verdict(verdict: Verdict) -> (r: Result<(), Rejection>)
    ensures
        r == (match verdict {
            Verdict::Valid => Ok(()),
            _ => Err(Rejection::Unauthorized),
        }),
{
    match verdict {
        Verdict::Valid => Ok(()),
        _ => Err(Rejection::Unauthorized),
    }
}

/// Whether `token` is one of the issued tokens.
pub open spec fn is_issued(token: Seq<char>, issued: Seq<String>) -> bool {
    exists|i: int| 0 <= i < issued.len() && (#[trigger] issued[i])@ == token
}

/// A validator over a list of issued tokens: a token is valid exactly when it
/// was issued.
pub fn token_is_valid(token: &str, issued: &[String]) -> (r: bool)
    ensures
        r == is_issued(token@, issued@),
{
    let wanted = token.to_owned();
    let mut i: usize = 0;
    while i < issued.len()
        invariant
            wanted@ == token@,
            i <= issued.len(),
            forall|j: int| 0 <= j < i ==> (#[trigger] issued@[j])@ != token@,
        decreases issued.len() - i,
    {
        if issued[i] == wanted {
            return true;
        }
        i = i + 1;
    }
    false
}

} // verus!
