//! User sessions: what issues tokens, and how issued tokens are checked.

use vstd::prelude::*;

verus! {

/// Seconds of clock skew tolerated when a token's times are checked.
pub const DEFAULT_LEEWAY: u64 = 10;

/// Why a token could not be issued.
#[derive(Debug)]
pub enum TokenIssuerError {
    /// The claims could not be encoded or signed.
    EncodingError(String),
}

/// Issues JWT tokens for claims of type `T`; implementations encode the
/// claims, so `T` is in practice a serializable type.
pub trait TokenIssuer<T> {
    /// Issues a token carrying `claims`.
    fn issue_token_with_claims(&self, claims: T) -> Result<String, TokenIssuerError>;
}

/// How a token's claims are checked: the leeway in seconds and the issuer the
/// token must name.
#[derive(Debug)]
pub struct ValidationSettings {
    pub leeway: u64,
    pub issuer: String,
}

/// The checks for tokens issued by `issuer`, with the default leeway.
pub fn default_validation(issuer: &str) -> (r: ValidationSettings)
    ensures
        r.leeway == DEFAULT_LEEWAY,
        r.issuer@ == issuer@,
{
    ValidationSettings { leeway: DEFAULT_LEEWAY, issuer: issuer.to_owned() }
}

} // verus!
