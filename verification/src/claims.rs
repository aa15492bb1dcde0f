//! Bearer-token claims: the permission check that gates a preview, the
//! errors of token validation and how they are reported, and the order of the
//! validation steps.
//!
//! Decoding a token, fetching the key set and verifying a signature are done
//! by the caller. This module decides what is done next and which error a
//! failed step gives.

use std::collections::HashSet;
use vstd::prelude::*;
use vstd::string::StringExecFns;

verus! {

/// The body of an error response.
#[derive(Clone, Debug, PartialEq, Eq)]
pub struct ErrorMessage {
    pub error: Option<String>,
    pub error_description: Option<String>,
    pub message: String,
}

/// Why a bearer token was not accepted.
#[derive(Clone, Copy, Debug, PartialEq, Eq, Structural)]
pub enum ClientError {
    InvalidToken,
    KidMissing,
    JwkNotFound,
    UnsupportedAlgorithm,
    JwtError,
    ReqwestError,
    DecodeError,
}

/// Where tokens come from and whom they are meant for.
#[derive(Clone, Debug, PartialEq, Eq)]
pub struct Auth0Config {
    pub audience: String,
    pub domain: String,
}

/// The claims of a validated token.
#[derive(Clone, Debug, PartialEq, Eq)]
pub struct Claims {
    permissions: Option<HashSet<String>>,
}

/// The HTTP status under which an error is reported: bad gateway where the
/// key set could not be fetched, unauthorized otherwise.
pub open spec fn status_of(error: ClientError) -> u16 {
    match error {
        ClientError::ReqwestError => 502,
        _ => 401,
    }
}

/// The description of an error that is safe to show to a user.
pub open spec fn description_of(error: ClientError) -> Seq<char> {
    match error {
        ClientError::InvalidToken => "Invalid token"@,
        ClientError::KidMissing => "Missing 'kid' in JWT header"@,
        ClientError::JwkNotFound => "Matching JWK not found"@,
        ClientError::UnsupportedAlgorithm => "Unsupported algorithm"@,
        ClientError::JwtError => "Failed to decode JWT"@,
        ClientError::ReqwestError => "Failed to fetch JWKs"@,
        ClientError::DecodeError =>
            "Authorization header value must follow this format: Bearer access-token"@,
    }
}

/// The short name of an error.
pub open spec fn label_of(error: ClientError) -> Seq<char> {
    match error {
        ClientError::InvalidToken => "invalid token"@,
        ClientError::KidMissing => "kid not found"@,
        ClientError::JwkNotFound => "jwk not found"@,
        ClientError::UnsupportedAlgorithm => "unsupported algorithm"@,
        ClientError::JwtError => "JWT decode error"@,
        ClientError::ReqwestError => "HTTP error"@,
        ClientError::DecodeError => "decode error"@,
    }
}

impl ClientError {
    /// The HTTP status of the error's response.
    pub fn status(&self) -> (code: u16)
        ensures
            code == status_of(*self),
    {
        match self {
            ClientError::ReqwestError => 502,
            _ => 401,
        }
    }

    /// The description that the error's response carries.
    pub fn description(&self) -> (text: String)
        ensures
            text@ == description_of(*self),
    {
        match self {
            ClientError::InvalidToken => "Invalid token".to_owned(),
            ClientError::KidMissing => "Missing 'kid' in JWT header".to_owned(),
            ClientError::JwkNotFound => "Matching JWK not found".to_owned(),
            ClientError::UnsupportedAlgorithm => "Unsupported algorithm".to_owned(),
            ClientError::JwtError => "Failed to decode JWT".to_owned(),
            ClientError::ReqwestError => "Failed to fetch JWKs".to_owned(),
            ClientError::DecodeError =>
                "Authorization header value must follow this format: Bearer access-token".to_owned(),
        }
    }

    /// The short name of the error.
    pub fn label(&self) -> (text: String)
        ensures
            text@ == label_of(*self),
    {
        match self {
            ClientError::InvalidToken => "invalid token".to_owned(),
            ClientError::KidMissing => "kid not found".to_owned(),
            ClientError::JwkNotFound => "jwk not found".to_owned(),
            ClientError::UnsupportedAlgorithm => "unsupported algorithm".to_owned(),
            ClientError::JwtError => "JWT decode error".to_owned(),
            ClientError::ReqwestError => "HTTP error".to_owned(),
            ClientError::DecodeError => "decode error".to_owned(),
        }
    }

    /// The body of the error's response.
    pub fn error_message(&self) -> (body: ErrorMessage)
        ensures
            body.error matches Some(code) && code@ == "invalid_token"@,
            body.error_description matches Some(text) && text@ == description_of(*self),
            body.message@ == "Bad credentials"@,
    {
        ErrorMessage {
            error: Some("invalid_token".to_owned()),
            error_description: Some(self.description()),
            message: "Bad credentials".to_owned(),
        }
    }
}

/// The address of the key set of a domain.
pub open spec fn jwks_url_of(domain: Seq<char>) -> Seq<char> {
    "https://"@ + domain + "/.well-known/jwks.json"@
}

/// The issuer that tokens of a domain name.
pub open spec fn issuer_of(domain: Seq<char>) -> Seq<char> {
    "https://"@ + domain + "/"@
}

impl Auth0Config {
    /// The address from which the key set is fetched.
    pub fn jwks_url(&self) -> (url: String)
        ensures
            url@ == jwks_url_of(self.domain@),
    {
        let mut url = "https://".to_owned();
        url.append(self.domain.as_str());
        url.append("/.well-known/jwks.json");
        url
    }

    /// The issuer that a token must name.
    pub fn issuer(&self) -> (issuer: String)
        ensures
            issuer@ == issuer_of(self.domain@),
    {
        let mut issuer = "https://".to_owned();
        issuer.append(self.domain.as_str());
        issuer.append("/");
        issuer
    }
}

/// The permission names that a set of strings holds.
pub open spec fn names(permissions: Set<String>) -> Set<Seq<char>> {
    permissions.map(|permission: String| permission@)
}

/// `HashSet::is_superset` of std: whether every name in `required` is also in
/// `granted`. Strings are equal where their characters are.
#[verifier::external_body]
fn holds_all(granted: &HashSet<String>, required: &HashSet<String>) -> (yes: bool)
    ensures
        yes == names(required@).subset_of(names(granted@)),
{
    granted.is_superset(required)
}

impl Claims {
    /// The claims of a token that grants `permissions`, or that carries no
    /// permission claim at all.
    pub fn new(permissions: Option<HashSet<String>>) -> (claims: Claims)
        ensures
            claims.granted() == permissions,
    {
        Claims { permissions }
    }

    /// The permissions that the token grants, if it carries the claim.
    pub closed spec fn granted(&self) -> Option<HashSet<String>> {
        self.permissions
    }

    /// Whether the token grants every required permission. A token without
    /// a permission claim grants nothing, not even an empty requirement.
    pub fn validate_permissions(&self, required_permissions: &HashSet<String>) -> (allowed: bool)
        ensures
            allowed == match self.granted() {
                Some(granted) => names(required_permissions@).subset_of(names(granted@)),
                None => false,
            },
    {
        match &self.permissions {
            Some(granted) => holds_all(granted, required_permissions),
            None => false,
        }
    }
}

} // verus!
