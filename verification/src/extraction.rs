//! The steps by which claims are extracted from a request.
//!
//! Reading the authorization header, decoding the token, fetching the key
//! set and verifying the signature are the caller's work. An extraction says
//! which of them comes next and with what, and which error ends it when a
//! step fails.

use vstd::prelude::*;
use crate::claims::{issuer_of, jwks_url_of, Auth0Config, ClientError};

verus! {

/// What the caller is to do next.
#[derive(Clone, Debug, PartialEq, Eq)]
pub enum AuthRequest {
    /// Decode the header of the bearer token and report its key id.
    DecodeHeader,
    /// Fetch the key set from `url` and read it.
    FetchKeys { url: String },
    /// Look `kid` up in the key set and report the kind of key found.
    FindKey { kid: String },
    /// Build the decoding key from the components of the RSA key.
    BuildKey,
    /// Verify the token with RS256 for `audience` and `issuer`.
    Verify { audience: String, issuer: String },
    /// Hand out the claims of the verified token.
    Accept,
    /// Answer the request with the error.
    Reject(ClientError),
}

/// A request to the caller as a mathematical value.
pub enum AuthRequestView {
    DecodeHeader,
    FetchKeys { url: Seq<char> },
    FindKey { kid: Seq<char> },
    BuildKey,
    Verify { audience: Seq<char>, issuer: Seq<char> },
    Accept,
    Reject(ClientError),
}

impl View for AuthRequest {
    type V = AuthRequestView;

    open spec fn view(&self) -> AuthRequestView {
        match self {
            AuthRequest::DecodeHeader => AuthRequestView::DecodeHeader,
            AuthRequest::FetchKeys { url } => AuthRequestView::FetchKeys { url: url@ },
            AuthRequest::FindKey { kid } => AuthRequestView::FindKey { kid: kid@ },
            AuthRequest::BuildKey => AuthRequestView::BuildKey,
            AuthRequest::Verify { audience, issuer } => AuthRequestView::Verify {
                audience: audience@,
                issuer: issuer@,
            },
            AuthRequest::Accept => AuthRequestView::Accept,
            AuthRequest::Reject(error) => AuthRequestView::Reject(*error),
        }
    }
}

/// What the caller found.
#[derive(Clone, Debug, PartialEq, Eq)]
pub enum AuthReply {
    /// Whether the request carries a bearer token.
    Bearer { found: bool },
    /// The token's header could not be decoded.
    HeaderUnreadable,
    /// The token's header, with its key id if it has one.
    Header { kid: Option<String> },
    /// The key set could not be reached: the transport failed.
    KeysUnreachable,
    /// An answer came, but it could not be read as a key set.
    KeysUnreadable,
    /// The key set was fetched and read.
    KeysFetched,
    /// The key set holds no key with the id.
    KeyMissing,
    /// The key with the id, which is an RSA key or not.
    Key { rsa: bool },
    /// Whether the decoding key could be built.
    DecodingKey { built: bool },
    /// Whether the token stood the verification.
    Verified { valid: bool },
}

/// A reply of the caller as a mathematical value.
pub enum AuthReplyView {
    Bearer { found: bool },
    HeaderUnreadable,
    Header { kid: Option<Seq<char>> },
    KeysUnreachable,
    KeysUnreadable,
    KeysFetched,
    KeyMissing,
    Key { rsa: bool },
    DecodingKey { built: bool },
    Verified { valid: bool },
}

impl View for AuthReply {
    type V = AuthReplyView;

    open spec fn view(&self) -> AuthReplyView {
        match self {
            AuthReply::Bearer { found } => AuthReplyView::Bearer { found: *found },
            AuthReply::HeaderUnreadable => AuthReplyView::HeaderUnreadable,
            AuthReply::Header { kid: Some(kid) } => AuthReplyView::Header { kid: Some(kid@) },
            AuthReply::Header { kid: None } => AuthReplyView::Header { kid: None },
            AuthReply::KeysUnreachable => AuthReplyView::KeysUnreachable,
            AuthReply::KeysUnreadable => AuthReplyView::KeysUnreadable,
            AuthReply::KeysFetched => AuthReplyView::KeysFetched,
            AuthReply::KeyMissing => AuthReplyView::KeyMissing,
            AuthReply::Key { rsa } => AuthReplyView::Key { rsa: *rsa },
            AuthReply::DecodingKey { built } => AuthReplyView::DecodingKey { built: *built },
            AuthReply::Verified { valid } => AuthReplyView::Verified { valid: *valid },
        }
    }
}

/// What an extraction waits for.
#[derive(Clone, Copy, Debug, PartialEq, Eq, Structural)]
pub enum AuthStage {
    Bearer,
    Header,
    Keys,
    Key,
    DecodingKey,
    Verification,
    Done,
}

/// An extraction in progress.
#[derive(Clone, Debug, PartialEq, Eq)]
pub struct Extraction {
    pub audience: String,
    pub domain: String,
    pub kid: String,
    pub stage: AuthStage,
}

/// An extraction as a mathematical value.
pub struct ExtractionView {
    pub audience: Seq<char>,
    pub domain: Seq<char>,
    pub kid: Seq<char>,
    pub stage: AuthStage,
}

impl View for Extraction {
    type V = ExtractionView;

    open spec fn view(&self) -> ExtractionView {
        ExtractionView {
            audience: self.audience@,
            domain: self.domain@,
            kid: self.kid@,
            stage: self.stage,
        }
    }
}

/// The extraction after a reply, and what is to be done next.
///
/// A request without a bearer token is rejected as an invalid token. A token
/// whose header cannot be decoded is rejected with a decoding error, one
/// without a key id as missing its key id. With a key id the key set is
/// fetched from the domain. Where the key set cannot be reached, the request
/// is rejected with the error of the fetch, which is reported as a bad
/// gateway and not as unauthorized; where an answer comes that cannot be
/// read as a key set, the token counts as invalid. A key id that the set
/// does not hold is rejected as not found, a key that is no RSA key as an
/// unsupported algorithm, and RSA components from which no key can be built
/// as a decode error. Then the token is verified for the configured audience
/// and the issuer of the domain, and accepted where it stands the
/// verification. A reply that the extraction does not wait for counts as an
/// invalid token.
pub open spec fn advanced(state: ExtractionView, reply: AuthReplyView) -> (
    ExtractionView,
    AuthRequestView,
) {
    let rejected = |error: ClientError|
        (ExtractionView { stage: AuthStage::Done, ..state }, AuthRequestView::Reject(error));
    match (state.stage, reply) {
        (AuthStage::Bearer, AuthReplyView::Bearer { found }) => if found {
            (ExtractionView { stage: AuthStage::Header, ..state }, AuthRequestView::DecodeHeader)
        } else {
            rejected(ClientError::InvalidToken)
        },
        (AuthStage::Header, AuthReplyView::HeaderUnreadable) => rejected(ClientError::JwtError),
        (AuthStage::Header, AuthReplyView::Header { kid: None }) => rejected(
            ClientError::KidMissing,
        ),
        (AuthStage::Header, AuthReplyView::Header { kid: Some(kid) }) => (
            ExtractionView { stage: AuthStage::Keys, kid, ..state },
            AuthRequestView::FetchKeys { url: jwks_url_of(state.domain) },
        ),
        (AuthStage::Keys, AuthReplyView::KeysUnreachable) => rejected(ClientError::ReqwestError),
        (AuthStage::Keys, AuthReplyView::KeysUnreadable) => rejected(ClientError::InvalidToken),
        (AuthStage::Keys, AuthReplyView::KeysFetched) => (
            ExtractionView { stage: AuthStage::Key, ..state },
            AuthRequestView::FindKey { kid: state.kid },
        ),
        (AuthStage::Key, AuthReplyView::KeyMissing) => rejected(ClientError::JwkNotFound),
        (AuthStage::Key, AuthReplyView::Key { rsa }) => if rsa {
            (ExtractionView { stage: AuthStage::DecodingKey, ..state }, AuthRequestView::BuildKey)
        } else {
            rejected(ClientError::UnsupportedAlgorithm)
        },
        (AuthStage::DecodingKey, AuthReplyView::DecodingKey { built }) => if built {
            (
                ExtractionView { stage: AuthStage::Verification, ..state },
                AuthRequestView::Verify {
                    audience: state.audience,
                    issuer: issuer_of(state.domain),
                },
            )
        } else {
            rejected(ClientError::DecodeError)
        },
        (AuthStage::Verification, AuthReplyView::Verified { valid }) => if valid {
            (ExtractionView { stage: AuthStage::Done, ..state }, AuthRequestView::Accept)
        } else {
            rejected(ClientError::InvalidToken)
        },
        _ => rejected(ClientError::InvalidToken),
    }
}

impl Extraction {
    /// An extraction for tokens of `config` that waits for the bearer token.
    pub fn begin(config: &Auth0Config) -> (state: Extraction)
        ensures
            state@ == (ExtractionView {
                audience: config.audience@,
                domain: config.domain@,
                kid: Seq::empty(),
                stage: AuthStage::Bearer,
            }),
    {
        Extraction {
            audience: config.audience.clone(),
            domain: config.domain.clone(),
            kid: String::new(),
            stage: AuthStage::Bearer,
        }
    }

    fn reject(self, error: ClientError) -> (next: (Extraction, AuthRequest))
        ensures
            next.0@ == (ExtractionView { stage: AuthStage::Done, ..self@ }),
            next.1@ == AuthRequestView::Reject(error),
    {
        let Extraction { audience, domain, kid, stage: _ } = self;
        (Extraction { audience, domain, kid, stage: AuthStage::Done }, AuthRequest::Reject(error))
    }

    fn wait_for(self, stage: AuthStage, request: AuthRequest) -> (next: (Extraction, AuthRequest))
        ensures
            next.0@ == (ExtractionView { stage, ..self@ }),
            next.1 == request,
    {
        let Extraction { audience, domain, kid, stage: _ } = self;
        (Extraction { audience, domain, kid, stage }, request)
    }

    /// Takes what the caller found and says what to do next.
    pub fn step(self, reply: AuthReply) -> (next: (Extraction, AuthRequest))
        ensures
            (next.0@, next.1@) == advanced(self@, reply@),
    {
        match (self.stage, reply) {
            (AuthStage::Bearer, AuthReply::Bearer { found }) => if found {
                self.wait_for(AuthStage::Header, AuthRequest::DecodeHeader)
            } else {
                self.reject(ClientError::InvalidToken)
            },
            (AuthStage::Header, AuthReply::HeaderUnreadable) => self.reject(ClientError::JwtError),
            (AuthStage::Header, AuthReply::Header { kid: None }) => self.reject(
                ClientError::KidMissing,
            ),
            (AuthStage::Header, AuthReply::Header { kid: Some(kid) }) => {
                let config = Auth0Config {
                    audience: self.audience.clone(),
                    domain: self.domain.clone(),
                };
                let url = config.jwks_url();
                let Extraction { audience, domain, kid: _, stage: _ } = self;
                (
                    Extraction { audience, domain, kid, stage: AuthStage::Keys },
                    AuthRequest::FetchKeys { url },
                )
            },
            (AuthStage::Keys, AuthReply::KeysUnreachable) => self.reject(
                ClientError::ReqwestError,
            ),
            (AuthStage::Keys, AuthReply::KeysUnreadable) => self.reject(ClientError::InvalidToken),
            (AuthStage::Keys, AuthReply::KeysFetched) => {
                let kid = self.kid.clone();
                self.wait_for(AuthStage::Key, AuthRequest::FindKey { kid })
            },
            (AuthStage::Key, AuthReply::KeyMissing) => self.reject(ClientError::JwkNotFound),
            (AuthStage::Key, AuthReply::Key { rsa }) => if rsa {
                self.wait_for(AuthStage::DecodingKey, AuthRequest::BuildKey)
            } else {
                self.reject(ClientError::UnsupportedAlgorithm)
            },
            (AuthStage::DecodingKey, AuthReply::DecodingKey { built }) => if built {
                let config = Auth0Config {
                    audience: self.audience.clone(),
                    domain: self.domain.clone(),
                };
                let issuer = config.issuer();
                let audience = self.audience.clone();
                self.wait_for(AuthStage::Verification, AuthRequest::Verify { audience, issuer })
            } else {
                self.reject(ClientError::DecodeError)
            },
            (AuthStage::Verification, AuthReply::Verified { valid }) => if valid {
                self.wait_for(AuthStage::Done, AuthRequest::Accept)
            } else {
                self.reject(ClientError::InvalidToken)
            },
            (_, _) => self.reject(ClientError::InvalidToken),
        }
    }
}

} // verus!
