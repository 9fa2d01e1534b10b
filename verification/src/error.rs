//! The error taxonomy of the engine and its mapping onto response classes.

use vstd::prelude::*;

verus! {

/// Application-level failures, one variant per fault class.
#[derive(Debug)]
pub enum AppError {
    ValidationError(String),
    NotFound,
    Unauthorized,
    Forbidden,
    Io(String),
    Anyhow(String),
    Model(String),
    Candle(String),
    Chat(String),
    SafeTensor(String),
    InvalidModel(String),
    ConfigError(String),
    TokenizerError(String),
    InvalidParameter(String),
    Generic(String),
}

/// The HTTP status class of each failure: availability and parameter faults
/// are client errors, numeric and internal faults are server errors.
pub open spec fn spec_status_code(e: AppError) -> int {
    match e {
        AppError::Io(_) => 500,
        AppError::Anyhow(_) => 500,
        AppError::Model(_) => 400,
        AppError::Candle(_) => 500,
        AppError::Chat(_) => 400,
        AppError::SafeTensor(_) => 500,
        AppError::InvalidModel(_) => 400,
        AppError::ConfigError(_) => 500,
        AppError::TokenizerError(_) => 500,
        AppError::ValidationError(_) => 400,
        AppError::InvalidParameter(_) => 400,
        AppError::NotFound => 404,
        AppError::Unauthorized => 401,
        AppError::Forbidden => 403,
        AppError::Generic(_) => 500,
    }
}

impl AppError {
    /// Wrap a plain message.
    pub fn new(message: String) -> (r: AppError)
        ensures
            r == AppError::Generic(message),
    {
        AppError::Generic(message)
    }

    /// The HTTP status code of this failure.
    pub fn status_code(&self) -> (r: u16)
        ensures
            r == spec_status_code(*self),
    {
        match self {
            AppError::Io(_) => 500,
            AppError::Anyhow(_) => 500,
            AppError::Model(_) => 400,
            AppError::Candle(_) => 500,
            AppError::Chat(_) => 400,
            AppError::SafeTensor(_) => 500,
            AppError::InvalidModel(_) => 400,
            AppError::ConfigError(_) => 500,
            AppError::TokenizerError(_) => 500,
            AppError::ValidationError(_) => 400,
            AppError::InvalidParameter(_) => 400,
            AppError::NotFound => 404,
            AppError::Unauthorized => 401,
            AppError::Forbidden => 403,
            AppError::Generic(_) => 500,
        }
    }

    /// Whether the failure is the client's: a 4xx status.
    pub fn is_client_error(&self) -> (r: bool)
        ensures
            r == (400 <= spec_status_code(*self) < 500),
    {
        let c = self.status_code();
        400 <= c && c < 500
    }
}

/// Chat-endpoint failures, each mapped onto its response class.
#[derive(Debug)]
pub enum ChatError {
    ModelNotAvailable,
    ModelNotFound,
    ModelNotLoaded(String),
    OutputProcessingFailed(String),
}

/// The HTTP status of each chat failure: an unavailable or unknown model is
/// the client's fault, a loading or decoding fault is the server's.
pub open spec fn spec_chat_status_code(e: ChatError) -> int {
    match e {
        ChatError::ModelNotAvailable => 400,
        ChatError::ModelNotFound => 404,
        ChatError::ModelNotLoaded(_) => 500,
        ChatError::OutputProcessingFailed(_) => 500,
    }
}

impl ChatError {
    /// The HTTP status code of this failure.
    pub fn status_code(&self) -> (r: u16)
        ensures
            r == spec_chat_status_code(*self),
    {
        match self {
            ChatError::ModelNotAvailable => 400,
            ChatError::ModelNotFound => 404,
            ChatError::ModelNotLoaded(_) => 500,
            ChatError::OutputProcessingFailed(_) => 500,
        }
    }
}

/// Failures raised by the request-handling middleware.
#[derive(Debug)]
pub enum MiddlewareError {
    AuthenticationError,
}

/// The outcome of bearer-token authentication.
#[derive(Debug, PartialEq, Eq, Structural)]
pub enum AuthOutcome {
    Authorized,
    MissingKey,
    InvalidKey,
    ServerMisconfigured,
}

/// Decide a request's authentication: the presented bearer token against the
/// configured key. A missing token and a wrong token are both the client's
/// fault; a server without a configured key is a server fault; exactly a
/// matching token is authorized.
pub fn authenticate(presented: Option<&String>, configured: Option<&String>) -> (r: AuthOutcome)
    ensures
        r == match (presented, configured) {
            (Some(p), Some(c)) => if p@ == c@ {
                AuthOutcome::Authorized
            } else {
                AuthOutcome::InvalidKey
            },
            (None, _) => AuthOutcome::MissingKey,
            (_, None) => AuthOutcome::ServerMisconfigured,
        },
{
    match (presented, configured) {
        (Some(p), Some(c)) => {
            if *p == *c {
                AuthOutcome::Authorized
            } else {
                AuthOutcome::InvalidKey
            }
        },
        (None, _) => AuthOutcome::MissingKey,
        (_, None) => AuthOutcome::ServerMisconfigured,
    }
}

impl AuthOutcome {
    /// The HTTP status of the outcome: unauthorized for a missing or wrong
    /// key, a server error for a missing configuration, success otherwise.
    pub fn status_code(&self) -> (r: u16)
        ensures
            r == match self {
                AuthOutcome::Authorized => 200int,
                AuthOutcome::MissingKey => 401int,
                AuthOutcome::InvalidKey => 401int,
                AuthOutcome::ServerMisconfigured => 500int,
            },
    {
        match self {
            AuthOutcome::Authorized => 200,
            AuthOutcome::MissingKey => 401,
            AuthOutcome::InvalidKey => 401,
            AuthOutcome::ServerMisconfigured => 500,
        }
    }
}

/// Failures of the utility layer.
#[derive(Debug)]
pub enum UtilsError {
    TimeError(String),
    AnyhowError(String),
}

/// A failure to read the system clock.
#[derive(Debug)]
pub enum TimeError {
    SystemTimeError(String),
}

} // verus!
