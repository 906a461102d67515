//! Error kinds of the crate and their rendering as text.

use vstd::prelude::*;

use crate::text::push_str;

verus! {

broadcast use vstd::string::group_string_axioms;

/// The kind of a failed LLM completion call, as it is labelled in metrics.
#[derive(Debug, Clone, Copy, PartialEq, Eq, Structural)]
#[non_exhaustive]
pub enum LlmErrorKind {
    Network,
    RateLimited,
    Auth,
    Parse,
    Backend,
    Other,
}

/// The snake-case label of an LLM error kind.
pub open spec fn llm_kind_label(kind: LlmErrorKind) -> Seq<char> {
    match kind {
        LlmErrorKind::Network => "network"@,
        LlmErrorKind::RateLimited => "rate_limit"@,
        LlmErrorKind::Auth => "auth"@,
        LlmErrorKind::Parse => "parse"@,
        LlmErrorKind::Backend => "backend"@,
        LlmErrorKind::Other => "other"@,
    }
}

impl LlmErrorKind {
    /// The snake-case label of the kind.
    pub fn as_str(self) -> (r: &'static str)
        ensures
            r@ == llm_kind_label(self),
    {
        match self {
            LlmErrorKind::Network => "network",
            LlmErrorKind::RateLimited => "rate_limit",
            LlmErrorKind::Auth => "auth",
            LlmErrorKind::Parse => "parse",
            LlmErrorKind::Backend => "backend",
            LlmErrorKind::Other => "other",
        }
    }
}

/// The kind that an HTTP status of a failed completion call stands for.
pub open spec fn kind_of_status(status: u16) -> LlmErrorKind {
    if status == 429 {
        LlmErrorKind::RateLimited
    } else if status == 401 || status == 403 {
        LlmErrorKind::Auth
    } else if 400 <= status <= 499 {
        LlmErrorKind::Parse
    } else if 500 <= status <= 599 {
        LlmErrorKind::Backend
    } else {
        LlmErrorKind::Other
    }
}

/// Classifies an HTTP status code: 429 is rate limiting, 401 and 403 are
/// authentication, any other 4xx a request the provider could not use, 5xx a
/// provider failure, and anything else is `Other`.
pub fn status_to_kind(status: u16) -> (k: LlmErrorKind)
    ensures
        k == kind_of_status(status),
{
    if status == 429 {
        LlmErrorKind::RateLimited
    } else if status == 401 || status == 403 {
        LlmErrorKind::Auth
    } else if 400 <= status && status <= 499 {
        LlmErrorKind::Parse
    } else if 500 <= status && status <= 599 {
        LlmErrorKind::Backend
    } else {
        LlmErrorKind::Other
    }
}

/// The errors of the crate.
#[derive(Debug)]
pub enum OrgaError {
    NotFound(String),
    Unauthorized(String),
    RateLimited,
    NetworkError(String),
    BackendError(String),
    LlmError { kind: LlmErrorKind, message: String },
    ConfigError(String),
    SystemdNotLinux,
    SystemdRootRequired,
    SystemdWriteFailed(String),
}

/// The text of an error, as it is shown to the user.
pub open spec fn error_message(e: OrgaError) -> Seq<char> {
    match e {
        OrgaError::NotFound(s) => "not found: "@ + s@,
        OrgaError::Unauthorized(s) => "unauthorized: "@ + s@,
        OrgaError::RateLimited => "rate limited by backend, try again later"@,
        OrgaError::NetworkError(s) => "network error: "@ + s@,
        OrgaError::BackendError(s) => "backend error: "@ + s@,
        OrgaError::LlmError { kind, message } => "llm error ("@ + llm_kind_label(kind) + "): "@
            + message@,
        OrgaError::ConfigError(s) => "config error: "@ + s@,
        OrgaError::SystemdNotLinux => "systemd is only supported on Linux"@,
        OrgaError::SystemdRootRequired =>
            "root privileges are required for system-level service installation"@,
        OrgaError::SystemdWriteFailed(s) => "failed to write systemd unit file: "@ + s@,
    }
}

/// `e` is a backend error with the message `msg`.
pub open spec fn is_backend_error(e: OrgaError, msg: Seq<char>) -> bool {
    match e {
        OrgaError::BackendError(m) => m@ == msg,
        _ => false,
    }
}

/// `e` is an authorisation error with the message `msg`.
pub open spec fn is_unauthorized_error(e: OrgaError, msg: Seq<char>) -> bool {
    match e {
        OrgaError::Unauthorized(m) => m@ == msg,
        _ => false,
    }
}

/// `e` is a not-found error with the message `msg`.
pub open spec fn is_not_found_error(e: OrgaError, msg: Seq<char>) -> bool {
    match e {
        OrgaError::NotFound(m) => m@ == msg,
        _ => false,
    }
}

impl OrgaError {
    /// The text of the error, as it is shown to the user.
    pub fn message(&self) -> (r: String)
        ensures
            r@ == error_message(*self),
    {
        let mut out = String::new();
        match self {
            OrgaError::NotFound(s) => {
                push_str(&mut out, "not found: ");
                push_str(&mut out, s.as_str());
            },
            OrgaError::Unauthorized(s) => {
                push_str(&mut out, "unauthorized: ");
                push_str(&mut out, s.as_str());
            },
            OrgaError::RateLimited => {
                push_str(&mut out, "rate limited by backend, try again later");
            },
            OrgaError::NetworkError(s) => {
                push_str(&mut out, "network error: ");
                push_str(&mut out, s.as_str());
            },
            OrgaError::BackendError(s) => {
                push_str(&mut out, "backend error: ");
                push_str(&mut out, s.as_str());
            },
            OrgaError::LlmError { kind, message } => {
                push_str(&mut out, "llm error (");
                push_str(&mut out, kind.as_str());
                push_str(&mut out, "): ");
                push_str(&mut out, message.as_str());
            },
            OrgaError::ConfigError(s) => {
                push_str(&mut out, "config error: ");
                push_str(&mut out, s.as_str());
            },
            OrgaError::SystemdNotLinux => {
                push_str(&mut out, "systemd is only supported on Linux");
            },
            OrgaError::SystemdRootRequired => {
                push_str(
                    &mut out,
                    "root privileges are required for system-level service installation",
                );
            },
            OrgaError::SystemdWriteFailed(s) => {
                push_str(&mut out, "failed to write systemd unit file: ");
                push_str(&mut out, s.as_str());
            },
        }
        out
    }
}

} // verus!
