//! Errors of the server and the status and message each is answered with.

use vstd::prelude::*;
use crate::text::{contains_text, text_contains};

verus! {

/// The kinds of storage command failure that the answers tell apart.
#[derive(Debug, Clone, Copy, PartialEq, Eq, Structural)]
pub enum RedisErrorKind {
    /// The storage backend could not be reached.
    IoError,
    /// The backend answered with an error.
    ResponseError,
    /// Any other failure.
    Other,
}

/// A failed storage command: its kind, its full text and its error code.
#[derive(Debug, Clone)]
pub struct RedisFault {
    pub kind: RedisErrorKind,
    pub detail: String,
    pub code: Option<String>,
}

/// An error of the server.
#[derive(Debug, Clone)]
pub enum AppError {
    GameNotFound,
    GameAlreadyStarted,
    NotEnoughPlayers,
    GameFull,
    InvalidInput(String),
    Unauthorized,
    Internal,
    /// The storage connection pool failed; the text of its error.
    Redis(String),
    /// A storage command failed.
    RedisCmd(RedisFault),
    /// Stored data could not be read or written as JSON; the text of the error.
    Json(String),
}

pub const STATUS_BAD_REQUEST: u16 = 400;

pub const STATUS_UNAUTHORIZED: u16 = 401;

pub const STATUS_NOT_FOUND: u16 = 404;

pub const STATUS_INTERNAL_SERVER_ERROR: u16 = 500;

pub const STATUS_SERVICE_UNAVAILABLE: u16 = 503;

/// Status and message for a failed storage command.
pub open spec fn redis_error_class(kind: RedisErrorKind, detail: Seq<char>, code: Option<Seq<char>>) -> (
    u16,
    Seq<char>,
) {
    match kind {
        RedisErrorKind::IoError => (
            STATUS_SERVICE_UNAVAILABLE,
            "Cannot reach the storage backend — please try again shortly"@,
        ),
        RedisErrorKind::ResponseError => {
            if text_contains(detail, "OOM"@) || text_contains(detail, "maxmemory"@) || code == Some(
                "OOM"@,
            ) {
                (
                    STATUS_SERVICE_UNAVAILABLE,
                    "Server storage is at capacity — please try again later"@,
                )
            } else {
                (STATUS_INTERNAL_SERVER_ERROR, "Storage error — please try again"@)
            }
        },
        RedisErrorKind::Other => (STATUS_INTERNAL_SERVER_ERROR, "Storage error — please try again"@),
    }
}

/// Status and message for a failed storage pool, from the lowercased text
/// of its error.
pub open spec fn pool_error_class(lowered: Seq<char>) -> (u16, Seq<char>) {
    if text_contains(lowered, "timeout"@) {
        (
            STATUS_SERVICE_UNAVAILABLE,
            "Storage connection pool timed out — please try again shortly"@,
        )
    } else if text_contains(lowered, "oom"@) || text_contains(lowered, "maxmemory"@) {
        (STATUS_SERVICE_UNAVAILABLE, "Server storage is at capacity — please try again later"@)
    } else if text_contains(lowered, "io"@) || text_contains(lowered, "connection"@)
        || text_contains(lowered, "refused"@) {
        (
            STATUS_SERVICE_UNAVAILABLE,
            "Cannot reach the storage backend — please try again shortly"@,
        )
    } else {
        (STATUS_SERVICE_UNAVAILABLE, "Service temporarily unavailable — please try again"@)
    }
}

/// The lowercase form of a text, as `str::to_lowercase` maps it (the
/// Unicode lowercase mapping).
pub uninterp spec fn lowercase_text(s: Seq<char>) -> Seq<char>;

/// Lowercases a text with `str::to_lowercase`. Claimed: the result is the
/// text's lowercase form, a function of the text alone.
#[verifier::external_body]
fn to_lowercase(s: &str) -> (r: String)
    ensures
        r@ == lowercase_text(s@),
{
    s.to_lowercase()
}

/// Status and message for a failed storage command.
pub fn classify_redis_error(e: &RedisFault) -> (r: (u16, &'static str))
    ensures
        (r.0, r.1@) == redis_error_class(
            e.kind,
            e.detail@,
            match e.code {
                Some(c) => Some(c@),
                None => None,
            },
        ),
{
    match e.kind {
        RedisErrorKind::IoError => (
            STATUS_SERVICE_UNAVAILABLE,
            "Cannot reach the storage backend — please try again shortly",
        ),
        RedisErrorKind::ResponseError => {
            let detail = e.detail.as_str();
            let code_is_oom = match &e.code {
                Some(c) => *c == String::from_str("OOM"),
                None => false,
            };
            let ghost code_view = match &e.code {
                Some(c) => Some(c@),
                None => None,
            };
            assert(code_is_oom == (code_view == Some("OOM"@)));
            if contains_text(detail, "OOM") || contains_text(detail, "maxmemory") || code_is_oom {
                (
                    STATUS_SERVICE_UNAVAILABLE,
                    "Server storage is at capacity — please try again later",
                )
            } else {
                (STATUS_INTERNAL_SERVER_ERROR, "Storage error — please try again")
            }
        },
        RedisErrorKind::Other => (STATUS_INTERNAL_SERVER_ERROR, "Storage error — please try again"),
    }
}

/// Status and message for a failed storage pool, from the already
/// lowercased text of its error.
pub fn classify_pool_message(lowered: &str) -> (r: (u16, &'static str))
    ensures
        (r.0, r.1@) == pool_error_class(lowered@),
{
    if contains_text(lowered, "timeout") {
        (STATUS_SERVICE_UNAVAILABLE, "Storage connection pool timed out — please try again shortly")
    } else if contains_text(lowered, "oom") || contains_text(lowered, "maxmemory") {
        (STATUS_SERVICE_UNAVAILABLE, "Server storage is at capacity — please try again later")
    } else if contains_text(lowered, "io") || contains_text(lowered, "connection") || contains_text(
        lowered,
        "refused",
    ) {
        (STATUS_SERVICE_UNAVAILABLE, "Cannot reach the storage backend — please try again shortly")
    } else {
        (STATUS_SERVICE_UNAVAILABLE, "Service temporarily unavailable — please try again")
    }
}

/// Status and message for a failed storage pool, from the text of its
/// error (matched without regard to case).
pub fn classify_pool_error(e: &str) -> (r: (u16, &'static str))
    ensures
        (r.0, r.1@) == pool_error_class(lowercase_text(e@)),
{
    let lowered = to_lowercase(e);
    classify_pool_message(lowered.as_str())
}

pub open spec fn fault_code(f: RedisFault) -> Option<Seq<char>> {
    match f.code {
        Some(c) => Some(c@),
        None => None,
    }
}

/// The text an error shows.
pub open spec fn app_error_text(e: AppError) -> Seq<char> {
    match e {
        AppError::GameNotFound => "Game not found"@,
        AppError::GameAlreadyStarted => "Game already started"@,
        AppError::NotEnoughPlayers => "Not enough players"@,
        AppError::GameFull => "Game is full"@,
        AppError::InvalidInput(m) => "Invalid input: "@ + m@,
        AppError::Unauthorized => "Unauthorized"@,
        AppError::Internal => "Internal error"@,
        AppError::Redis(_) => "Storage error"@,
        AppError::RedisCmd(_) => "Storage error"@,
        AppError::Json(_) => "Serialization error"@,
    }
}

/// The status and body an error is answered with over HTTP.
pub open spec fn app_error_response(e: AppError) -> (u16, Seq<char>) {
    match e {
        AppError::GameNotFound => (STATUS_NOT_FOUND, app_error_text(e)),
        AppError::Unauthorized => (STATUS_UNAUTHORIZED, app_error_text(e)),
        AppError::GameAlreadyStarted => (STATUS_BAD_REQUEST, app_error_text(e)),
        AppError::GameFull => (STATUS_BAD_REQUEST, app_error_text(e)),
        AppError::InvalidInput(_) => (STATUS_BAD_REQUEST, app_error_text(e)),
        AppError::NotEnoughPlayers => (STATUS_BAD_REQUEST, app_error_text(e)),
        AppError::Internal => (STATUS_INTERNAL_SERVER_ERROR, "Internal server error"@),
        AppError::Redis(t) => pool_error_class(lowercase_text(t@)),
        AppError::RedisCmd(f) => redis_error_class(f.kind, f.detail@, fault_code(f)),
        AppError::Json(_) => (STATUS_INTERNAL_SERVER_ERROR, "Internal server error"@),
    }
}

/// The message a player is sent when storing their move failed.
pub open spec fn storage_error_text(e: AppError) -> Seq<char> {
    match e {
        AppError::Redis(t) => pool_error_class(lowercase_text(t@)).1,
        AppError::RedisCmd(f) => redis_error_class(f.kind, f.detail@, fault_code(f)).1,
        _ => "Service temporarily unavailable — please try again"@,
    }
}

impl AppError {
    /// The text of this error.
    pub fn message(&self) -> (r: String)
        ensures
            r@ == app_error_text(*self),
    {
        match self {
            AppError::GameNotFound => String::from_str("Game not found"),
            AppError::GameAlreadyStarted => String::from_str("Game already started"),
            AppError::NotEnoughPlayers => String::from_str("Not enough players"),
            AppError::GameFull => String::from_str("Game is full"),
            AppError::InvalidInput(m) => String::from_str("Invalid input: ").concat(m.as_str()),
            AppError::Unauthorized => String::from_str("Unauthorized"),
            AppError::Internal => String::from_str("Internal error"),
            AppError::Redis(_) => String::from_str("Storage error"),
            AppError::RedisCmd(_) => String::from_str("Storage error"),
            AppError::Json(_) => String::from_str("Serialization error"),
        }
    }

    /// The status and body this error is answered with over HTTP.
    pub fn response(&self) -> (r: (u16, String))
        ensures
            (r.0, r.1@) == app_error_response(*self),
    {
        match self {
            AppError::GameNotFound => (STATUS_NOT_FOUND, self.message()),
            AppError::Unauthorized => (STATUS_UNAUTHORIZED, self.message()),
            AppError::GameAlreadyStarted | AppError::GameFull | AppError::InvalidInput(_)
            | AppError::NotEnoughPlayers => (STATUS_BAD_REQUEST, self.message()),
            AppError::Internal => (
                STATUS_INTERNAL_SERVER_ERROR,
                String::from_str("Internal server error"),
            ),
            AppError::Redis(t) => {
                let (status, msg) = classify_pool_error(t.as_str());
                (status, String::from_str(msg))
            },
            AppError::RedisCmd(f) => {
                let (status, msg) = classify_redis_error(f);
                (status, String::from_str(msg))
            },
            AppError::Json(_) => (
                STATUS_INTERNAL_SERVER_ERROR,
                String::from_str("Internal server error"),
            ),
        }
    }
}

/// The message a player is sent when storing their move failed.
pub fn storage_error_reply_text(e: &AppError) -> (r: String)
    ensures
        r@ == storage_error_text(*e),
{
    match e {
        AppError::Redis(t) => String::from_str(classify_pool_error(t.as_str()).1),
        AppError::RedisCmd(f) => String::from_str(classify_redis_error(f).1),
        _ => String::from_str("Service temporarily unavailable — please try again"),
    }
}

} // verus!
