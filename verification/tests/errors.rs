use fortyone::error::{
    classify_pool_error, classify_pool_message, classify_redis_error, storage_error_reply_text,
    AppError, RedisErrorKind, RedisFault,
};

fn fault(kind: RedisErrorKind, detail: &str, code: Option<&str>) -> RedisFault {
    RedisFault { kind, detail: detail.to_string(), code: code.map(|c| c.to_string()) }
}

#[test]
fn redis_errors_are_classified() {
    assert_eq!(
        classify_redis_error(&fault(RedisErrorKind::IoError, "broken pipe", None)),
        (503, "Cannot reach the storage backend — please try again shortly")
    );
    assert_eq!(
        classify_redis_error(&fault(RedisErrorKind::ResponseError, "OOM command not allowed", None)),
        (503, "Server storage is at capacity — please try again later")
    );
    assert_eq!(
        classify_redis_error(&fault(RedisErrorKind::ResponseError, "used memory > maxmemory", None)),
        (503, "Server storage is at capacity — please try again later")
    );
    assert_eq!(
        classify_redis_error(&fault(RedisErrorKind::ResponseError, "x", Some("OOM"))),
        (503, "Server storage is at capacity — please try again later")
    );
    assert_eq!(
        classify_redis_error(&fault(RedisErrorKind::ResponseError, "WRONGTYPE", Some("WRONGTYPE"))),
        (500, "Storage error — please try again")
    );
    assert_eq!(
        classify_redis_error(&fault(RedisErrorKind::Other, "OOM", None)),
        (500, "Storage error — please try again")
    );
}

#[test]
fn pool_errors_are_classified_without_regard_to_case() {
    assert_eq!(
        classify_pool_error("Timeout occurred while waiting for a slot"),
        (503, "Storage connection pool timed out — please try again shortly")
    );
    assert_eq!(
        classify_pool_error("TIMEOUT"),
        (503, "Storage connection pool timed out — please try again shortly")
    );
    assert_eq!(
        classify_pool_error("OOM"),
        (503, "Server storage is at capacity — please try again later")
    );
    assert_eq!(
        classify_pool_error("Connection REFUSED"),
        (503, "Cannot reach the storage backend — please try again shortly")
    );
    assert_eq!(
        classify_pool_error("closed"),
        (503, "Service temporarily unavailable — please try again")
    );
    assert_eq!(
        classify_pool_message("TIMEOUT"),
        (503, "Service temporarily unavailable — please try again")
    );
}

#[test]
fn errors_answer_with_status_and_text() {
    assert_eq!(AppError::GameNotFound.response(), (404, "Game not found".to_string()));
    assert_eq!(AppError::Unauthorized.response(), (401, "Unauthorized".to_string()));
    assert_eq!(AppError::GameFull.response(), (400, "Game is full".to_string()));
    assert_eq!(AppError::GameAlreadyStarted.response(), (400, "Game already started".to_string()));
    assert_eq!(AppError::NotEnoughPlayers.response(), (400, "Not enough players".to_string()));
    assert_eq!(
        AppError::InvalidInput("bad".to_string()).response(),
        (400, "Invalid input: bad".to_string())
    );
    assert_eq!(AppError::Internal.response(), (500, "Internal server error".to_string()));
    assert_eq!(AppError::Json("eof".to_string()).response(), (500, "Internal server error".to_string()));
    assert_eq!(
        AppError::Redis("pool timed out: Timeout".to_string()).response(),
        (503, "Storage connection pool timed out — please try again shortly".to_string())
    );
    assert_eq!(
        AppError::RedisCmd(fault(RedisErrorKind::Other, "x", None)).response(),
        (500, "Storage error — please try again".to_string())
    );
    assert_eq!(AppError::Internal.message(), "Internal error");
    assert_eq!(AppError::Redis(String::new()).message(), "Storage error");
    assert_eq!(AppError::Json(String::new()).message(), "Serialization error");
}

#[test]
fn storage_error_replies() {
    assert_eq!(
        storage_error_reply_text(&AppError::Redis("Timeout".to_string())),
        "Storage connection pool timed out — please try again shortly"
    );
    assert_eq!(
        storage_error_reply_text(&AppError::RedisCmd(fault(RedisErrorKind::IoError, "", None))),
        "Cannot reach the storage backend — please try again shortly"
    );
    assert_eq!(
        storage_error_reply_text(&AppError::Internal),
        "Service temporarily unavailable — please try again"
    );
}
