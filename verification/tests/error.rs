use axum::http::StatusCode;
use geoip::error::AppError;

#[test]
fn variants_map_to_expected_status_code_and_public_error_body() {
    let cases = [
        (
            AppError::InvalidIp,
            StatusCode::BAD_REQUEST,
            "invalid_ip",
            "invalid IP address",
        ),
        (
            AppError::NotFound,
            StatusCode::NOT_FOUND,
            "not_found",
            "IP address was not found in the GeoIP database",
        ),
        (
            AppError::DatabaseUnavailable,
            StatusCode::SERVICE_UNAVAILABLE,
            "database_unavailable",
            "GeoIP database is not loaded",
        ),
        (
            AppError::MissingCredentials,
            StatusCode::BAD_REQUEST,
            "missing_credentials",
            "MaxMind credentials are required",
        ),
        (
            AppError::DownloadFailed("https://example.com/private.mmdb".to_string()),
            StatusCode::BAD_GATEWAY,
            "download_failed",
            "Failed to download GeoIP database",
        ),
        (
            AppError::DatabaseUpdateFailed("/tmp/private/GeoLite2.mmdb".to_string()),
            StatusCode::INTERNAL_SERVER_ERROR,
            "database_update_failed",
            "Failed to update GeoIP database",
        ),
        (
            AppError::BadRequest("country must be a two-letter code".to_string()),
            StatusCode::BAD_REQUEST,
            "bad_request",
            "country must be a two-letter code",
        ),
        (
            AppError::Unauthorized,
            StatusCode::UNAUTHORIZED,
            "unauthorized",
            "Unauthorized",
        ),
        (
            AppError::Internal("parser failed at byte 42".to_string()),
            StatusCode::INTERNAL_SERVER_ERROR,
            "internal_error",
            "Internal server error",
        ),
    ];

    for (error, expected_status, expected_code, expected_message) in cases {
        assert_eq!(error.status_code(), expected_status.as_u16());
        assert_eq!(error.code(), expected_code);
        assert_eq!(error.message(), expected_message);
    }
}

#[test]
fn raw_internal_message_is_not_serialized_in_response_body() {
    let error = AppError::Internal("secret".to_string());
    assert_eq!(
        error.status_code(),
        StatusCode::INTERNAL_SERVER_ERROR.as_u16()
    );

    let envelope = error.envelope();
    assert_eq!(envelope.error.code, "internal_error");
    assert_eq!(envelope.error.message, "Internal server error");
    assert!(!envelope.error.message.contains("secret"));
}

#[test]
fn invalid_ip_constructor_builds_the_invalid_ip_error() {
    let error = AppError::invalid_ip();
    assert!(matches!(error, AppError::InvalidIp));
    assert_eq!(error.status_code(), 400);
}

#[test]
fn bad_request_reports_its_own_message() {
    let body = AppError::BadRequest("ips must not be empty".to_string()).body();
    assert_eq!(body.code, "bad_request");
    assert_eq!(body.message, "ips must not be empty");
}

#[test]
fn details_of_failures_never_reach_the_body() {
    for detail in ["xyzzy", "token=SECRET-REDACTED", "/var/lib/geoip"] {
        for error in [
            AppError::DownloadFailed(detail.to_string()),
            AppError::DatabaseUpdateFailed(detail.to_string()),
            AppError::Internal(detail.to_string()),
        ] {
            let body = error.body();
            assert!(!body.message.contains(detail));
            assert!(!body.code.contains(detail));
        }
    }
}
