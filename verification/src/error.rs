//! The service's error type and the public body that reports it.

use vstd::prelude::*;

verus! {

/// Every failure the service reports.  Variants that carry a `String` keep a
/// detail for logs; that detail never reaches a client (see
/// `lemma_detail_never_reported`), except for `BadRequest`, whose text is the
/// client-facing message itself.
#[derive(Debug, Clone)]
pub enum AppError {
    InvalidIp,
    NotFound,
    DatabaseUnavailable,
    MissingCredentials,
    DownloadFailed(String),
    DatabaseUpdateFailed(String),
    BadRequest(String),
    Unauthorized,
    Internal(String),
}

/// The `{"error": {...}}` body of an error response.
#[derive(Debug, Clone)]
pub struct ErrorEnvelope {
    pub error: ErrorBody,
}

/// A stable error code and a public message.
#[derive(Debug, Clone)]
pub struct ErrorBody {
    pub code: &'static str,
    pub message: String,
}

impl AppError {
    /// The HTTP status number that reports this error.
    pub open spec fn spec_status(self) -> u16 {
        match self {
            AppError::InvalidIp | AppError::MissingCredentials | AppError::BadRequest(_) => 400,
            AppError::Unauthorized => 401,
            AppError::NotFound => 404,
            AppError::DatabaseUnavailable => 503,
            AppError::DownloadFailed(_) => 502,
            AppError::DatabaseUpdateFailed(_) | AppError::Internal(_) => 500,
        }
    }

    /// The stable machine-readable code of this error.
    pub open spec fn spec_code(self) -> Seq<char> {
        match self {
            AppError::InvalidIp => "invalid_ip"@,
            AppError::NotFound => "not_found"@,
            AppError::DatabaseUnavailable => "database_unavailable"@,
            AppError::MissingCredentials => "missing_credentials"@,
            AppError::DownloadFailed(_) => "download_failed"@,
            AppError::DatabaseUpdateFailed(_) => "database_update_failed"@,
            AppError::BadRequest(_) => "bad_request"@,
            AppError::Unauthorized => "unauthorized"@,
            AppError::Internal(_) => "internal_error"@,
        }
    }

    /// The message shown to clients.
    pub open spec fn spec_message(self) -> Seq<char> {
        match self {
            AppError::InvalidIp => "invalid IP address"@,
            AppError::NotFound => "IP address was not found in the GeoIP database"@,
            AppError::DatabaseUnavailable => "GeoIP database is not loaded"@,
            AppError::MissingCredentials => "MaxMind credentials are required"@,
            AppError::DownloadFailed(_) => "Failed to download GeoIP database"@,
            AppError::DatabaseUpdateFailed(_) => "Failed to update GeoIP database"@,
            AppError::BadRequest(message) => message@,
            AppError::Unauthorized => "Unauthorized"@,
            AppError::Internal(_) => "Internal server error"@,
        }
    }

    /// The error reported for text that is not an IP address.
    pub fn invalid_ip() -> (error: Self)
        ensures
            error == AppError::InvalidIp,
    {
        AppError::InvalidIp
    }

    /// The HTTP status number of this error.
    pub fn status_code(&self) -> (status: u16)
        ensures
            status == self.spec_status(),
    {
        match self {
            AppError::InvalidIp | AppError::MissingCredentials | AppError::BadRequest(_) => 400,
            AppError::Unauthorized => 401,
            AppError::NotFound => 404,
            AppError::DatabaseUnavailable => 503,
            AppError::DownloadFailed(_) => 502,
            AppError::DatabaseUpdateFailed(_) | AppError::Internal(_) => 500,
        }
    }

    /// The stable code of this error.
    pub fn code(&self) -> (code: &'static str)
        ensures
            code@ == self.spec_code(),
    {
        match self {
            AppError::InvalidIp => "invalid_ip",
            AppError::NotFound => "not_found",
            AppError::DatabaseUnavailable => "database_unavailable",
            AppError::MissingCredentials => "missing_credentials",
            AppError::DownloadFailed(_) => "download_failed",
            AppError::DatabaseUpdateFailed(_) => "database_update_failed",
            AppError::BadRequest(_) => "bad_request",
            AppError::Unauthorized => "unauthorized",
            AppError::Internal(_) => "internal_error",
        }
    }

    /// The public message of this error.
    pub fn message(&self) -> (message: String)
        ensures
            message@ == self.spec_message(),
    {
        match self {
            AppError::InvalidIp => String::from_str("invalid IP address"),
            AppError::NotFound => String::from_str("IP address was not found in the GeoIP database"),
            AppError::DatabaseUnavailable => String::from_str("GeoIP database is not loaded"),
            AppError::MissingCredentials => String::from_str("MaxMind credentials are required"),
            AppError::DownloadFailed(_) => String::from_str("Failed to download GeoIP database"),
            AppError::DatabaseUpdateFailed(_) => String::from_str(
                "Failed to update GeoIP database",
            ),
            AppError::BadRequest(message) => message.clone(),
            AppError::Unauthorized => String::from_str("Unauthorized"),
            AppError::Internal(_) => String::from_str("Internal server error"),
        }
    }

    /// The public body of this error: its code and its message.
    pub fn body(&self) -> (body: ErrorBody)
        ensures
            body.code@ == self.spec_code(),
            body.message@ == self.spec_message(),
    {
        ErrorBody { code: self.code(), message: self.message() }
    }

    /// The envelope that an error response carries.
    pub fn envelope(&self) -> (envelope: ErrorEnvelope)
        ensures
            envelope.error.code@ == self.spec_code(),
            envelope.error.message@ == self.spec_message(),
    {
        ErrorEnvelope { error: self.body() }
    }
}

/// The detail carried by a download, update or internal failure never reaches
/// the client: two such errors that differ only in their detail have the same
/// status, code and message.
pub proof fn lemma_detail_never_reported(a: String, b: String)
    ensures
        AppError::DownloadFailed(a).spec_message() == AppError::DownloadFailed(b).spec_message(),
        AppError::DownloadFailed(a).spec_code() == AppError::DownloadFailed(b).spec_code(),
        AppError::DownloadFailed(a).spec_status() == AppError::DownloadFailed(b).spec_status(),
        AppError::DatabaseUpdateFailed(a).spec_message() == AppError::DatabaseUpdateFailed(
            b,
        ).spec_message(),
        AppError::DatabaseUpdateFailed(a).spec_code() == AppError::DatabaseUpdateFailed(
            b,
        ).spec_code(),
        AppError::DatabaseUpdateFailed(a).spec_status() == AppError::DatabaseUpdateFailed(
            b,
        ).spec_status(),
        AppError::Internal(a).spec_message() == AppError::Internal(b).spec_message(),
        AppError::Internal(a).spec_code() == AppError::Internal(b).spec_code(),
        AppError::Internal(a).spec_status() == AppError::Internal(b).spec_status(),
{
}

/// The code of an error decides its status: two errors with the same code are
/// reported with the same HTTP status.
pub proof fn lemma_code_decides_status(e1: AppError, e2: AppError)
    requires
        e1.spec_code() == e2.spec_code(),
    ensures
        e1.spec_status() == e2.spec_status(),
{
    reveal_strlit("invalid_ip");
    reveal_strlit("not_found");
    reveal_strlit("database_unavailable");
    reveal_strlit("missing_credentials");
    reveal_strlit("download_failed");
    reveal_strlit("database_update_failed");
    reveal_strlit("bad_request");
    reveal_strlit("unauthorized");
    reveal_strlit("internal_error");
    assert("invalid_ip"@.len() == 10);
    assert("not_found"@.len() == 9);
    assert("database_unavailable"@.len() == 20);
    assert("missing_credentials"@.len() == 19);
    assert("download_failed"@.len() == 15);
    assert("database_update_failed"@.len() == 22);
    assert("bad_request"@.len() == 11);
    assert("unauthorized"@.len() == 12);
    assert("internal_error"@.len() == 14);
    assert(e1.spec_code().len() == e2.spec_code().len());
}

/// Every status that the service reports for an error is a client error
/// (4xx) or a server error (5xx).
pub proof fn lemma_status_is_error_class(e: AppError)
    ensures
        400 <= e.spec_status() < 600,
{
}

} // verus!
