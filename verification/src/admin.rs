//! The request and response shapes of the admin surface that fronts the
//! pool. The admin layer itself (HTTP, authentication, JSON) is a
//! collaborator; it converts to and from these plain types.

use vstd::prelude::*;

verus! {

/// Point-in-time view of the whole pool.
pub struct CredentialsStatusResponse {
    pub total: usize,
    pub available: usize,
    pub current_id: u64,
    pub credentials: Vec<CredentialStatusItem>,
}

/// Point-in-time view of one record.
pub struct CredentialStatusItem {
    pub id: u64,
    pub priority: u32,
    pub disabled: bool,
    pub failure_count: u32,
    pub is_current: bool,
    pub expires_at: Option<String>,
    pub auth_method: Option<String>,
    pub has_profile_arn: bool,
}

/// Operator request: enable or disable one record.
pub struct SetDisabledRequest {
    pub disabled: bool,
}

/// Operator request: change one record's priority.
pub struct SetPriorityRequest {
    pub priority: u32,
}

/// Operator request: add one credential.
pub struct AddCredentialRequest {
    pub refresh_token: String,
    pub auth_method: String,
    pub client_id: Option<String>,
    pub client_secret: Option<String>,
    pub priority: u32,
}

/// Response to a successful add.
pub struct AddCredentialResponse {
    pub success: bool,
    pub message: String,
    pub credential_id: u64,
}

/// The auth-method name assumed when a request names none.
pub fn default_auth_method() -> (r: String)
    ensures
        r@ == "social"@,
{
    "social".to_owned()
}

/// Generic success envelope.
pub struct SuccessResponse {
    pub success: bool,
    pub message: String,
}

impl SuccessResponse {
    pub fn new(message: String) -> (r: Self)
        ensures
            r.success,
            r.message == message,
    {
        SuccessResponse { success: true, message }
    }
}

/// Generic error envelope.
pub struct AdminErrorResponse {
    pub error: AdminError,
}

/// An error with a machine-readable type tag and a human-readable message.
pub struct AdminError {
    pub error_type: String,
    pub message: String,
}

impl AdminErrorResponse {
    pub fn new(error_type: String, message: String) -> (r: Self)
        ensures
            r.error.error_type == error_type,
            r.error.message == message,
    {
        AdminErrorResponse { error: AdminError { error_type, message } }
    }

    pub fn invalid_request(message: String) -> (r: Self)
        ensures
            r.error.error_type@ == "invalid_request"@,
            r.error.message == message,
    {
        Self::new("invalid_request".to_owned(), message)
    }

    pub fn authentication_error() -> (r: Self)
        ensures
            r.error.error_type@ == "authentication_error"@,
            r.error.message@ == "Invalid or missing admin API key"@,
    {
        Self::new("authentication_error".to_owned(), "Invalid or missing admin API key".to_owned())
    }

    pub fn not_found(message: String) -> (r: Self)
        ensures
            r.error.error_type@ == "not_found"@,
            r.error.message == message,
    {
        Self::new("not_found".to_owned(), message)
    }

    pub fn api_error(message: String) -> (r: Self)
        ensures
            r.error.error_type@ == "api_error"@,
            r.error.message == message,
    {
        Self::new("api_error".to_owned(), message)
    }

    pub fn internal_error(message: String) -> (r: Self)
        ensures
            r.error.error_type@ == "internal_error"@,
            r.error.message == message,
    {
        Self::new("internal_error".to_owned(), message)
    }
}

} // verus!
