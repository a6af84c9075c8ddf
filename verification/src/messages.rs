//! The plain request and response shapes exchanged with the surrounding
//! service code: the sync triggers and the account records of the remote
//! fitness service. They carry no behaviour of their own; the service
//! layer converts them to and from its wire formats.

use vstd::prelude::*;

verus! {

/// The body of an OAuth token exchange request.
pub struct OAuthTokenRequest {
    pub grant_type: String,
    pub code: String,
    pub redirect_uri: String,
    pub client_id: String,
    pub client_secret: String,
}

/// The body of an OAuth token exchange response.
pub struct OAuthTokenResponse {
    pub access_token: String,
    pub token_type: String,
    pub expires_in: Option<i32>,
    pub refresh_token: Option<String>,
}

/// The remote service's account profile.
pub struct IntervalsUserProfile {
    pub id: String,
    pub name: String,
    pub username: Option<String>,
    pub email: Option<String>,
    pub avatar: Option<String>,
}

/// A sync invocation keyed by user.
pub struct SyncRequest {
    pub user_id: String,
}

/// A sync invocation keyed by the remote athlete identifier.
pub struct LambdaRequest {
    pub athlete_id: String,
}

/// What a finished sync invocation reports back.
pub struct LambdaResponse {
    pub message: String,
    pub s3_bucket: String,
    pub files_processed: u32,
}

} // verus!
