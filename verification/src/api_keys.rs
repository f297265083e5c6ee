use vstd::prelude::*;

verus! {

/// The keys and addresses of the services that the dashboard reads from.
#[derive(Clone, Debug)]
pub struct ApiKeys {
    pub spinitron: String,
    pub twilio_account_sid: String,
    pub twilio_auth_token: String,
    pub tomorrow_io: String,
    /// Not an API key, but kept with them.
    pub streaming_server_now_playing_url: String,
}

} // verus!
