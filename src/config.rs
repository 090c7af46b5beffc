//! Server configuration consumed by the protocol engine.

use vstd::prelude::*;

verus! {

/// Settings that shape responses and session descriptions.
#[derive(Debug)]
pub struct ServerConfig {
    /// Host advertised in SDP `o=` and `c=` lines; when absent the host is
    /// taken from the request URI, else the client's address.
    pub public_host: Option<String>,
    /// Public RTSP port, reserved for URL-rewriting headers.
    pub public_port: Option<u16>,
    /// SDP origin user name.
    pub sdp_username: String,
    /// SDP origin session ID.
    pub sdp_session_id: String,
    /// SDP origin session version.
    pub sdp_session_version: String,
    /// SDP session name.
    pub sdp_session_name: String,
}

impl ServerConfig {
    /// A copy of this configuration.
    pub fn duplicate(&self) -> (r: Self)
        ensures
            r == *self,
    {
        ServerConfig {
            public_host: match &self.public_host {
                Some(h) => Some(h.clone()),
                None => None,
            },
            public_port: self.public_port,
            sdp_username: self.sdp_username.clone(),
            sdp_session_id: self.sdp_session_id.clone(),
            sdp_session_version: self.sdp_session_version.clone(),
            sdp_session_name: self.sdp_session_name.clone(),
        }
    }
}

impl Default for ServerConfig {
    /// No public host or port; origin `- 0 0`; session name `Stream`.
    fn default() -> (r: Self)
        ensures
            r.public_host is None,
            r.public_port is None,
            r.sdp_username@ == "-"@,
            r.sdp_session_id@ == "0"@,
            r.sdp_session_version@ == "0"@,
            r.sdp_session_name@ == "Stream"@,
    {
        ServerConfig {
            public_host: None,
            public_port: None,
            sdp_username: String::from_str("-"),
            sdp_session_id: String::from_str("0"),
            sdp_session_version: String::from_str("0"),
            sdp_session_name: String::from_str("Stream"),
        }
    }
}

} // verus!
