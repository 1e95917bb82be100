//! The data shapes of the login chain. The chain itself is an
//! external collaborator: these records only carry its answers, and
//! the one decision made over them — picking the user hash out of the
//! claims — is here.
use vstd::prelude::*;
use crate::listmap::{str_assoc_idx, str_assoc_has, str_assoc_val, str_assoc_get};

verus! {

/// The device-code answer that starts a login.
#[derive(Debug)]
pub struct AuthCodeResponse {
    pub user_code: String,
    pub device_code: String,
    pub verification_uri: String,
    pub expires_in: i64,
    pub interval: u64,
    pub message: String,
}

/// The token answer after the user confirmed the code.
#[derive(Debug)]
pub struct AuthTokenResponse {
    pub token_type: String,
    pub scope: String,
    pub expires_in: i64,
    pub ext_expires_in: i64,
    pub access_token: String,
    pub refresh_token: String,
}

/// A console-network authentication answer; the claims map logical
/// claim names to lists of key-value records.
#[derive(Debug)]
pub struct XboxLiveAuthResponse {
    pub issue_instant: String,
    pub not_after: String,
    pub token: String,
    pub display_claims: Vec<(String, Vec<Vec<(String, String)>>)>,
}

/// The game-service authentication answer.
#[derive(Debug)]
pub struct MinecraftAuthResponse {
    pub username: String,
    pub roles: Vec<String>,
    pub access_token: String,
    pub expires_in: u32,
    pub token_type: String,
}

impl XboxLiveAuthResponse {
    /// The user hash: the `uhs` value of the first `xui` claim record.
    /// `None` when the claims do not carry one.
    pub fn user_hash(&self) -> (r: Option<&String>)
        ensures
            r is Some <==> (str_assoc_has(self.display_claims@, "xui"@) && str_assoc_val(
                self.display_claims@,
                "xui"@,
            )@.len() > 0 && str_assoc_has(str_assoc_val(self.display_claims@, "xui"@)@[0]@, "uhs"@)),
            r is Some ==> r->0 == &str_assoc_val(
                str_assoc_val(self.display_claims@, "xui"@)@[0]@,
                "uhs"@,
            ),
    {
        let xui = match str_assoc_get(&self.display_claims, "xui") {
            Some(x) => x,
            None => {
                return None;
            },
        };
        if xui.len() == 0 {
            return None;
        }
        str_assoc_get(&xui[0], "uhs")
    }
}

/// The profile the launch composer reads its template inputs from.
#[derive(Debug)]
pub struct PlayerProfile {
    pub access_token: String,
    pub username: String,
    pub uuid: String,
}

impl PlayerProfile {
    /// Wraps the profile facts handed back by the profile endpoint.
    pub fn new(access_token: String, username: String, uuid: String) -> (r: PlayerProfile)
        ensures
            r.access_token == access_token,
            r.username == username,
            r.uuid == uuid,
    {
        PlayerProfile { access_token, username, uuid }
    }
}

} // verus!
