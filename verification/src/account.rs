//! The account data the launch pipeline consumes.
//!
//! The identity subsystem itself lives outside this crate; the pipeline only
//! reads a `(username, uuid, access_token)` triple and the account's kind.

use vstd::prelude::*;

verus! {

/// The secrets a completed device-code exchange hands over.
#[derive(Debug, Clone)]
pub struct MicrosoftSecrets {
    pub access_token: String,
    pub refresh_token: String,
    pub expires_at: u64,
}

/// How an account authenticates: a local offline identity, or a Microsoft
/// identity whose session tokens live elsewhere.
#[derive(Debug, Clone)]
pub enum AccountKind {
    Offline { username: String, uuid: String },
    Microsoft { uuid: String, username: String },
}

/// The game profile a session resolves to.
#[derive(Debug, Clone)]
pub struct MinecraftProfile {
    pub id: String,
    pub name: String,
    pub skin_url: Option<String>,
}

/// One playable session: its token, its lifetime, and the profile it is for.
#[derive(Debug, Clone)]
pub struct MinecraftSession {
    pub access_token: String,
    pub expires_at: u64,
    pub refresh_token: String,
    pub profile: MinecraftProfile,
}

/// The tokens a Microsoft login round yields.
#[derive(Debug, Clone)]
pub struct MicrosoftTokens {
    pub access_token: String,
    pub refresh_token: String,
    pub expires_at: u64,
}

} // verus!
