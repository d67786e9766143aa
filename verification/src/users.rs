use vstd::prelude::*;
use crate::text::str_eq;

verus! {

/// A user's live availability state.
#[derive(Clone, Copy, Debug, PartialEq, Eq, Structural)]
pub enum Presence {
    Offline,
    Online,
    Away,
    DoNotDisturb,
    AppearOffline,
}

/// A persisted user record. Timestamps are seconds since the Unix epoch.
#[derive(Clone, Debug)]
pub struct User {
    pub id: u64,
    pub username: String,
    pub email: String,
    pub password_hash: String,
    pub created_at: i64,
    pub last_login: Option<i64>,
    pub presence: Presence,
    pub status: Option<String>,
}

/// A persisted session: one live session per token.
#[derive(Clone, Debug)]
pub struct Session {
    pub id: u64,
    pub user_id: u64,
    pub token: String,
    pub created_at: i64,
    pub expires_at: i64,
}

#[derive(Clone, Debug)]
pub struct CreateUserRequest {
    pub username: String,
    pub email: String,
    pub password: String,
}

#[derive(Clone, Debug)]
pub struct LoginRequest {
    pub username: String,
    pub password: String,
}

#[derive(Clone, Debug)]
pub struct AuthResponse {
    pub user: User,
    pub token: String,
}

impl User {
    /// A field-for-field copy whose equality to the source is known to the verifier.
    pub fn duplicate(&self) -> (r: User)
        ensures
            r == *self,
    {
        User {
            id: self.id,
            username: self.username.clone(),
            email: self.email.clone(),
            password_hash: self.password_hash.clone(),
            created_at: self.created_at,
            last_login: self.last_login,
            presence: self.presence,
            status: match &self.status {
                Some(s) => Some(s.clone()),
                None => None,
            },
        }
    }
}

impl Session {
    /// A field-for-field copy whose equality to the source is known to the verifier.
    pub fn duplicate(&self) -> (r: Session)
        ensures
            r == *self,
    {
        Session {
            id: self.id,
            user_id: self.user_id,
            token: self.token.clone(),
            created_at: self.created_at,
            expires_at: self.expires_at,
        }
    }
}

/// The presence named by a stored label; unknown labels fall back to Offline.
pub open spec fn presence_of_label(s: Seq<char>) -> Presence {
    if s == "Online"@ {
        Presence::Online
    } else if s == "Offline"@ {
        Presence::Offline
    } else if s == "Away"@ {
        Presence::Away
    } else if s == "DND"@ {
        Presence::DoNotDisturb
    } else if s == "AppearOffline"@ {
        Presence::AppearOffline
    } else {
        Presence::Offline
    }
}

/// Parses a stored presence label; unknown labels fall back to Offline.
pub fn parse_presence(s: &str) -> (p: Presence)
    ensures
        p == presence_of_label(s@),
{
    if str_eq(s, "Online") {
        Presence::Online
    } else if str_eq(s, "Offline") {
        Presence::Offline
    } else if str_eq(s, "Away") {
        Presence::Away
    } else if str_eq(s, "DND") {
        Presence::DoNotDisturb
    } else if str_eq(s, "AppearOffline") {
        Presence::AppearOffline
    } else {
        Presence::Offline
    }
}

/// The label under which a presence is stored; the inverse of parse_presence
/// on known labels.
pub open spec fn label_of_presence(p: Presence) -> Seq<char> {
    match p {
        Presence::Online => "Online"@,
        Presence::Offline => "Offline"@,
        Presence::Away => "Away"@,
        Presence::DoNotDisturb => "DND"@,
        Presence::AppearOffline => "AppearOffline"@,
    }
}

/// Renders a presence as its stored label.
pub fn presence_label(p: Presence) -> (r: String)
    ensures
        r@ == label_of_presence(p),
{
    match p {
        Presence::Online => String::from_str("Online"),
        Presence::Offline => String::from_str("Offline"),
        Presence::Away => String::from_str("Away"),
        Presence::DoNotDisturb => String::from_str("DND"),
        Presence::AppearOffline => String::from_str("AppearOffline"),
    }
}

} // verus!
