use vstd::prelude::*;

verus! {

/// Everything the authentication and messaging rules can fail with.
#[derive(Clone, Debug)]
pub enum AuthError {
    /// The password digest could not be computed or parsed.
    PasswordHash(String),
    /// Unknown user or wrong password.
    InvalidCredentials,
    /// A user with that name or address already exists.
    UserExists,
    /// The user record is gone.
    UserNotFound,
    /// The session token is unknown or expired.
    InvalidSession,
    /// A validation failure, with a human-readable reason.
    InvalidInput(String),
}

pub type Result<T> = core::result::Result<T, AuthError>;

impl AuthError {
    /// A short label for the error, for rendering on the wire.
    pub fn label(&self) -> (r: String)
        ensures
            r@ == self.spec_label(),
    {
        match self {
            AuthError::PasswordHash(_) => String::from_str("Password hashing error"),
            AuthError::InvalidCredentials => String::from_str("Invalid credentials"),
            AuthError::UserExists => String::from_str("User already exists"),
            AuthError::UserNotFound => String::from_str("User not found"),
            AuthError::InvalidSession => String::from_str("Session not found or expired"),
            AuthError::InvalidInput(_) => String::from_str("Invalid input"),
        }
    }

    pub open spec fn spec_label(&self) -> Seq<char> {
        match self {
            AuthError::PasswordHash(_) => "Password hashing error"@,
            AuthError::InvalidCredentials => "Invalid credentials"@,
            AuthError::UserExists => "User already exists"@,
            AuthError::UserNotFound => "User not found"@,
            AuthError::InvalidSession => "Session not found or expired"@,
            AuthError::InvalidInput(_) => "Invalid input"@,
        }
    }
}

} // verus!
