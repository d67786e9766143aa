use vstd::prelude::*;
use vstd::string::StrSliceExecFns;
use crate::SESSION_TTL_SECONDS;
use crate::error::AuthError;
use crate::store::Database;
use crate::store::has_email;
use crate::store::has_token;
use crate::store::has_user_id;
use crate::store::has_username;
use crate::store::session_by_token;
use crate::store::user_by_id;
use crate::store::user_by_name;
use crate::users::AuthResponse;
use crate::users::CreateUserRequest;
use crate::users::LoginRequest;
use crate::users::User;

verus! {

/// Whether a password digest is a well-formed digest string; the name
/// stands for the success of argon2's digest parser on it.
pub uninterp spec fn digest_parses(digest: Seq<char>) -> bool;

/// Whether a password matches a digest; the name stands for the verdict of
/// argon2's password verifier, which depends on the two strings alone.
pub uninterp spec fn digest_matches(digest: Seq<char>, password: Seq<char>) -> bool;

/// Relies on argon2's PasswordHasher::hash_password with a salt drawn from
/// rand's thread_rng: every digest it produces parses back and verifies
/// against the password it was derived from.
#[verifier::external_body]
fn hash_password(password: &str) -> (r: Result<String, AuthError>)
    ensures
        r matches Ok(d) ==> digest_parses(d@) && digest_matches(d@, password@),
        r matches Err(e) ==> e is PasswordHash,
{
    let salt = argon2::password_hash::SaltString::generate(&mut rand::thread_rng());
    argon2::PasswordHasher::hash_password(&argon2::Argon2::default(), password.as_bytes(), &salt)
        .map(|hash| hash.to_string())
        .map_err(|e| AuthError::PasswordHash(e.to_string()))
}

/// Relies on argon2's PasswordHash::new and PasswordVerifier::verify_password:
/// parsing fails exactly on digests that are not well-formed, and the
/// verdict is a function of the digest and the password alone.
#[verifier::external_body]
fn verify_password(password: &str, digest: &str) -> (r: Result<bool, AuthError>)
    ensures
        r is Ok <==> digest_parses(digest@),
        r matches Ok(b) ==> b == digest_matches(digest@, password@),
        r matches Err(e) ==> e is PasswordHash,
{
    let parsed = argon2::password_hash::PasswordHash::new(digest).map_err(
        |e| AuthError::PasswordHash(e.to_string()),
    )?;
    Ok(
        argon2::PasswordVerifier::verify_password(
            &argon2::Argon2::default(),
            password.as_bytes(),
            &parsed,
        ).is_ok(),
    )
}

/// Relies on rand's thread_rng and Alphanumeric distribution: sixty-four
/// random ASCII alphanumeric characters. Nothing is assumed about which.
#[verifier::external_body]
fn generate_token() -> (r: String)
    ensures
        r@.len() == 64,
{
    rand::Rng::sample_iter(rand::thread_rng(), &rand::distributions::Alphanumeric).take(
        64,
    ).map(char::from).collect()
}

/// Relies on chrono's Utc::now: the current instant as seconds since the
/// Unix epoch. Nothing is assumed about its value.
#[verifier::external_body]
pub fn current_timestamp() -> (r: i64) {
    chrono::Utc::now().timestamp()
}

/// An acceptable username: three to fifty characters.
pub open spec fn valid_username(s: Seq<char>) -> bool {
    3 <= s.len() <= 50
}

/// An acceptable email: at least five characters, with an "@" somewhere.
pub open spec fn valid_email(s: Seq<char>) -> bool {
    s.len() >= 5 && s.contains('@')
}

/// An acceptable password: at least eight characters.
pub open spec fn valid_password(s: Seq<char>) -> bool {
    s.len() >= 8
}

pub open spec fn valid_credentials(
    username: Seq<char>,
    email: Seq<char>,
    password: Seq<char>,
) -> bool {
    valid_username(username) && valid_email(email) && valid_password(password)
}

fn str_contains_at(s: &str) -> (r: bool)
    ensures
        r == s@.contains('@'),
{
    let len = s.unicode_len();
    let mut i: usize = 0;
    while i < len
        invariant
            len == s@.len(),
            i <= len,
            forall|k: int| 0 <= k < i ==> s@[k] != '@',
        decreases len - i,
    {
        if s.get_char(i) == '@' {
            assert(s@.contains('@'));
            return true;
        }
        i = i + 1;
    }
    assert(forall|k: int| 0 <= k < s@.len() ==> s@[k] != '@');
    false
}

/// Checks registration inputs: username length, email shape, password
/// length. Fails with InvalidInput naming the first broken rule.
pub fn validate_credentials(username: &str, email: &str, password: &str) -> (r: Result<
    (),
    AuthError,
>)
    ensures
        r is Ok <==> valid_credentials(username@, email@, password@),
        r matches Err(e) ==> e is InvalidInput,
{
    let ulen = username.unicode_len();
    if ulen < 3 {
        return Err(
            AuthError::InvalidInput(
                String::from_str("Username must be at least 3 characters long"),
            ),
        );
    }
    if ulen > 50 {
        return Err(
            AuthError::InvalidInput(
                String::from_str("Username must be less than 50 characters long"),
            ),
        );
    }
    if !str_contains_at(email) || email.unicode_len() < 5 {
        return Err(AuthError::InvalidInput(String::from_str("Invalid email format")));
    }
    if password.unicode_len() < 8 {
        return Err(
            AuthError::InvalidInput(
                String::from_str("Password must be at least 8 characters long"),
            ),
        );
    }
    Ok(())
}

/// Creates the user and a session under the given digest and token. The
/// outside calls are already made: this function is deterministic, and it
/// succeeds exactly when neither the username nor the email is taken.
pub fn register_with(
    db: &mut Database,
    username: &str,
    email: &str,
    password_digest: &str,
    token: &str,
    now: i64,
) -> (r: Result<AuthResponse, AuthError>)
    requires
        old(db).wf(),
        old(db).can_alloc(2),
        now <= i64::MAX - SESSION_TTL_SECONDS,
    ensures
        final(db).wf(),
        r is Ok <==> (!has_username(old(db).users@, username@) && !has_email(
            old(db).users@,
            email@,
        )),
        r matches Ok(resp) ==> {
            &&& resp.user.id == old(db).next_id
            &&& resp.user.username@ == username@
            &&& resp.user.email@ == email@
            &&& resp.user.password_hash@ == password_digest@
            &&& resp.user.last_login is None
            &&& resp.token@ == token@
            &&& final(db).users@ == old(db).users@.push(
                User { last_login: Some(now), ..resp.user },
            )
            &&& has_username(final(db).users@, username@)
            &&& user_by_name(final(db).users@, username@) == User {
                last_login: Some(now),
                ..resp.user
            }
            &&& has_token(final(db).sessions@, token@)
            &&& session_by_token(final(db).sessions@, token@).user_id == resp.user.id
            &&& session_by_token(final(db).sessions@, token@).created_at == now
            &&& session_by_token(final(db).sessions@, token@).expires_at == now
                + SESSION_TTL_SECONDS
            &&& final(db).rooms == old(db).rooms
            &&& final(db).messages == old(db).messages
            &&& final(db).members == old(db).members
            &&& final(db).mentions == old(db).mentions
            &&& final(db).next_id == old(db).next_id + 2
        },
        r matches Err(e) ==> e == AuthError::UserExists && *final(db) == *old(db),
{
    let ghost pre = *db;
    let user = match db.create_user(username, email, password_digest, now) {
        Ok(u) => u,
        Err(e) => {
            return Err(e);
        },
    };
    let expires_at = now + SESSION_TTL_SECONDS;
    db.create_session(user.id, token, expires_at, now);
    let ghost mid_users = db.users@;
    db.update_last_login(user.id, now);
    proof {
        assert(mid_users == pre.users@.push(user));
        assert(mid_users[pre.users@.len() as int].id == user.id);
        assert(has_user_id(mid_users, user.id));
        let i = choose|i: int|
            {
                &&& 0 <= i < mid_users.len()
                &&& (#[trigger] mid_users[i]).id == user.id
                &&& db.users@ == mid_users.update(
                    i,
                    User { last_login: Some(now), ..mid_users[i] },
                )
            };
        assert(i == pre.users@.len()) by {
            if i < pre.users@.len() {
                assert(mid_users[i] == pre.users@[i]);
                assert(pre.users@[i].id < pre.next_id);
            }
        }
        assert(db.users@ =~= pre.users@.push(User { last_login: Some(now), ..user }));
        assert(db.users@[pre.users@.len() as int].username@ == username@);
        assert(has_username(db.users@, username@));
        let w = choose|w: int|
            0 <= w < db.users@.len() && (#[trigger] db.users@[w]).username@ == username@;
        if w != pre.users@.len() {
            assert(crate::store::users_wf(db.users@, db.next_id));
        }
        assert(user_by_name(db.users@, username@) == User { last_login: Some(now), ..user });
    }
    Ok(AuthResponse { user, token: token.to_owned() })
}

/// Registers a new user: validates the inputs, refuses taken names,
/// hashes the password, and issues a thirty-day session.
pub fn register_user(db: &mut Database, request: CreateUserRequest, now: i64) -> (r: Result<
    AuthResponse,
    AuthError,
>)
    requires
        old(db).wf(),
        old(db).can_alloc(2),
        now <= i64::MAX - SESSION_TTL_SECONDS,
    ensures
        final(db).wf(),
        r matches Ok(resp) ==> {
            &&& valid_credentials(request.username@, request.email@, request.password@)
            &&& !has_username(old(db).users@, request.username@)
            &&& !has_email(old(db).users@, request.email@)
            &&& resp.user.id == old(db).next_id
            &&& resp.user.username@ == request.username@
            &&& resp.user.email@ == request.email@
            &&& digest_parses(resp.user.password_hash@)
            &&& digest_matches(resp.user.password_hash@, request.password@)
            &&& resp.token@.len() == 64
            &&& final(db).users@ == old(db).users@.push(
                User { last_login: Some(now), ..resp.user },
            )
            &&& has_username(final(db).users@, request.username@)
            &&& user_by_name(final(db).users@, request.username@) == User {
                last_login: Some(now),
                ..resp.user
            }
            &&& digest_parses(user_by_name(final(db).users@, request.username@).password_hash@)
            &&& digest_matches(
                user_by_name(final(db).users@, request.username@).password_hash@,
                request.password@,
            )
            &&& has_token(final(db).sessions@, resp.token@)
            &&& session_by_token(final(db).sessions@, resp.token@).user_id == resp.user.id
            &&& session_by_token(final(db).sessions@, resp.token@).expires_at == now
                + SESSION_TTL_SECONDS
            &&& final(db).rooms == old(db).rooms
            &&& final(db).messages == old(db).messages
            &&& final(db).members == old(db).members
            &&& final(db).mentions == old(db).mentions
            &&& final(db).next_id == old(db).next_id + 2
        },
        r matches Err(e) ==> {
            &&& *final(db) == *old(db)
            &&& (e is InvalidInput || e is UserExists || e is PasswordHash)
            &&& (e is InvalidInput <==> !valid_credentials(
                request.username@,
                request.email@,
                request.password@,
            ))
            &&& (valid_credentials(request.username@, request.email@, request.password@)
                && has_username(old(db).users@, request.username@) ==> e
                == AuthError::UserExists)
            &&& (e is UserExists ==> has_username(old(db).users@, request.username@)
                || has_email(old(db).users@, request.email@))
        },
        !valid_credentials(request.username@, request.email@, request.password@) ==> r is Err,
        valid_credentials(request.username@, request.email@, request.password@) && (
        has_username(old(db).users@, request.username@) || has_email(
            old(db).users@,
            request.email@,
        )) ==> r is Err,
{
    match validate_credentials(
        request.username.as_str(),
        request.email.as_str(),
        request.password.as_str(),
    ) {
        Ok(()) => {},
        Err(e) => {
            return Err(e);
        },
    }
    if db.get_user_by_username(request.username.as_str()).is_some() {
        return Err(AuthError::UserExists);
    }
    let digest = match hash_password(request.password.as_str()) {
        Ok(d) => d,
        Err(e) => {
            return Err(e);
        },
    };
    let token = generate_token();
    register_with(
        db,
        request.username.as_str(),
        request.email.as_str(),
        digest.as_str(),
        token.as_str(),
        now,
    )
}


/// Logs a user in: fails with InvalidCredentials when the user is
/// unknown or the password does not match; otherwise issues a fresh
/// thirty-day session.
pub fn login_user(db: &mut Database, request: LoginRequest, now: i64) -> (r: Result<AuthResponse, AuthError>)
    requires
        old(db).wf(),
        old(db).can_alloc(1),
        now <= i64::MAX - SESSION_TTL_SECONDS,
    ensures
        final(db).wf(),
        r is Ok <==> (has_username(old(db).users@, request.username@) && digest_parses(
            user_by_name(old(db).users@, request.username@).password_hash@,
        ) && digest_matches(
            user_by_name(old(db).users@, request.username@).password_hash@,
            request.password@,
        )),
        r matches Ok(resp) ==> {
            &&& resp.user == user_by_name(old(db).users@, request.username@)
            &&& resp.user.username@ == request.username@
            &&& resp.token@.len() == 64
            &&& has_token(final(db).sessions@, resp.token@)
            &&& session_by_token(final(db).sessions@, resp.token@).user_id == resp.user.id
            &&& session_by_token(final(db).sessions@, resp.token@).expires_at == now
                + SESSION_TTL_SECONDS
            &&& exists|i: int|
                {
                    &&& 0 <= i < old(db).users@.len()
                    &&& (#[trigger] old(db).users@[i]).username@ == request.username@
                    &&& final(db).users@ == old(db).users@.update(
                        i,
                        User { last_login: Some(now), ..old(db).users@[i] },
                    )
                }
            &&& final(db).rooms == old(db).rooms
            &&& final(db).messages == old(db).messages
            &&& final(db).members == old(db).members
            &&& final(db).mentions == old(db).mentions
            &&& final(db).next_id == old(db).next_id + 1
        },
        r matches Err(e) ==> {
            &&& *final(db) == *old(db)
            &&& (e is InvalidCredentials || e is PasswordHash)
            &&& (e is InvalidCredentials <==> (!has_username(
                old(db).users@,
                request.username@,
            ) || (digest_parses(
                user_by_name(old(db).users@, request.username@).password_hash@,
            ) && !digest_matches(
                user_by_name(old(db).users@, request.username@).password_hash@,
                request.password@,
            ))))
            &&& (e is PasswordHash ==> has_username(old(db).users@, request.username@)
                && !digest_parses(
                user_by_name(old(db).users@, request.username@).password_hash@,
            ))
        },
{
    let user = match db.get_user_by_username(request.username.as_str()) {
        Some(u) => u,
        None => {
            return Err(AuthError::InvalidCredentials);
        },
    };
    proof {
        let w = choose|w: int|
            0 <= w < db.users@.len() && (#[trigger] db.users@[w]).username@
                == request.username@;
        let v = choose|v: int|
            0 <= v < db.users@.len() && #[trigger] db.users@[v] == user;
        if w != v {
            assert(crate::store::users_wf(db.users@, db.next_id));
        }
        assert(user == user_by_name(db.users@, request.username@));
    }
    let ok = match verify_password(request.password.as_str(), user.password_hash.as_str()) {
        Ok(b) => b,
        Err(e) => {
            return Err(e);
        },
    };
    if !ok {
        return Err(AuthError::InvalidCredentials);
    }
    let token = generate_token();
    let expires_at = now + SESSION_TTL_SECONDS;
    let ghost pre = *old(db);
    db.create_session(user.id, token.as_str(), expires_at, now);
    let ghost mid_users = db.users@;
    db.update_last_login(user.id, now);
    proof {
        assert(mid_users == pre.users@);
        let w = choose|w: int|
            0 <= w < pre.users@.len() && (#[trigger] pre.users@[w]).username@
                == request.username@;
        assert(pre.users@[w].id == user.id) by {
            let v = choose|v: int|
                0 <= v < pre.users@.len() && (#[trigger] pre.users@[v]).username@
                    == request.username@;
            if v != w {
                assert(crate::store::users_wf(pre.users@, pre.next_id));
            }
        }
        assert(has_user_id(mid_users, user.id));
        let i = choose|i: int|
            {
                &&& 0 <= i < mid_users.len()
                &&& (#[trigger] mid_users[i]).id == user.id
                &&& db.users@ == mid_users.update(
                    i,
                    User { last_login: Some(now), ..mid_users[i] },
                )
            };
        if i != w {
            assert(crate::store::users_wf(pre.users@, pre.next_id));
        }
        assert(pre.users@[i].username@ == request.username@);
    }
    Ok(AuthResponse { user, token })
}


/// Registration, login, session issuance and expiry over the store.
pub struct AuthService {
    pub db: Database,
}

impl AuthService {
    pub fn new(db: Database) -> (s: AuthService)
        ensures
            s.db == db,
    {
        AuthService { db }
    }

    /// Registers a new user: validates the inputs, refuses taken names,
    /// hashes the password, and issues a thirty-day session.
    pub fn register(&mut self, request: CreateUserRequest, now: i64) -> (r: Result<
        AuthResponse,
        AuthError,
    >)
        requires
            old(self).db.wf(),
            old(self).db.can_alloc(2),
            now <= i64::MAX - SESSION_TTL_SECONDS,
        ensures
            final(self).db.wf(),
            r matches Ok(resp) ==> {
                &&& valid_credentials(request.username@, request.email@, request.password@)
                &&& !has_username(old(self).db.users@, request.username@)
                &&& !has_email(old(self).db.users@, request.email@)
                &&& resp.user.id == old(self).db.next_id
                &&& resp.user.username@ == request.username@
                &&& resp.user.email@ == request.email@
                &&& digest_parses(resp.user.password_hash@)
                &&& digest_matches(resp.user.password_hash@, request.password@)
                &&& resp.token@.len() == 64
                &&& final(self).db.users@ == old(self).db.users@.push(
                    User { last_login: Some(now), ..resp.user },
                )
                &&& has_username(final(self).db.users@, request.username@)
                &&& user_by_name(final(self).db.users@, request.username@) == User {
                    last_login: Some(now),
                    ..resp.user
                }
                &&& digest_parses(
                    user_by_name(final(self).db.users@, request.username@).password_hash@,
                )
                &&& digest_matches(
                    user_by_name(final(self).db.users@, request.username@).password_hash@,
                    request.password@,
                )
                &&& has_token(final(self).db.sessions@, resp.token@)
                &&& session_by_token(final(self).db.sessions@, resp.token@).user_id == resp.user.id
                &&& session_by_token(final(self).db.sessions@, resp.token@).expires_at == now
                    + SESSION_TTL_SECONDS
                &&& final(self).db.rooms == old(self).db.rooms
                &&& final(self).db.messages == old(self).db.messages
                &&& final(self).db.members == old(self).db.members
                &&& final(self).db.mentions == old(self).db.mentions
                &&& final(self).db.next_id == old(self).db.next_id + 2
            },
            r matches Err(e) ==> {
                &&& *final(self) == *old(self)
                &&& (e is InvalidInput || e is UserExists || e is PasswordHash)
                &&& (e is InvalidInput <==> !valid_credentials(
                    request.username@,
                    request.email@,
                    request.password@,
                ))
                &&& (valid_credentials(request.username@, request.email@, request.password@)
                    && has_username(old(self).db.users@, request.username@) ==> e
                    == AuthError::UserExists)
                &&& (e is UserExists ==> has_username(old(self).db.users@, request.username@)
                    || has_email(old(self).db.users@, request.email@))
            },
            !valid_credentials(request.username@, request.email@, request.password@) ==> r is Err,
            valid_credentials(request.username@, request.email@, request.password@) && (
            has_username(old(self).db.users@, request.username@) || has_email(
                old(self).db.users@,
                request.email@,
            )) ==> r is Err,
    {
        register_user(&mut self.db, request, now)
    }

    /// Logs a user in: fails with InvalidCredentials when the user is
    /// unknown or the password does not match; otherwise issues a fresh
    /// thirty-day session.
    pub fn login(&mut self, request: LoginRequest, now: i64) -> (r: Result<AuthResponse, AuthError>)
        requires
            old(self).db.wf(),
            old(self).db.can_alloc(1),
            now <= i64::MAX - SESSION_TTL_SECONDS,
        ensures
            final(self).db.wf(),
            r is Ok <==> (has_username(old(self).db.users@, request.username@) && digest_parses(
                user_by_name(old(self).db.users@, request.username@).password_hash@,
            ) && digest_matches(
                user_by_name(old(self).db.users@, request.username@).password_hash@,
                request.password@,
            )),
            r matches Ok(resp) ==> {
                &&& resp.user == user_by_name(old(self).db.users@, request.username@)
                &&& resp.user.username@ == request.username@
                &&& resp.token@.len() == 64
                &&& has_token(final(self).db.sessions@, resp.token@)
                &&& session_by_token(final(self).db.sessions@, resp.token@).user_id == resp.user.id
                &&& session_by_token(final(self).db.sessions@, resp.token@).expires_at == now
                    + SESSION_TTL_SECONDS
                &&& exists|i: int|
                    {
                        &&& 0 <= i < old(self).db.users@.len()
                        &&& (#[trigger] old(self).db.users@[i]).username@ == request.username@
                        &&& final(self).db.users@ == old(self).db.users@.update(
                            i,
                            User { last_login: Some(now), ..old(self).db.users@[i] },
                        )
                    }
                &&& final(self).db.rooms == old(self).db.rooms
                &&& final(self).db.messages == old(self).db.messages
                &&& final(self).db.members == old(self).db.members
                &&& final(self).db.mentions == old(self).db.mentions
                &&& final(self).db.next_id == old(self).db.next_id + 1
            },
            r matches Err(e) ==> {
                &&& *final(self) == *old(self)
                &&& (e is InvalidCredentials || e is PasswordHash)
                &&& (e is InvalidCredentials <==> (!has_username(
                    old(self).db.users@,
                    request.username@,
                ) || (digest_parses(
                    user_by_name(old(self).db.users@, request.username@).password_hash@,
                ) && !digest_matches(
                    user_by_name(old(self).db.users@, request.username@).password_hash@,
                    request.password@,
                ))))
                &&& (e is PasswordHash ==> has_username(old(self).db.users@, request.username@)
                    && !digest_parses(
                    user_by_name(old(self).db.users@, request.username@).password_hash@,
                ))
            },
    {
        login_user(&mut self.db, request, now)
    }

    /// Resolves a token to its user. Fails with InvalidSession on unknown
    /// tokens; an expired session is deleted and then fails the same way;
    /// a dangling session fails with UserNotFound.
    pub fn validate_session(&mut self, token: &str, now: i64) -> (r: Result<User, AuthError>)
        requires
            old(self).db.wf(),
        ensures
            final(self).db.wf(),
            r is Ok <==> (has_token(old(self).db.sessions@, token@) && session_by_token(
                old(self).db.sessions@,
                token@,
            ).expires_at > now && has_user_id(
                old(self).db.users@,
                session_by_token(old(self).db.sessions@, token@).user_id,
            )),
            r matches Ok(u) ==> *final(self) == *old(self) && u == user_by_id(
                old(self).db.users@,
                session_by_token(old(self).db.sessions@, token@).user_id,
            ),
            r matches Err(e) ==> {
                &&& (e is InvalidSession <==> (!has_token(old(self).db.sessions@, token@)
                    || session_by_token(old(self).db.sessions@, token@).expires_at <= now))
                &&& (e is UserNotFound ==> has_token(old(self).db.sessions@, token@)
                    && session_by_token(old(self).db.sessions@, token@).expires_at > now)
            },
            has_token(old(self).db.sessions@, token@) && session_by_token(
                old(self).db.sessions@,
                token@,
            ).expires_at <= now ==> !has_token(final(self).db.sessions@, token@),
            !(has_token(old(self).db.sessions@, token@) && session_by_token(
                old(self).db.sessions@,
                token@,
            ).expires_at <= now) ==> *final(self) == *old(self),
    {
        validate_session_core(&mut self.db, token, now)
    }

    /// Deletes the session under the token; idempotent on unknown tokens.
    pub fn logout(&mut self, token: &str) -> (r: Result<(), AuthError>)
        requires
            old(self).db.wf(),
        ensures
            final(self).db.wf(),
            r is Ok,
            !has_token(final(self).db.sessions@, token@),
            final(self).db.users == old(self).db.users,
            final(self).db.rooms == old(self).db.rooms,
            final(self).db.members == old(self).db.members,
            final(self).db.messages == old(self).db.messages,
            final(self).db.mentions == old(self).db.mentions,
            final(self).db.next_id == old(self).db.next_id,
            !has_token(old(self).db.sessions@, token@) ==> *final(self) == *old(self),
            has_token(old(self).db.sessions@, token@) ==> exists|i: int|
                {
                    &&& 0 <= i < old(self).db.sessions@.len()
                    &&& (#[trigger] old(self).db.sessions@[i]).token@ == token@
                    &&& final(self).db.sessions@ == old(self).db.sessions@.remove(i)
                },
    {
        self.db.delete_session(token);
        Ok(())
    }

    /// Deletes every session that expired before the given instant.
    pub fn cleanup_expired_sessions(&mut self, now: i64) -> (r: Result<(), AuthError>)
        requires
            old(self).db.wf(),
        ensures
            final(self).db.wf(),
            r is Ok,
            final(self).db.users == old(self).db.users,
            final(self).db.rooms == old(self).db.rooms,
            final(self).db.members == old(self).db.members,
            final(self).db.messages == old(self).db.messages,
            final(self).db.mentions == old(self).db.mentions,
            final(self).db.next_id == old(self).db.next_id,
            forall|k: int|
                0 <= k < final(self).db.sessions@.len() ==> (
                #[trigger] final(self).db.sessions@[k]).expires_at >= now,
            forall|j: int|
                0 <= j < old(self).db.sessions@.len() && (
                #[trigger] old(self).db.sessions@[j]).expires_at >= now ==> final(self).db.sessions@.contains(
                    old(self).db.sessions@[j],
                ),
            forall|k: int|
                0 <= k < final(self).db.sessions@.len() ==> old(self).db.sessions@.contains(
                    #[trigger] final(self).db.sessions@[k],
                ),
    {
        self.db.delete_expired_sessions(now);
        Ok(())
    }
}

/// A token resolves to a user right now: the token has a session that has
/// not expired, and the session's user still exists. This is exactly the
/// success condition of validate_session.
pub open spec fn session_live(db: Database, token: Seq<char>, now: i64) -> bool {
    &&& has_token(db.sessions@, token)
    &&& session_by_token(db.sessions@, token).expires_at > now
    &&& has_user_id(db.users@, session_by_token(db.sessions@, token).user_id)
}

/// A session is valid exactly while the clock reads less than its expiry.
pub proof fn lemma_session_valid_iff(db: Database, token: Seq<char>, now: i64)
    requires
        has_token(db.sessions@, token),
        has_user_id(db.users@, session_by_token(db.sessions@, token).user_id),
    ensures
        session_live(db, token, now) <==> now < session_by_token(db.sessions@, token).expires_at,
{
}

/// A store without a session under the token refuses the token at every
/// instant: once an expired session is deleted, validating the same token
/// again fails, and no validation brings the session back.
pub proof fn lemma_absent_token_never_validates(db: Database, token: Seq<char>)
    requires
        !has_token(db.sessions@, token),
    ensures
        forall|now: i64| !session_live(db, token, now),
{
}

/// The session-validation rule itself, shared by the service and the
/// connection handler: valid sessions resolve to their user, expired ones
/// are deleted and refused.
pub fn validate_session_core(db: &mut Database, token: &str, now: i64) -> (r: Result<
    User,
    AuthError,
>)
    requires
        old(db).wf(),
    ensures
        final(db).wf(),
        r is Ok <==> (has_token(old(db).sessions@, token@) && session_by_token(
            old(db).sessions@,
            token@,
        ).expires_at > now && has_user_id(
            old(db).users@,
            session_by_token(old(db).sessions@, token@).user_id,
        )),
        r matches Ok(u) ==> *final(db) == *old(db) && u == user_by_id(
            old(db).users@,
            session_by_token(old(db).sessions@, token@).user_id,
        ),
        r matches Err(e) ==> {
            &&& (e is InvalidSession <==> (!has_token(old(db).sessions@, token@)
                || session_by_token(old(db).sessions@, token@).expires_at <= now))
            &&& (e is UserNotFound ==> has_token(old(db).sessions@, token@) && session_by_token(
                old(db).sessions@,
                token@,
            ).expires_at > now)
        },
        has_token(old(db).sessions@, token@) && session_by_token(
            old(db).sessions@,
            token@,
        ).expires_at <= now ==> !has_token(final(db).sessions@, token@),
        !(has_token(old(db).sessions@, token@) && session_by_token(
            old(db).sessions@,
            token@,
        ).expires_at <= now) ==> *final(db) == *old(db),
{
    let session = match db.get_session_by_token(token) {
        Some(s) => s,
        None => {
            return Err(AuthError::InvalidSession);
        },
    };
    proof {
        let w = choose|w: int|
            0 <= w < db.sessions@.len() && (#[trigger] db.sessions@[w]).token@ == token@;
        let v = choose|v: int| 0 <= v < db.sessions@.len() && #[trigger] db.sessions@[v] == session;
        if w != v {
            assert(crate::store::sessions_wf(db.sessions@, db.next_id));
        }
        assert(session == session_by_token(db.sessions@, token@));
    }
    if session.expires_at <= now {
        db.delete_session(token);
        return Err(AuthError::InvalidSession);
    }
    match db.get_user_by_id(session.user_id) {
        Some(user) => {
            proof {
                let w = choose|w: int|
                    0 <= w < db.users@.len() && (#[trigger] db.users@[w]).id == session.user_id;
                let v = choose|v: int|
                    0 <= v < db.users@.len() && #[trigger] db.users@[v] == user;
                if w != v {
                    assert(crate::store::users_wf(db.users@, db.next_id));
                }
                assert(user == user_by_id(db.users@, session.user_id));
            }
            Ok(user)
        },
        None => Err(AuthError::UserNotFound),
    }
}

} // verus!
