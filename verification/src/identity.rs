//! The identity service's decisions: preparing a registration (normalize
//! the email, hash the password), mapping the store's verdict on the
//! insertion, and the login path — look up by email is the store's part;
//! checking the password and issuing the token is decided here. An unknown
//! email and a wrong password surface as the same error, so a caller cannot
//! enumerate users.

use vstd::prelude::*;

use crate::password::bcrypt_answers;
use crate::password::bcrypt_matches;
use crate::password::hash_password;
use crate::password::verify_password;
use crate::subject::wf_subject;
use crate::token::issue;
use crate::token::token_of;
use crate::token::TOKEN_TTL_SECS;
use crate::types::AuthError;
use crate::types::InsertOutcome;
use crate::types::NewUser;
use crate::types::User;
use crate::types::UserResponse;

verus! {

/// What `str::to_lowercase` returns: the lowercase form of a string, a
/// function of its characters alone.
pub uninterp spec fn lower_of(s: Seq<char>) -> Seq<char>;

/// Relies on `str::to_lowercase`: the result depends on the characters of
/// the input alone.
#[verifier::external_body]
fn to_lowercase(s: &str) -> (r: String)
    ensures
        r@ == lower_of(s@),
{
    s.to_lowercase()
}

/// Turns a registration request into the record to insert: the email
/// normalized to lowercase (emails are compared case-insensitively), the
/// password replaced by its one-way hash — the plaintext goes no further.
/// Fails only on a hashing fault.
pub fn prepare_registration(
    first_name: String,
    last_name: String,
    username: String,
    email: &str,
    password: &str,
) -> (r: Result<NewUser, AuthError>)
    ensures
        r matches Ok(u) ==> u.first_name == first_name && u.last_name == last_name && u.username
            == username && u.email@ == lower_of(email@) && bcrypt_matches(
            password@,
            u.password_hash@,
        ) && bcrypt_answers(u.password_hash@),
        r matches Err(e) ==> e == AuthError::InternalError,
{
    let password_hash = match hash_password(password) {
        Ok(h) => h,
        Err(e) => {
            return Err(e);
        },
    };
    let email_lower = to_lowercase(email);
    Ok(NewUser { first_name, last_name, username, email: email_lower, password_hash })
}

/// Maps the store's verdict on an attempted insertion: the stored record's
/// public view on success — the password hash stays behind —, a conflict
/// for a duplicate email, an internal error for a store fault.
pub fn register_response(outcome: InsertOutcome) -> (r: Result<UserResponse, AuthError>)
    ensures
        (outcome matches InsertOutcome::Inserted(u) ==> (r matches Ok(resp) && ({
            &&& resp.id@ == u.id@
            &&& resp.first_name == u.first_name
            &&& resp.last_name == u.last_name
            &&& resp.username == u.username
            &&& resp.email == u.email
            &&& resp.role == u.role
        }))),
        (outcome is DuplicateEmail ==> (r matches Err(e) && e == AuthError::Conflict)),
        (outcome is StoreFailure ==> (r matches Err(e) && e == AuthError::InternalError)),
{
    match outcome {
        InsertOutcome::Inserted(u) => Ok(
            UserResponse {
                id: u.id,
                first_name: u.first_name,
                last_name: u.last_name,
                username: u.username,
                email: u.email,
                role: u.role,
            },
        ),
        InsertOutcome::DuplicateEmail => Err(AuthError::Conflict),
        InsertOutcome::StoreFailure => Err(AuthError::InternalError),
    }
}

/// The login decision, given what the store found for the email: no such
/// user and a wrong password are one and the same `Unauthenticated`; a
/// matching password is owed the token for the user's id and role, expiring
/// in 24 hours. On a well-formed stored hash — the only kind registration
/// produces — the outcome is total: the token exactly when the password
/// matches, the bare authentication failure exactly when it does not. Only
/// a malformed stored hash is an internal fault.
pub fn login(lookup: Option<User>, password: &str, secret: &Vec<u8>, now: i64) -> (r: Result<
    Vec<u8>,
    AuthError,
>)
    requires
        0 <= now,
        now + TOKEN_TTL_SECS <= i64::MAX,
        lookup matches Some(u) ==> wf_subject(u.id@),
    ensures
        lookup is None ==> (r matches Err(e) && e == AuthError::Unauthenticated),
        r matches Ok(t) ==> (lookup matches Some(u) && (bcrypt_matches(
            password@,
            u.password_hash@,
        ) && t@ == token_of(u.id@, u.role, now + TOKEN_TTL_SECS as int, secret@))),
        r matches Err(e) ==> e == AuthError::Unauthenticated || e == AuthError::InternalError,
        lookup matches Some(u) ==> (bcrypt_answers(u.password_hash@) ==> ((r is Ok
            <==> bcrypt_matches(password@, u.password_hash@)) && (!bcrypt_matches(
            password@,
            u.password_hash@,
        ) ==> (r matches Err(AuthError::Unauthenticated))))),
        lookup matches Some(u) ==> (!bcrypt_answers(u.password_hash@) ==> (r matches Err(
            AuthError::InternalError,
        ))),
{
    let user = match lookup {
        None => {
            return Err(AuthError::Unauthenticated);
        },
        Some(u) => u,
    };
    let ok = match verify_password(password, user.password_hash.as_str()) {
        Ok(b) => b,
        Err(e) => {
            return Err(e);
        },
    };
    if !ok {
        return Err(AuthError::Unauthenticated);
    }
    Ok(issue(&user.id, user.role, now, secret))
}

} // verus!
