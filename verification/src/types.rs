use vstd::prelude::*;

verus! {

/// Role of an identity: a closed enumeration with no implicit hierarchy
/// (an `Admin` is not a superset of an `Instructor`).
#[derive(Clone, Copy, Debug, PartialEq, Eq, Structural)]
pub enum Role {
    Student,
    Instructor,
    Admin,
}

/// The error taxonomy of the core. Every failure of a core operation is one
/// of these; transport code maps them to status codes via `http_status`.
#[derive(Clone, Copy, Debug, PartialEq, Eq, Structural)]
pub enum AuthError {
    /// No token, a garbled token, a mis-signed token, an expired token, or
    /// bad login credentials. Deliberately one variant for all of them, so
    /// a caller cannot tell which failure occurred.
    Unauthenticated,
    /// Authenticated, but lacking the role or the ownership the operation asks for.
    Forbidden,
    /// The target resource does not exist.
    NotFound,
    /// A uniqueness violation on creation (duplicate email).
    Conflict,
    /// A hashing, signing or storage fault unrelated to the caller's input.
    InternalError,
}

impl AuthError {
    /// The HTTP status each error surfaces as.
    pub fn http_status(&self) -> (s: u16)
        ensures
            s == match *self {
                AuthError::Unauthenticated => 401u16,
                AuthError::Forbidden => 403u16,
                AuthError::NotFound => 404u16,
                AuthError::Conflict => 409u16,
                AuthError::InternalError => 500u16,
            },
    {
        match *self {
            AuthError::Unauthenticated => 401,
            AuthError::Forbidden => 403,
            AuthError::NotFound => 404,
            AuthError::Conflict => 409,
            AuthError::InternalError => 500,
        }
    }
}

/// Outcome of an authorization decision.
#[derive(Clone, Copy, Debug, PartialEq, Eq, Structural)]
pub enum Decision {
    Allow,
    Deny(AuthError),
}

/// The identity and role a verified token vouches for. Produced only by
/// token verification; handler logic consumes it.
#[derive(Clone, Debug, PartialEq, Eq)]
pub struct VerifiedCaller {
    /// Subject identifier: the canonical 36-byte text form of the identity's
    /// unique id (see `subject::wf_subject`).
    pub subject: Vec<u8>,
    /// The role snapshot taken at token issuance.
    pub role: Role,
}

/// The signed payload of a token: subject identifier, role snapshot, and
/// absolute expiration (seconds since epoch).
#[derive(Clone, Debug, PartialEq, Eq)]
pub struct Claims {
    pub subject: Vec<u8>,
    pub role: Role,
    pub expiry: i64,
}

/// A stored identity record, as the credential store hands it back.
/// The password hash never leaves the core: responses are built from
/// `UserResponse`, which has no such field.
#[derive(Clone, Debug, PartialEq, Eq)]
pub struct User {
    pub id: Vec<u8>,
    pub first_name: String,
    pub last_name: String,
    pub username: String,
    pub email: String,
    pub role: Role,
    pub password_hash: String,
}

/// The public view of an identity: every field of `User` except the
/// password hash.
#[derive(Clone, Debug, PartialEq, Eq)]
pub struct UserResponse {
    pub id: Vec<u8>,
    pub first_name: String,
    pub last_name: String,
    pub username: String,
    pub email: String,
    pub role: Role,
}

/// A new identity record ready for insertion: email normalized to
/// lowercase, password replaced by its one-way hash.
#[derive(Clone, Debug, PartialEq, Eq)]
pub struct NewUser {
    pub first_name: String,
    pub last_name: String,
    pub username: String,
    pub email: String,
    pub password_hash: String,
}

/// What the credential store reports for an attempted insertion.
#[derive(Clone, Debug, PartialEq, Eq)]
pub enum InsertOutcome {
    /// The record was inserted; the store assigned it an id and a role.
    Inserted(User),
    /// The unique constraint on the email rejected the insertion.
    DuplicateEmail,
    /// The store failed for a reason unrelated to the record.
    StoreFailure,
}

/// A protected resource: a course owned by the instructor who created it.
#[derive(Clone, Debug, PartialEq, Eq)]
pub struct Course {
    pub id: Vec<u8>,
    /// The owning identity's subject id, fixed at creation.
    pub instructor_id: Vec<u8>,
    pub course_name: String,
    pub course_description: Option<String>,
    /// Creation instant (seconds since epoch), assigned by the store.
    pub course_created_at: Option<i64>,
}

/// A course as handed to the store for insertion: the owner is already
/// bound; the store assigns id and creation instant.
#[derive(Clone, Debug, PartialEq, Eq)]
pub struct NewCourse {
    pub instructor_id: Vec<u8>,
    pub course_name: String,
    pub course_description: Option<String>,
}

/// A partial update of a course: only the supplied fields change.
#[derive(Clone, Debug, PartialEq, Eq)]
pub struct CourseUpdate {
    pub course_name: Option<String>,
    pub course_description: Option<String>,
}

} // verus!
