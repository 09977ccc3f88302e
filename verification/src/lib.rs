//! Authentication and authorization core: credential verification, stateless
//! issuance and validation of signed identity tokens, and the role and
//! ownership rules that protect mutating operations.
//!
//! The core is pure with respect to its own state: every operation is a
//! function of its arguments (the signing secret and the current time are
//! passed in explicitly), so concurrent callers need no coordination.
//! Storage and transport are collaborators: they hand the core plain values
//! and take plain values back.

pub mod authz;
pub mod b64;
pub mod claims;
pub mod dec;
pub mod hs256;
pub mod identity;
pub mod password;
pub mod subject;
pub mod token;
pub mod types;

pub use authz::authorize_create;
pub use authz::authorize_mutate;
pub use authz::create_course;
pub use authz::update_course;
pub use identity::login;
pub use identity::prepare_registration;
pub use identity::register_response;
pub use password::hash_password;
pub use password::verify_password;
pub use subject::valid_subject_id;
pub use token::authenticate;
pub use token::issue;
pub use token::verify_token;
pub use types::AuthError;
pub use types::Claims;
pub use types::Course;
pub use types::CourseUpdate;
pub use types::Decision;
pub use types::InsertOutcome;
pub use types::NewCourse;
pub use types::NewUser;
pub use types::Role;
pub use types::User;
pub use types::UserResponse;
pub use types::VerifiedCaller;
