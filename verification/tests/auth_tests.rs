use authcore::authz::authorize_create;
use authcore::authz::authorize_mutate;
use authcore::authz::create_course;
use authcore::authz::update_course;
use authcore::identity::login;
use authcore::identity::register_response;
use authcore::password::hash_password;
use authcore::password::verify_password;
use authcore::types::AuthError;
use authcore::types::Course;
use authcore::types::CourseUpdate;
use authcore::types::Decision;
use authcore::types::InsertOutcome;
use authcore::types::Role;
use authcore::types::User;
use authcore::types::VerifiedCaller;

fn bytes(s: &str) -> Vec<u8> {
    s.as_bytes().to_vec()
}

const OWNER: &str = "11111111-1111-4111-8111-111111111111";
const OTHER: &str = "22222222-2222-4222-8222-222222222222";

#[test]
fn password_hash_verifies_and_mismatch_does_not() {
    let h = hash_password("SecurePassword123").unwrap();
    assert_eq!(verify_password("SecurePassword123", &h), Ok(true));
    assert_eq!(verify_password("WrongPassword", &h), Ok(false));
}

#[test]
fn distinct_passwords_get_distinct_hashes() {
    let h1 = hash_password("first password").unwrap();
    let h2 = hash_password("second password").unwrap();
    assert_eq!(verify_password("second password", &h2), Ok(true));
    assert_eq!(verify_password("first password", &h2), Ok(false));
    assert_eq!(verify_password("second password", &h1), Ok(false));
}

#[test]
fn malformed_stored_hash_is_internal_error() {
    assert_eq!(
        verify_password("anything", "not a bcrypt hash"),
        Err(AuthError::InternalError)
    );
}

#[test]
fn only_instructors_create() {
    assert_eq!(authorize_create(Role::Student), Decision::Deny(AuthError::Forbidden));
    assert_eq!(authorize_create(Role::Admin), Decision::Deny(AuthError::Forbidden));
    assert_eq!(authorize_create(Role::Instructor), Decision::Allow);
}

#[test]
fn creation_binds_owner_to_caller() {
    let caller = VerifiedCaller { subject: bytes(OWNER), role: Role::Instructor };
    let nc = create_course(&caller, "Rust".to_string(), Some("intro".to_string())).unwrap();
    assert_eq!(nc.instructor_id, bytes(OWNER));
    assert_eq!(nc.course_name, "Rust");
    assert_eq!(nc.course_description, Some("intro".to_string()));

    let student = VerifiedCaller { subject: bytes(OWNER), role: Role::Student };
    assert_eq!(
        create_course(&student, "Rust".to_string(), None),
        Err(AuthError::Forbidden)
    );
}

#[test]
fn mutation_is_owner_only_whatever_the_role() {
    let owner = bytes(OWNER);
    let other = bytes(OTHER);
    assert_eq!(authorize_mutate(&owner, Some(&owner)), Decision::Allow);
    // Another subject — an admin's id included — is forbidden.
    assert_eq!(authorize_mutate(&other, Some(&owner)), Decision::Deny(AuthError::Forbidden));
    // A missing resource is not-found, whoever asks.
    assert_eq!(authorize_mutate(&owner, None), Decision::Deny(AuthError::NotFound));
    assert_eq!(authorize_mutate(&other, None), Decision::Deny(AuthError::NotFound));
}

fn sample_course() -> Course {
    Course {
        id: bytes("33333333-3333-4333-8333-333333333333"),
        instructor_id: bytes(OWNER),
        course_name: "Name".to_string(),
        course_description: Some("Description".to_string()),
        course_created_at: Some(1_700_000_000),
    }
}

#[test]
fn update_respects_ownership_and_existence() {
    let update = CourseUpdate { course_name: Some("New".to_string()), course_description: None };
    assert_eq!(
        update_course(&bytes(OTHER), None, update.clone()),
        Err(AuthError::NotFound)
    );
    assert_eq!(
        update_course(&bytes(OTHER), Some(sample_course()), update.clone()),
        Err(AuthError::Forbidden)
    );
    let updated = update_course(&bytes(OWNER), Some(sample_course()), update).unwrap();
    assert_eq!(updated.course_name, "New");
}

#[test]
fn update_changes_only_supplied_fields() {
    let c = sample_course();
    // Nothing supplied: nothing changes.
    let same = update_course(
        &bytes(OWNER),
        Some(c.clone()),
        CourseUpdate { course_name: None, course_description: None },
    )
    .unwrap();
    assert_eq!(same, c);
    // Only the description supplied: the name stays.
    let updated = update_course(
        &bytes(OWNER),
        Some(c.clone()),
        CourseUpdate { course_name: None, course_description: Some("Other".to_string()) },
    )
    .unwrap();
    assert_eq!(updated.course_name, c.course_name);
    assert_eq!(updated.course_description, Some("Other".to_string()));
    assert_eq!(updated.id, c.id);
    assert_eq!(updated.instructor_id, c.instructor_id);
    assert_eq!(updated.course_created_at, c.course_created_at);
}

#[test]
fn login_pins_the_outcome_for_each_stored_hash() {
    let secret = bytes("SECRET-REDACTED");
    let now = 1_700_000_000i64;
    let user = User {
        id: bytes(OWNER),
        first_name: "Ada".to_string(),
        last_name: "Lovelace".to_string(),
        username: "ada".to_string(),
        email: "ada@x.com".to_string(),
        role: Role::Student,
        password_hash: hash_password("pw1").unwrap(),
    };
    // The right password is owed a token.
    assert!(login(Some(user.clone()), "pw1", &secret, now).is_ok());
    // A wrong password against a well-formed hash is the bare
    // authentication failure, never an internal fault.
    assert_eq!(
        login(Some(user.clone()), "pw2", &secret, now),
        Err(AuthError::Unauthenticated)
    );
    // A malformed stored hash is an internal fault, not an answer.
    let mut broken = user.clone();
    broken.password_hash = "not a bcrypt hash".to_string();
    assert_eq!(
        login(Some(broken), "pw1", &secret, now),
        Err(AuthError::InternalError)
    );
    // An unknown email fails exactly as a wrong password does.
    assert_eq!(login(None, "pw1", &secret, now), Err(AuthError::Unauthenticated));
}

#[test]
fn register_outcomes_map_to_the_error_taxonomy() {
    let user = User {
        id: bytes(OWNER),
        first_name: "Ada".to_string(),
        last_name: "Lovelace".to_string(),
        username: "ada".to_string(),
        email: "ada@x.com".to_string(),
        role: Role::Student,
        password_hash: "$2b$12$abcdefghijklmnopqrstuv".to_string(),
    };
    let resp = register_response(InsertOutcome::Inserted(user.clone())).unwrap();
    assert_eq!(resp.id, user.id);
    assert_eq!(resp.email, user.email);
    assert_eq!(resp.role, Role::Student);
    assert_eq!(
        register_response(InsertOutcome::DuplicateEmail),
        Err(AuthError::Conflict)
    );
    assert_eq!(
        register_response(InsertOutcome::StoreFailure),
        Err(AuthError::InternalError)
    );
}

#[test]
fn http_statuses_follow_the_transport_contract() {
    assert_eq!(AuthError::Unauthenticated.http_status(), 401);
    assert_eq!(AuthError::Forbidden.http_status(), 403);
    assert_eq!(AuthError::NotFound.http_status(), 404);
    assert_eq!(AuthError::Conflict.http_status(), 409);
    assert_eq!(AuthError::InternalError.http_status(), 500);
}
