//! The end-to-end story of the core, with a toy in-memory store standing in
//! for the excluded storage collaborator: every decision along the way is
//! the library's.

use authcore::authz::create_course;
use authcore::authz::update_course;
use authcore::claims::parse_claims;
use authcore::identity::login;
use authcore::identity::prepare_registration;
use authcore::identity::register_response;
use authcore::token::verify_token;
use authcore::types::AuthError;
use authcore::types::Course;
use authcore::types::CourseUpdate;
use authcore::types::InsertOutcome;
use authcore::types::NewUser;
use authcore::types::Role;
use authcore::types::User;
use authcore::types::VerifiedCaller;

fn bytes(s: &str) -> Vec<u8> {
    s.as_bytes().to_vec()
}

const A_ID: &str = "aaaaaaaa-aaaa-4aaa-8aaa-aaaaaaaaaaaa";
const B_ID: &str = "bbbbbbbb-bbbb-4bbb-8bbb-bbbbbbbbbbbb";
const R_ID: &str = "cccccccc-cccc-4ccc-8ccc-cccccccccccc";

/// The storage collaborator: holds records, enforces the unique email
/// constraint, assigns ids and roles — exactly the interface the core
/// expects of it.
struct Store {
    users: Vec<User>,
}

impl Store {
    fn insert(&mut self, nu: NewUser, id: &str, role: Role) -> InsertOutcome {
        if self.users.iter().any(|u| u.email == nu.email) {
            return InsertOutcome::DuplicateEmail;
        }
        let user = User {
            id: bytes(id),
            first_name: nu.first_name,
            last_name: nu.last_name,
            username: nu.username,
            email: nu.email,
            role,
            password_hash: nu.password_hash,
        };
        self.users.push(user.clone());
        InsertOutcome::Inserted(user)
    }

    fn find_by_email(&self, email: &str) -> Option<User> {
        self.users.iter().find(|u| u.email == email).cloned()
    }
}

#[test]
fn full_registration_login_and_course_flow() {
    let secret = bytes("SECRET-REDACTED");
    let now = 1_700_000_000i64;
    let mut store = Store { users: Vec::new() };

    // Register identity A: success, the created-equivalent outcome.
    let nu = prepare_registration(
        "Alice".to_string(),
        "Archer".to_string(),
        "alice".to_string(),
        "A@X.com",
        "pw1",
    )
    .unwrap();
    // The email was normalized for the unique-key comparison.
    assert_eq!(nu.email, "a@x.com");
    let outcome = store.insert(nu, A_ID, Role::Student);
    let resp = register_response(outcome).unwrap();
    assert_eq!(resp.id, bytes(A_ID));
    assert_eq!(resp.role, Role::Student);

    // A second registration with the same email collides.
    let nu2 = prepare_registration(
        "Alice".to_string(),
        "Again".to_string(),
        "alice2".to_string(),
        "a@x.com",
        "pw9",
    )
    .unwrap();
    let outcome2 = store.insert(nu2, B_ID, Role::Student);
    assert_eq!(register_response(outcome2), Err(AuthError::Conflict));

    // Login with the right password: the token names A as a student.
    let token = login(store.find_by_email("a@x.com"), "pw1", &secret, now).unwrap();
    let caller = verify_token(&token, &secret, now).unwrap();
    assert_eq!(caller.subject, bytes(A_ID));
    assert_eq!(caller.role, Role::Student);
    // The token's claims segment says the same, read back directly.
    let dot1 = token.iter().position(|&b| b == b'.').unwrap();
    let dot2 = dot1 + 1 + token[dot1 + 1..].iter().position(|&b| b == b'.').unwrap();
    let claims_bytes = authcore::b64::b64_decode(&token[dot1 + 1..dot2].to_vec()).unwrap();
    let claims = parse_claims(&claims_bytes).unwrap();
    assert_eq!(claims.subject, bytes(A_ID));
    assert_eq!(claims.role, Role::Student);

    // Login with a wrong password, and with an unknown email: one and the
    // same failure.
    assert_eq!(
        login(store.find_by_email("a@x.com"), "wrong", &secret, now),
        Err(AuthError::Unauthenticated)
    );
    assert_eq!(
        login(store.find_by_email("nobody@x.com"), "pw1", &secret, now),
        Err(AuthError::Unauthenticated)
    );

    // B, an instructor, creates resource R: the owner is B.
    let b_caller = VerifiedCaller { subject: bytes(B_ID), role: Role::Instructor };
    let nc = create_course(&b_caller, "Course R".to_string(), None).unwrap();
    assert_eq!(nc.instructor_id, bytes(B_ID));
    let r = Course {
        id: bytes(R_ID),
        instructor_id: nc.instructor_id,
        course_name: nc.course_name,
        course_description: nc.course_description,
        course_created_at: Some(now),
    };

    // A attempts to mutate R: forbidden, even though the course exists.
    let update = CourseUpdate {
        course_name: Some("Taken over".to_string()),
        course_description: None,
    };
    assert_eq!(
        update_course(&bytes(A_ID), Some(r.clone()), update),
        Err(AuthError::Forbidden)
    );

    // B mutates R: allowed; the supplied field changes, the rest stays.
    let update = CourseUpdate {
        course_name: None,
        course_description: Some("All about R".to_string()),
    };
    let updated = update_course(&bytes(B_ID), Some(r.clone()), update).unwrap();
    assert_eq!(updated.course_name, "Course R");
    assert_eq!(updated.course_description, Some("All about R".to_string()));
    assert_eq!(updated.instructor_id, bytes(B_ID));
    assert_eq!(updated.id, r.id);
    assert_eq!(updated.course_created_at, r.course_created_at);
}
