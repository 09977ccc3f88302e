//! The authorization decider: a pure function from the verified caller, the
//! operation, and (for mutations) the resource's owner to allow or deny.
//! Creation is role-checked — only an instructor may create, and the new
//! resource's owner is bound to the caller. Mutation is ownership-checked —
//! only the owner may mutate, whatever the role, and a missing resource is
//! reported before ownership is ever consulted, so a wrong owner learns
//! nothing about what exists. Reads take no decision at all.

use vstd::prelude::*;

use crate::subject::bytes_eq;
use crate::subject::clone_bytes;
use crate::types::AuthError;
use crate::types::Course;
use crate::types::CourseUpdate;
use crate::types::Decision;
use crate::types::NewCourse;
use crate::types::Role;
use crate::types::VerifiedCaller;

verus! {

/// May a caller with this role create a protected resource? Allow exactly
/// for an instructor; a student or an admin is denied outright.
pub fn authorize_create(role: Role) -> (d: Decision)
    ensures
        role == Role::Instructor ==> d == Decision::Allow,
        role != Role::Instructor ==> d == Decision::Deny(AuthError::Forbidden),
{
    match role {
        Role::Instructor => Decision::Allow,
        _ => Decision::Deny(AuthError::Forbidden),
    }
}

/// May this caller mutate the resource whose owner is `owner`? A missing
/// resource is not-found before any ownership question; otherwise allow
/// exactly the owner, irrespective of role.
pub fn authorize_mutate(caller_subject: &Vec<u8>, owner: Option<&Vec<u8>>) -> (d: Decision)
    ensures
        owner is None ==> d == Decision::Deny(AuthError::NotFound),
        (owner matches Some(o) && o@ == caller_subject@) ==> d == Decision::Allow,
        (owner matches Some(o) && o@ != caller_subject@) ==> d == Decision::Deny(
            AuthError::Forbidden,
        ),
{
    match owner {
        None => Decision::Deny(AuthError::NotFound),
        Some(o) => {
            if bytes_eq(caller_subject, o) {
                Decision::Allow
            } else {
                Decision::Deny(AuthError::Forbidden)
            }
        },
    }
}

/// Creates a course on behalf of a verified caller: allowed exactly for an
/// instructor, and the new course's owner is the caller's own subject id —
/// a caller cannot create a course owned by anyone else.
pub fn create_course(
    caller: &VerifiedCaller,
    course_name: String,
    course_description: Option<String>,
) -> (r: Result<NewCourse, AuthError>)
    ensures
        r is Ok <==> caller.role == Role::Instructor,
        r matches Ok(nc) ==> nc.instructor_id@ == caller.subject@ && nc.course_name == course_name
            && nc.course_description == course_description,
        r matches Err(e) ==> e == AuthError::Forbidden,
{
    match authorize_create(caller.role) {
        Decision::Allow => Ok(
            NewCourse {
                instructor_id: clone_bytes(&caller.subject),
                course_name,
                course_description,
            },
        ),
        Decision::Deny(e) => Err(e),
    }
}

/// Applies a partial update to a course on behalf of a verified caller.
/// The order is fixed: a missing course is not-found before ownership is
/// checked; a non-owner is forbidden, whatever the role, before anything
/// changes. For the owner, exactly the supplied fields change; id, owner
/// and creation instant never do.
pub fn update_course(caller_subject: &Vec<u8>, found: Option<Course>, update: CourseUpdate) -> (r:
    Result<Course, AuthError>)
    ensures
        found is None ==> (r matches Err(e) && e == AuthError::NotFound),
        found matches Some(c) ==> (c.instructor_id@ != caller_subject@ ==> (r matches Err(e) && e
            == AuthError::Forbidden)),
        found matches Some(c) ==> (c.instructor_id@ == caller_subject@ ==> (r matches Ok(u) && ({
            &&& u.id@ == c.id@
            &&& u.instructor_id@ == c.instructor_id@
            &&& u.course_created_at == c.course_created_at
            &&& u.course_name == (match update.course_name {
                Some(n) => n,
                None => c.course_name,
            })
            &&& u.course_description == (match update.course_description {
                Some(d) => Some(d),
                None => c.course_description,
            })
        }))),
{
    let c = match found {
        None => {
            return Err(AuthError::NotFound);
        },
        Some(c) => c,
    };
    if !bytes_eq(caller_subject, &c.instructor_id) {
        return Err(AuthError::Forbidden);
    }
    let course_name = match update.course_name {
        Some(n) => n,
        None => c.course_name,
    };
    let course_description = match update.course_description {
        Some(d) => Some(d),
        None => c.course_description,
    };
    Ok(
        Course {
            id: c.id,
            instructor_id: c.instructor_id,
            course_name,
            course_description,
            course_created_at: c.course_created_at,
        },
    )
}

} // verus!
