//! The claims object: the JSON payload a token signs, in its one canonical
//! spelling — `{"sub":"<subject>","role":"<Role>","exp":<seconds>}` with no
//! whitespace and the fields in exactly that order. The writer produces only
//! this spelling and the parser accepts only it, so a claims object and its
//! bytes determine each other.

use vstd::prelude::*;

use crate::dec::dec_digits;
use crate::dec::dec_of;
use crate::dec::lemma_dec_digits;
use crate::dec::lemma_dec_injective;
use crate::dec::parse_dec;
use crate::subject::valid_subject_id;
use crate::subject::wf_subject;
use crate::types::Claims;
use crate::types::Role;

verus! {

/// The opening of the claims object, through the quote that starts the
/// subject value.
pub open spec fn lit_obj_head() -> Seq<u8> {
    seq![
        '{' as u8,
        '"' as u8,
        's' as u8,
        'u' as u8,
        'b' as u8,
        '"' as u8,
        ':' as u8,
        '"' as u8,
    ]
}

/// From the quote that closes the subject value through the quote that
/// starts the role value.
pub open spec fn lit_role_key() -> Seq<u8> {
    seq![
        '"' as u8,
        ',' as u8,
        '"' as u8,
        'r' as u8,
        'o' as u8,
        'l' as u8,
        'e' as u8,
        '"' as u8,
        ':' as u8,
        '"' as u8,
    ]
}

/// From the quote that closes the role value through the colon before the
/// expiration value.
pub open spec fn lit_exp_key() -> Seq<u8> {
    seq![
        '"' as u8,
        ',' as u8,
        '"' as u8,
        'e' as u8,
        'x' as u8,
        'p' as u8,
        '"' as u8,
        ':' as u8,
    ]
}

/// The name of a role, exactly as it is spelled in the claims object.
pub open spec fn role_name(r: Role) -> Seq<u8> {
    match r {
        Role::Student => seq![
            'S' as u8,
            't' as u8,
            'u' as u8,
            'd' as u8,
            'e' as u8,
            'n' as u8,
            't' as u8,
        ],
        Role::Instructor => seq![
            'I' as u8,
            'n' as u8,
            's' as u8,
            't' as u8,
            'r' as u8,
            'u' as u8,
            'c' as u8,
            't' as u8,
            'o' as u8,
            'r' as u8,
        ],
        Role::Admin => seq!['A' as u8, 'd' as u8, 'm' as u8, 'i' as u8, 'n' as u8],
    }
}

/// The canonical claims object for a subject, role and expiration.
pub open spec fn claims_json_of(sub: Seq<u8>, role: Role, exp: int) -> Seq<u8> {
    lit_obj_head() + sub + lit_role_key() + role_name(role) + lit_exp_key() + dec_of(exp) + seq![
        '}' as u8,
    ]
}

/// Where each part of the claims object stands: the fixed literals at fixed
/// offsets, the subject at 8, the role name at 54, the numeral before the
/// closing brace.
pub proof fn lemma_claims_shape(sub: Seq<u8>, role: Role, exp: int)
    requires
        sub.len() == 36,
        0 <= exp,
    ensures
        claims_json_of(sub, role, exp).len() == 63 + role_name(role).len() + dec_of(exp).len(),
        claims_json_of(sub, role, exp).subrange(0, 8) == lit_obj_head(),
        claims_json_of(sub, role, exp).subrange(8, 44) == sub,
        claims_json_of(sub, role, exp).subrange(44, 54) == lit_role_key(),
        claims_json_of(sub, role, exp).subrange(54, 54 + role_name(role).len() as int)
            == role_name(role),
        claims_json_of(sub, role, exp).subrange(
            54 + role_name(role).len() as int,
            62 + role_name(role).len() as int,
        ) == lit_exp_key(),
        claims_json_of(sub, role, exp).subrange(
            62 + role_name(role).len() as int,
            claims_json_of(sub, role, exp).len() - 1,
        ) == dec_of(exp),
        claims_json_of(sub, role, exp)[claims_json_of(sub, role, exp).len() - 1] == ('}' as u8),
        5 <= role_name(role).len() <= 10,
        1 <= dec_of(exp).len(),
{
    lemma_dec_digits(exp);
    let opener = lit_obj_head();
    let role_key = lit_role_key();
    let rn = role_name(role);
    let exp_key = lit_exp_key();
    let d = dec_of(exp);
    let j = claims_json_of(sub, role, exp);
    let rl = rn.len() as int;
    let dl = d.len() as int;
    assert(j.len() == 63 + rl + dl);
    assert(j.subrange(0, 8) =~= opener);
    assert(j.subrange(8, 44) =~= sub);
    assert(j.subrange(44, 54) =~= role_key);
    assert(j.subrange(54, 54 + rl) =~= rn);
    assert(j.subrange(54 + rl, 62 + rl) =~= exp_key);
    assert(j.subrange(62 + rl, j.len() - 1) =~= d);
}

/// No two distinct claims share a claims object.
pub proof fn lemma_claims_json_injective(
    s1: Seq<u8>,
    r1: Role,
    e1: int,
    s2: Seq<u8>,
    r2: Role,
    e2: int,
)
    requires
        s1.len() == 36,
        s2.len() == 36,
        0 <= e1,
        0 <= e2,
        claims_json_of(s1, r1, e1) == claims_json_of(s2, r2, e2),
    ensures
        s1 == s2,
        r1 == r2,
        e1 == e2,
{
    lemma_claims_shape(s1, r1, e1);
    lemma_claims_shape(s2, r2, e2);
    let j = claims_json_of(s1, r1, e1);
    assert(s1 =~= s2);
    assert(j[54] == role_name(r1)[0]);
    assert(j[54] == role_name(r2)[0]);
    assert(r1 == r2);
    assert(j.subrange(62 + role_name(r1).len() as int, j.len() - 1) == dec_of(e1));
    assert(j.subrange(62 + role_name(r2).len() as int, j.len() - 1) == dec_of(e2));
    lemma_dec_injective(e1, e2);
}

/// Appends `add` to `out`.
pub fn push_all(out: &mut Vec<u8>, add: &Vec<u8>)
    ensures
        final(out)@ == old(out)@ + add@,
{
    let mut k: usize = 0;
    proof {
        assert(out@ =~= old(out)@ + add@.take(0));
    }
    while k < add.len()
        invariant
            k <= add@.len(),
            out@ == old(out)@ + add@.take(k as int),
        decreases add@.len() - k,
    {
        out.push(add[k]);
        proof {
            assert(old(out)@ + add@.take(k + 1) =~= (old(out)@ + add@.take(k as int)).push(
                add@[k as int],
            ));
        }
        k = k + 1;
    }
    proof {
        assert(add@.take(add@.len() as int) =~= add@);
    }
}

/// Whether `b` holds exactly `lit` starting at `pos`.
pub(crate) fn check_lit(b: &Vec<u8>, pos: usize, lit: &Vec<u8>) -> (r: bool)
    requires
        pos + lit@.len() <= b@.len(),
    ensures
        r == (b@.subrange(pos as int, pos as int + lit@.len() as int) == lit@),
{
    let bn = b.len();
    let ghost piece = b@.subrange(pos as int, pos as int + lit@.len() as int);
    let mut k: usize = 0;
    while k < lit.len()
        invariant
            k <= lit@.len(),
            bn == b@.len(),
            pos + lit@.len() <= bn,
            piece == b@.subrange(pos as int, pos as int + lit@.len() as int),
            forall|m: int| 0 <= m < k ==> piece[m] == lit@[m],
        decreases lit@.len() - k,
    {
        if b[pos + k] != lit[k] {
            proof {
                assert(piece[k as int] == b@[pos + k]);
                assert(piece != lit@);
            }
            return false;
        }
        proof {
            assert(piece[k as int] == b@[pos + k]);
        }
        k = k + 1;
    }
    proof {
        assert(piece =~= lit@);
    }
    true
}

/// The bytes of `b[start..end)` as a fresh vector.
pub(crate) fn copy_range(b: &Vec<u8>, start: usize, end: usize) -> (v: Vec<u8>)
    requires
        start <= end <= b@.len(),
    ensures
        v@ == b@.subrange(start as int, end as int),
{
    let mut v: Vec<u8> = Vec::new();
    let mut k: usize = start;
    while k < end
        invariant
            start <= k <= end <= b@.len(),
            v@ == b@.subrange(start as int, k as int),
        decreases end - k,
    {
        v.push(b[k]);
        proof {
            assert(b@.subrange(start as int, k + 1) =~= b@.subrange(start as int, k as int).push(
                b@[k as int],
            ));
        }
        k = k + 1;
    }
    v
}

/// `lit_obj_head` as a vector.
fn lit_obj_head_vec() -> (v: Vec<u8>)
    ensures
        v@ == lit_obj_head(),
{
    let mut v: Vec<u8> = Vec::new();
    v.push('{' as u8);
    v.push('"' as u8);
    v.push('s' as u8);
    v.push('u' as u8);
    v.push('b' as u8);
    v.push('"' as u8);
    v.push(':' as u8);
    v.push('"' as u8);
    proof {
        assert(v@ =~= lit_obj_head());
    }
    v
}

/// `lit_role_key` as a vector.
fn lit_role_key_vec() -> (v: Vec<u8>)
    ensures
        v@ == lit_role_key(),
{
    let mut v: Vec<u8> = Vec::new();
    v.push('"' as u8);
    v.push(',' as u8);
    v.push('"' as u8);
    v.push('r' as u8);
    v.push('o' as u8);
    v.push('l' as u8);
    v.push('e' as u8);
    v.push('"' as u8);
    v.push(':' as u8);
    v.push('"' as u8);
    proof {
        assert(v@ =~= lit_role_key());
    }
    v
}

/// `lit_exp_key` as a vector.
fn lit_exp_key_vec() -> (v: Vec<u8>)
    ensures
        v@ == lit_exp_key(),
{
    let mut v: Vec<u8> = Vec::new();
    v.push('"' as u8);
    v.push(',' as u8);
    v.push('"' as u8);
    v.push('e' as u8);
    v.push('x' as u8);
    v.push('p' as u8);
    v.push('"' as u8);
    v.push(':' as u8);
    proof {
        assert(v@ =~= lit_exp_key());
    }
    v
}

/// The name of a role as a vector.
pub fn role_name_vec(r: Role) -> (v: Vec<u8>)
    ensures
        v@ == role_name(r),
{
    let mut v: Vec<u8> = Vec::new();
    match r {
        Role::Student => {
            v.push('S' as u8);
            v.push('t' as u8);
            v.push('u' as u8);
            v.push('d' as u8);
            v.push('e' as u8);
            v.push('n' as u8);
            v.push('t' as u8);
        },
        Role::Instructor => {
            v.push('I' as u8);
            v.push('n' as u8);
            v.push('s' as u8);
            v.push('t' as u8);
            v.push('r' as u8);
            v.push('u' as u8);
            v.push('c' as u8);
            v.push('t' as u8);
            v.push('o' as u8);
            v.push('r' as u8);
        },
        Role::Admin => {
            v.push('A' as u8);
            v.push('d' as u8);
            v.push('m' as u8);
            v.push('i' as u8);
            v.push('n' as u8);
        },
    }
    proof {
        assert(v@ =~= role_name(r));
    }
    v
}

/// Writes the canonical claims object.
pub fn emit_claims(subject: &Vec<u8>, role: Role, expiry: i64) -> (v: Vec<u8>)
    requires
        wf_subject(subject@),
        0 <= expiry,
    ensures
        v@ == claims_json_of(subject@, role, expiry as int),
{
    let mut v = lit_obj_head_vec();
    push_all(&mut v, subject);
    let role_key = lit_role_key_vec();
    push_all(&mut v, &role_key);
    let rn = role_name_vec(role);
    push_all(&mut v, &rn);
    let exp_key = lit_exp_key_vec();
    push_all(&mut v, &exp_key);
    let d = dec_digits(expiry as u64);
    push_all(&mut v, &d);
    v.push('}' as u8);
    proof {
        assert(v@ =~= claims_json_of(subject@, role, expiry as int));
    }
    v
}

/// No claims at all — of a well-formed subject, any role, and an
/// expiration an `i64` can hold — have `b` as their claims object.
pub open spec fn no_claims_match(b: Seq<u8>) -> bool {
    forall|sub: Seq<u8>, role: Role, exp: int|
        wf_subject(sub) && 0 <= exp <= i64::MAX ==> b != #[trigger] claims_json_of(sub, role, exp)
}

/// The three role names start with three different bytes, so the byte at
/// the role position pins the role.
proof fn lemma_role_first_pins(role: Role, r0: Role)
    requires
        role_name(role)[0] == role_name(r0)[0],
    ensures
        role == r0,
{
}

/// Too short for any claims object.
proof fn lemma_reject_short(b: Seq<u8>)
    requires
        b.len() < 63,
    ensures
        no_claims_match(b),
{
    assert forall|sub: Seq<u8>, role: Role, exp: int|
        wf_subject(sub) && 0 <= exp <= i64::MAX implies b != claims_json_of(sub, role, exp) by {
        if b == claims_json_of(sub, role, exp) {
            lemma_claims_shape(sub, role, exp);
        }
    }
}

/// The opening literal does not match.
proof fn lemma_reject_head(b: Seq<u8>)
    requires
        8 <= b.len(),
        b.subrange(0, 8) != lit_obj_head(),
    ensures
        no_claims_match(b),
{
    assert forall|sub: Seq<u8>, role: Role, exp: int|
        wf_subject(sub) && 0 <= exp <= i64::MAX implies b != claims_json_of(sub, role, exp) by {
        if b == claims_json_of(sub, role, exp) {
            lemma_claims_shape(sub, role, exp);
        }
    }
}

/// The subject bytes are not a well-formed subject id.
proof fn lemma_reject_subject(b: Seq<u8>)
    requires
        44 <= b.len(),
        !wf_subject(b.subrange(8, 44)),
    ensures
        no_claims_match(b),
{
    assert forall|sub: Seq<u8>, role: Role, exp: int|
        wf_subject(sub) && 0 <= exp <= i64::MAX implies b != claims_json_of(sub, role, exp) by {
        if b == claims_json_of(sub, role, exp) {
            lemma_claims_shape(sub, role, exp);
        }
    }
}

/// The literal between subject and role does not match.
proof fn lemma_reject_role_key(b: Seq<u8>)
    requires
        54 <= b.len(),
        b.subrange(44, 54) != lit_role_key(),
    ensures
        no_claims_match(b),
{
    assert forall|sub: Seq<u8>, role: Role, exp: int|
        wf_subject(sub) && 0 <= exp <= i64::MAX implies b != claims_json_of(sub, role, exp) by {
        if b == claims_json_of(sub, role, exp) {
            lemma_claims_shape(sub, role, exp);
        }
    }
}

/// The byte at the role position starts no role name.
proof fn lemma_reject_role_first(b: Seq<u8>)
    requires
        55 <= b.len(),
        b[54] != ('S' as u8),
        b[54] != ('I' as u8),
        b[54] != ('A' as u8),
    ensures
        no_claims_match(b),
{
    assert forall|sub: Seq<u8>, role: Role, exp: int|
        wf_subject(sub) && 0 <= exp <= i64::MAX implies b != claims_json_of(sub, role, exp) by {
        if b == claims_json_of(sub, role, exp) {
            lemma_claims_shape(sub, role, exp);
            assert(b[54] == role_name(role)[0]);
        }
    }
}

/// The role name that its first byte announces is not there in full.
proof fn lemma_reject_role_name(b: Seq<u8>, r0: Role)
    requires
        55 <= b.len(),
        b[54] == role_name(r0)[0],
        b.len() < 54 + role_name(r0).len() || b.subrange(54, 54 + role_name(r0).len() as int)
            != role_name(r0),
    ensures
        no_claims_match(b),
{
    assert forall|sub: Seq<u8>, role: Role, exp: int|
        wf_subject(sub) && 0 <= exp <= i64::MAX implies b != claims_json_of(sub, role, exp) by {
        if b == claims_json_of(sub, role, exp) {
            lemma_claims_shape(sub, role, exp);
            assert(b[54] == role_name(role)[0]);
            lemma_role_first_pins(role, r0);
        }
    }
}

/// The literal between role and expiration does not match, or the object
/// is too short to hold it and a numeral.
proof fn lemma_reject_exp_key(b: Seq<u8>, r0: Role)
    requires
        55 <= b.len(),
        b[54] == role_name(r0)[0],
        b.len() < 64 + role_name(r0).len() || b.subrange(
            54 + role_name(r0).len() as int,
            62 + role_name(r0).len() as int,
        ) != lit_exp_key(),
    ensures
        no_claims_match(b),
{
    assert forall|sub: Seq<u8>, role: Role, exp: int|
        wf_subject(sub) && 0 <= exp <= i64::MAX implies b != claims_json_of(sub, role, exp) by {
        if b == claims_json_of(sub, role, exp) {
            lemma_claims_shape(sub, role, exp);
            assert(b[54] == role_name(role)[0]);
            lemma_role_first_pins(role, r0);
        }
    }
}

/// The object does not end in a closing brace.
proof fn lemma_reject_close(b: Seq<u8>)
    requires
        1 <= b.len(),
        b[b.len() - 1] != ('}' as u8),
    ensures
        no_claims_match(b),
{
    assert forall|sub: Seq<u8>, role: Role, exp: int|
        wf_subject(sub) && 0 <= exp <= i64::MAX implies b != claims_json_of(sub, role, exp) by {
        if b == claims_json_of(sub, role, exp) {
            lemma_claims_shape(sub, role, exp);
        }
    }
}

/// The bytes before the closing brace are no numeral an `i64` can hold.
proof fn lemma_reject_exp(b: Seq<u8>, r0: Role)
    requires
        55 <= b.len(),
        b[54] == role_name(r0)[0],
        64 + role_name(r0).len() <= b.len(),
        forall|x: int|
            0 <= x <= i64::MAX ==> b.subrange(62 + role_name(r0).len() as int, b.len() - 1)
                != dec_of(x),
    ensures
        no_claims_match(b),
{
    assert forall|sub: Seq<u8>, role: Role, exp: int|
        wf_subject(sub) && 0 <= exp <= i64::MAX implies b != claims_json_of(sub, role, exp) by {
        if b == claims_json_of(sub, role, exp) {
            lemma_claims_shape(sub, role, exp);
            assert(b[54] == role_name(role)[0]);
            lemma_role_first_pins(role, r0);
            assert(b.subrange(62 + role_name(r0).len() as int, b.len() - 1) == dec_of(exp));
        }
    }
}

/// A byte string with all the parts of the canonical claims object in their
/// places is that object.
proof fn lemma_assemble(b: Seq<u8>, sub: Seq<u8>, role: Role, exp: int)
    requires
        wf_subject(sub),
        0 <= exp,
        b.len() == 63 + role_name(role).len() + dec_of(exp).len(),
        b.subrange(0, 8) == lit_obj_head(),
        b.subrange(8, 44) == sub,
        b.subrange(44, 54) == lit_role_key(),
        b.subrange(54, 54 + role_name(role).len() as int) == role_name(role),
        b.subrange(54 + role_name(role).len() as int, 62 + role_name(role).len() as int)
            == lit_exp_key(),
        b.subrange(62 + role_name(role).len() as int, b.len() - 1) == dec_of(exp),
        b[b.len() - 1] == ('}' as u8),
    ensures
        b == claims_json_of(sub, role, exp),
{
    let j = claims_json_of(sub, role, exp);
    let rl = role_name(role).len() as int;
    let n = b.len() as int;
    lemma_claims_shape(sub, role, exp);
    assert forall|k: int| 0 <= k < n implies b[k] == j[k] by {
        if k < 8 {
            assert(b[k] == b.subrange(0, 8)[k]);
            assert(j[k] == j.subrange(0, 8)[k]);
        } else if k < 44 {
            assert(b[k] == b.subrange(8, 44)[k - 8]);
            assert(j[k] == j.subrange(8, 44)[k - 8]);
        } else if k < 54 {
            assert(b[k] == b.subrange(44, 54)[k - 44]);
            assert(j[k] == j.subrange(44, 54)[k - 44]);
        } else if k < 54 + rl {
            assert(b[k] == b.subrange(54, 54 + rl)[k - 54]);
            assert(j[k] == j.subrange(54, 54 + rl)[k - 54]);
        } else if k < 62 + rl {
            assert(b[k] == b.subrange(54 + rl, 62 + rl)[k - 54 - rl]);
            assert(j[k] == j.subrange(54 + rl, 62 + rl)[k - 54 - rl]);
        } else if k < n - 1 {
            assert(b[k] == b.subrange(62 + rl, n - 1)[k - 62 - rl]);
            assert(j[k] == j.subrange(62 + rl, n - 1)[k - 62 - rl]);
        }
    }
    assert(b =~= j);
}

/// Reads a claims object, accepting exactly the canonical spelling of a
/// well-formed subject, a role, and a nonnegative expiration. Exact in both
/// directions: `Some(c)` means the input is the canonical object of `c`;
/// `None` means it is the object of no claims at all.
pub fn parse_claims(b: &Vec<u8>) -> (r: Option<Claims>)
    ensures
        match r {
            Some(c) => {
                &&& wf_subject(c.subject@)
                &&& 0 <= c.expiry
                &&& b@ == claims_json_of(c.subject@, c.role, c.expiry as int)
            },
            None => no_claims_match(b@),
        },
{
    let n = b.len();
    if n < 63 {
        proof {
            lemma_reject_short(b@);
        }
        return None;
    }
    let head = lit_obj_head_vec();
    if !check_lit(b, 0, &head) {
        proof {
            lemma_reject_head(b@);
        }
        return None;
    }
    let subject = copy_range(b, 8, 44);
    if !valid_subject_id(&subject) {
        proof {
            lemma_reject_subject(b@);
        }
        return None;
    }
    let rk = lit_role_key_vec();
    if !check_lit(b, 44, &rk) {
        proof {
            lemma_reject_role_key(b@);
        }
        return None;
    }
    // The role name: the three names begin with three different bytes.
    let first = b[54];
    let role: Role;
    let rl: usize;
    if first == ('S' as u8) {
        let name = role_name_vec(Role::Student);
        if n < 61 || !check_lit(b, 54, &name) {
            proof {
                lemma_reject_role_name(b@, Role::Student);
            }
            return None;
        }
        role = Role::Student;
        rl = 7;
    } else if first == ('I' as u8) {
        let name = role_name_vec(Role::Instructor);
        if n < 64 || !check_lit(b, 54, &name) {
            proof {
                lemma_reject_role_name(b@, Role::Instructor);
            }
            return None;
        }
        role = Role::Instructor;
        rl = 10;
    } else if first == ('A' as u8) {
        let name = role_name_vec(Role::Admin);
        if !check_lit(b, 54, &name) {
            proof {
                lemma_reject_role_name(b@, Role::Admin);
            }
            return None;
        }
        role = Role::Admin;
        rl = 5;
    } else {
        proof {
            lemma_reject_role_first(b@);
        }
        return None;
    }
    let pos = 54 + rl;
    let ek = lit_exp_key_vec();
    if n < pos + 10 || !check_lit(b, pos, &ek) {
        proof {
            lemma_reject_exp_key(b@, role);
        }
        return None;
    }
    if b[n - 1] != ('}' as u8) {
        proof {
            lemma_reject_close(b@);
        }
        return None;
    }
    let expiry = match parse_dec(b, pos + 8, n - 1) {
        Some(x) => x,
        None => {
            proof {
                lemma_reject_exp(b@, role);
            }
            return None;
        },
    };
    proof {
        lemma_assemble(b@, subject@, role, expiry as int);
    }
    Some(Claims { subject, role, expiry })
}

} // verus!
