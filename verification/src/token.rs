//! Stateless identity tokens: three base64url segments joined by dots —
//! a fixed header, the claims object, and the HMAC-SHA256 signature of the
//! first two segments under the shared secret. `issue` builds exactly
//! `token_of`; `verify_token` accepts exactly the unexpired images of
//! `token_of` and yields back the claims they were built from.

use vstd::prelude::*;

use crate::b64::b64_decode;
use crate::b64::b64_encode;
use crate::b64::b64_of;
use crate::b64::is_b64_byte;
use crate::b64::lemma_b64_all_alphabet;
use crate::b64::lemma_b64_injective;
use crate::b64::lemma_b64_len;
use crate::claims::check_lit;
use crate::claims::claims_json_of;
use crate::claims::copy_range;
use crate::claims::emit_claims;
use crate::claims::lemma_claims_json_injective;
use crate::claims::lemma_claims_shape;
use crate::claims::no_claims_match;
use crate::claims::parse_claims;
use crate::claims::push_all;
use crate::hs256::hs256_check;
use crate::hs256::hs256_sig_of;
use crate::hs256::hs256_sign;
use crate::subject::wf_subject;
use crate::types::AuthError;
use crate::types::Role;
use crate::types::VerifiedCaller;

verus! {

/// A token is valid for this many seconds from issuance: 24 hours, fixed.
pub const TOKEN_TTL_SECS: i64 = 86400;

/// The fixed token header, `{"typ":"JWT","alg":"HS256"}`.
pub open spec fn header_json() -> Seq<u8> {
    seq![
        '{' as u8,
        '"' as u8,
        't' as u8,
        'y' as u8,
        'p' as u8,
        '"' as u8,
        ':' as u8,
        '"' as u8,
        'J' as u8,
        'W' as u8,
        'T' as u8,
        '"' as u8,
        ',' as u8,
        '"' as u8,
        'a' as u8,
        'l' as u8,
        'g' as u8,
        '"' as u8,
        ':' as u8,
        '"' as u8,
        'H' as u8,
        'S' as u8,
        '2' as u8,
        '5' as u8,
        '6' as u8,
        '"' as u8,
        '}' as u8,
    ]
}

/// The part of a token that gets signed: encoded header, dot, encoded
/// claims object.
pub open spec fn signing_input_of(sub: Seq<u8>, role: Role, exp: int) -> Seq<u8> {
    b64_of(header_json()) + seq!['.' as u8] + b64_of(claims_json_of(sub, role, exp))
}

/// The one token for a subject, role, expiration and secret: the signing
/// input, a dot, and its signature.
pub open spec fn token_of(sub: Seq<u8>, role: Role, exp: int, secret: Seq<u8>) -> Seq<u8> {
    signing_input_of(sub, role, exp) + seq!['.' as u8] + hs256_sig_of(
        signing_input_of(sub, role, exp),
        secret,
    )
}

/// No claims an `i64` expiration can hold have `t` as their token under
/// `secret`.
pub open spec fn no_token_match(t: Seq<u8>, secret: Seq<u8>) -> bool {
    forall|sub: Seq<u8>, role: Role, e: int|
        wf_subject(sub) && 0 <= e <= i64::MAX ==> t != #[trigger] token_of(sub, role, e, secret)
}

/// Where each part of a token stands: the 36-digit header segment, the
/// dots, the claims segment (at least 92 digits, none of them a dot), and
/// the signature tail.
pub proof fn lemma_token_shape(sub: Seq<u8>, role: Role, exp: int, secret: Seq<u8>)
    requires
        sub.len() == 36,
        0 <= exp,
    ensures
        b64_of(header_json()).len() == 36,
        b64_of(claims_json_of(sub, role, exp)).len() >= 92,
        token_of(sub, role, exp, secret).len() == 38 + b64_of(claims_json_of(sub, role, exp)).len()
            + hs256_sig_of(signing_input_of(sub, role, exp), secret).len(),
        token_of(sub, role, exp, secret).subrange(0, 36) == b64_of(header_json()),
        token_of(sub, role, exp, secret)[36] == ('.' as u8),
        token_of(sub, role, exp, secret).subrange(
            37,
            37 + b64_of(claims_json_of(sub, role, exp)).len() as int,
        ) == b64_of(claims_json_of(sub, role, exp)),
        token_of(sub, role, exp, secret)[37 + b64_of(claims_json_of(sub, role, exp)).len() as int]
            == ('.' as u8),
        token_of(sub, role, exp, secret).subrange(
            38 + b64_of(claims_json_of(sub, role, exp)).len() as int,
            token_of(sub, role, exp, secret).len() as int,
        ) == hs256_sig_of(signing_input_of(sub, role, exp), secret),
        token_of(sub, role, exp, secret).subrange(
            0,
            37 + b64_of(claims_json_of(sub, role, exp)).len() as int,
        ) == signing_input_of(sub, role, exp),
        forall|j: int|
            37 <= j < 37 + b64_of(claims_json_of(sub, role, exp)).len() ==> #[trigger] token_of(
                sub,
                role,
                exp,
                secret,
            )[j] != ('.' as u8),
{
    lemma_claims_shape(sub, role, exp);
    let cj = claims_json_of(sub, role, exp);
    let hb = b64_of(header_json());
    let cb = b64_of(cj);
    let si = signing_input_of(sub, role, exp);
    let g = hs256_sig_of(si, secret);
    let t = token_of(sub, role, exp, secret);
    let cl = cb.len() as int;
    lemma_b64_len(header_json());
    assert(header_json().len() == 27);
    assert(hb.len() == 36);
    lemma_b64_len(cj);
    assert(cj.len() >= 69);
    assert(cb.len() >= 92);
    assert(t.len() == 38 + cl + g.len());
    assert(t.subrange(0, 36) =~= hb);
    assert(t.subrange(37, 37 + cl) =~= cb);
    assert(t.subrange(38 + cl, t.len() as int) =~= g);
    assert(t.subrange(0, 37 + cl) =~= si);
    lemma_b64_all_alphabet(cj);
    assert forall|j: int| 37 <= j < 37 + cl implies #[trigger] t[j] != ('.' as u8) by {
        assert(t[j] == cb[j - 37]);
        assert(is_b64_byte(cb[j - 37]));
    }
}

/// Any dot after the header segment with no dot before it stands exactly
/// where the claims segment ends.
proof fn lemma_token_dot_pins(
    t: Seq<u8>,
    secret: Seq<u8>,
    sub: Seq<u8>,
    role: Role,
    e: int,
    d2: int,
)
    requires
        wf_subject(sub),
        0 <= e,
        t == token_of(sub, role, e, secret),
        37 <= d2 < t.len(),
        t[d2] == ('.' as u8),
        forall|j: int| 37 <= j < d2 ==> t[j] != ('.' as u8),
    ensures
        d2 == 37 + b64_of(claims_json_of(sub, role, e)).len(),
{
    lemma_token_shape(sub, role, e, secret);
    let cl = b64_of(claims_json_of(sub, role, e)).len() as int;
    if d2 < 37 + cl {
        assert(t[d2] != ('.' as u8));
    }
    if d2 > 37 + cl {
        assert(t[37 + cl] == ('.' as u8));
    }
}

/// No two distinct claims share a token under one secret.
pub proof fn lemma_token_injective(
    s1: Seq<u8>,
    r1: Role,
    e1: int,
    s2: Seq<u8>,
    r2: Role,
    e2: int,
    secret: Seq<u8>,
)
    requires
        s1.len() == 36,
        s2.len() == 36,
        0 <= e1,
        0 <= e2,
        token_of(s1, r1, e1, secret) == token_of(s2, r2, e2, secret),
    ensures
        s1 == s2,
        r1 == r2,
        e1 == e2,
{
    lemma_token_shape(s1, r1, e1, secret);
    lemma_token_shape(s2, r2, e2, secret);
    let t = token_of(s1, r1, e1, secret);
    let cl1 = b64_of(claims_json_of(s1, r1, e1)).len() as int;
    let cl2 = b64_of(claims_json_of(s2, r2, e2)).len() as int;
    if cl1 < cl2 {
        assert(t[37 + cl1] == ('.' as u8));
        assert(t[37 + cl1] != ('.' as u8));
    }
    if cl2 < cl1 {
        assert(t[37 + cl2] == ('.' as u8));
        assert(t[37 + cl2] != ('.' as u8));
    }
    assert(cl1 == cl2);
    assert(b64_of(claims_json_of(s1, r1, e1)) == b64_of(claims_json_of(s2, r2, e2)));
    lemma_b64_injective(claims_json_of(s1, r1, e1), claims_json_of(s2, r2, e2));
    lemma_claims_json_injective(s1, r1, e1, s2, r2, e2);
}

/// A byte string with a token's parts in their places is that token.
proof fn lemma_token_assemble(
    t: Seq<u8>,
    secret: Seq<u8>,
    sub: Seq<u8>,
    role: Role,
    e: int,
    d2: int,
)
    requires
        wf_subject(sub),
        0 <= e,
        37 <= d2 < t.len(),
        t.subrange(0, 36) == b64_of(header_json()),
        t[36] == ('.' as u8),
        t.subrange(37, d2) == b64_of(claims_json_of(sub, role, e)),
        t[d2] == ('.' as u8),
        t.subrange(d2 + 1, t.len() as int) == hs256_sig_of(t.subrange(0, d2), secret),
    ensures
        t == token_of(sub, role, e, secret),
{
    lemma_token_shape(sub, role, e, secret);
    let si = signing_input_of(sub, role, e);
    let cl = b64_of(claims_json_of(sub, role, e)).len() as int;
    assert(d2 == 37 + cl);
    assert forall|k: int| 0 <= k < d2 implies t[k] == si[k] by {
        if k < 36 {
            assert(t[k] == t.subrange(0, 36)[k]);
            assert(si[k] == b64_of(header_json())[k]);
        } else if k >= 37 {
            assert(t[k] == t.subrange(37, d2)[k - 37]);
            assert(si[k] == b64_of(claims_json_of(sub, role, e))[k - 37]);
        }
    }
    assert(t.subrange(0, d2) =~= si);
    let tok = token_of(sub, role, e, secret);
    assert forall|k: int| 0 <= k < t.len() implies t[k] == tok[k] by {
        if k < d2 {
            assert(tok[k] == si[k]);
            assert(t[k] == t.subrange(0, d2)[k]);
        } else if k > d2 {
            assert(t[k] == t.subrange(d2 + 1, t.len() as int)[k - d2 - 1]);
            assert(tok[k] == hs256_sig_of(si, secret)[k - d2 - 1]);
        }
    }
    assert(t =~= tok);
}

/// Too short for any token.
proof fn lemma_reject_token_short(t: Seq<u8>, secret: Seq<u8>)
    requires
        t.len() < 130,
    ensures
        no_token_match(t, secret),
{
    assert forall|sub: Seq<u8>, role: Role, e: int|
        wf_subject(sub) && 0 <= e <= i64::MAX implies t != token_of(sub, role, e, secret) by {
        if t == token_of(sub, role, e, secret) {
            lemma_token_shape(sub, role, e, secret);
        }
    }
}

/// The header segment or the dot after it does not match.
proof fn lemma_reject_token_header(t: Seq<u8>, secret: Seq<u8>)
    requires
        37 <= t.len(),
        t.subrange(0, 36) != b64_of(header_json()) || t[36] != ('.' as u8),
    ensures
        no_token_match(t, secret),
{
    assert forall|sub: Seq<u8>, role: Role, e: int|
        wf_subject(sub) && 0 <= e <= i64::MAX implies t != token_of(sub, role, e, secret) by {
        if t == token_of(sub, role, e, secret) {
            lemma_token_shape(sub, role, e, secret);
        }
    }
}

/// No dot separates a claims segment from a signature.
proof fn lemma_reject_token_nodot(t: Seq<u8>, secret: Seq<u8>)
    requires
        forall|j: int| 37 <= j < t.len() ==> t[j] != ('.' as u8),
    ensures
        no_token_match(t, secret),
{
    assert forall|sub: Seq<u8>, role: Role, e: int|
        wf_subject(sub) && 0 <= e <= i64::MAX implies t != token_of(sub, role, e, secret) by {
        if t == token_of(sub, role, e, secret) {
            lemma_token_shape(sub, role, e, secret);
            let cl = b64_of(claims_json_of(sub, role, e)).len() as int;
            assert(t[37 + cl] == ('.' as u8));
        }
    }
}

/// The claims segment is not a base64url encoding at all.
proof fn lemma_reject_token_claims_b64(t: Seq<u8>, secret: Seq<u8>, d2: int)
    requires
        37 <= d2 < t.len(),
        t[d2] == ('.' as u8),
        forall|j: int| 37 <= j < d2 ==> t[j] != ('.' as u8),
        forall|v: Seq<u8>| t.subrange(37, d2) != b64_of(v),
    ensures
        no_token_match(t, secret),
{
    assert forall|sub: Seq<u8>, role: Role, e: int|
        wf_subject(sub) && 0 <= e <= i64::MAX implies t != token_of(sub, role, e, secret) by {
        if t == token_of(sub, role, e, secret) {
            lemma_token_dot_pins(t, secret, sub, role, e, d2);
            lemma_token_shape(sub, role, e, secret);
            assert(t.subrange(37, d2) == b64_of(claims_json_of(sub, role, e)));
        }
    }
}

/// The claims segment decodes, but not to any claims object.
proof fn lemma_reject_token_claims_parse(t: Seq<u8>, secret: Seq<u8>, d2: int, cb: Seq<u8>)
    requires
        37 <= d2 < t.len(),
        t[d2] == ('.' as u8),
        forall|j: int| 37 <= j < d2 ==> t[j] != ('.' as u8),
        t.subrange(37, d2) == b64_of(cb),
        no_claims_match(cb),
    ensures
        no_token_match(t, secret),
{
    assert forall|sub: Seq<u8>, role: Role, e: int|
        wf_subject(sub) && 0 <= e <= i64::MAX implies t != token_of(sub, role, e, secret) by {
        if t == token_of(sub, role, e, secret) {
            lemma_token_dot_pins(t, secret, sub, role, e, d2);
            lemma_token_shape(sub, role, e, secret);
            assert(t.subrange(37, d2) == b64_of(claims_json_of(sub, role, e)));
            lemma_b64_injective(cb, claims_json_of(sub, role, e));
        }
    }
}

/// The signature tail is not the signature of the signing input.
proof fn lemma_reject_token_sig(t: Seq<u8>, secret: Seq<u8>, d2: int)
    requires
        37 <= d2 < t.len(),
        t[d2] == ('.' as u8),
        forall|j: int| 37 <= j < d2 ==> t[j] != ('.' as u8),
        t.subrange(d2 + 1, t.len() as int) != hs256_sig_of(t.subrange(0, d2), secret),
    ensures
        no_token_match(t, secret),
{
    assert forall|sub: Seq<u8>, role: Role, e: int|
        wf_subject(sub) && 0 <= e <= i64::MAX implies t != token_of(sub, role, e, secret) by {
        if t == token_of(sub, role, e, secret) {
            lemma_token_dot_pins(t, secret, sub, role, e, d2);
            lemma_token_shape(sub, role, e, secret);
            let cl = b64_of(claims_json_of(sub, role, e)).len() as int;
            assert(t.subrange(0, d2) == signing_input_of(sub, role, e));
            assert(t.subrange(d2 + 1, t.len() as int) == hs256_sig_of(
                signing_input_of(sub, role, e),
                secret,
            ));
        }
    }
}

/// The fixed token header as a vector.
fn header_json_vec() -> (v: Vec<u8>)
    ensures
        v@ == header_json(),
{
    let mut v: Vec<u8> = Vec::new();
    v.push('{' as u8);
    v.push('"' as u8);
    v.push('t' as u8);
    v.push('y' as u8);
    v.push('p' as u8);
    v.push('"' as u8);
    v.push(':' as u8);
    v.push('"' as u8);
    v.push('J' as u8);
    v.push('W' as u8);
    v.push('T' as u8);
    v.push('"' as u8);
    v.push(',' as u8);
    v.push('"' as u8);
    v.push('a' as u8);
    v.push('l' as u8);
    v.push('g' as u8);
    v.push('"' as u8);
    v.push(':' as u8);
    v.push('"' as u8);
    v.push('H' as u8);
    v.push('S' as u8);
    v.push('2' as u8);
    v.push('5' as u8);
    v.push('6' as u8);
    v.push('"' as u8);
    v.push('}' as u8);
    proof {
        assert(v@ =~= header_json());
    }
    v
}

/// The first dot in `b` at or after `start`.
fn find_dot_from(b: &Vec<u8>, start: usize) -> (r: Option<usize>)
    requires
        start <= b@.len(),
    ensures
        match r {
            Some(d) => start <= d < b@.len() && b@[d as int] == ('.' as u8) && forall|j: int|
                start <= j < d ==> b@[j] != ('.' as u8),
            None => forall|j: int| start <= j < b@.len() ==> b@[j] != ('.' as u8),
        },
{
    let n = b.len();
    let mut k: usize = start;
    while k < n
        invariant
            start <= k <= n,
            n == b@.len(),
            forall|j: int| start <= j < k ==> b@[j] != ('.' as u8),
        decreases n - k,
    {
        if b[k] == ('.' as u8) {
            return Some(k);
        }
        k = k + 1;
    }
    None
}

/// Issues the token for a verified identity: claims `(subject, role,
/// now + 24h)`, signed with the shared secret. Signing through the trusted
/// HMAC primitive cannot fail, so neither can issuance.
pub fn issue(subject: &Vec<u8>, role: Role, now: i64, secret: &Vec<u8>) -> (t: Vec<u8>)
    requires
        wf_subject(subject@),
        0 <= now,
        now + TOKEN_TTL_SECS <= i64::MAX,
    ensures
        t@ == token_of(subject@, role, now + TOKEN_TTL_SECS as int, secret@),
{
    let exp = now + TOKEN_TTL_SECS;
    let hv = header_json_vec();
    let mut t = b64_encode(&hv);
    t.push('.' as u8);
    let cj = emit_claims(subject, role, exp);
    let cb = b64_encode(&cj);
    push_all(&mut t, &cb);
    proof {
        assert(t@ =~= signing_input_of(subject@, role, exp as int));
    }
    let sig = hs256_sign(&t, secret);
    t.push('.' as u8);
    push_all(&mut t, &sig);
    proof {
        assert(t@ =~= token_of(subject@, role, now + TOKEN_TTL_SECS as int, secret@));
    }
    t
}

/// Verifies a token against the shared secret and the current time, in the
/// fixed order: signature, structure, expiry — any failure is the one
/// terminal `Unauthenticated`, with nothing to distinguish its cause.
/// Exact in both directions: acceptance yields the claims of the one token
/// image the bytes are, and every unexpired image is accepted.
pub fn verify_token(token: &Vec<u8>, secret: &Vec<u8>, now: i64) -> (r: Result<
    VerifiedCaller,
    AuthError,
>)
    ensures
        (r matches Err(e) ==> e == AuthError::Unauthenticated),
        (r matches Ok(v) ==> wf_subject(v.subject@) && exists|e: int|
            0 <= e <= i64::MAX && now < e && token@ == token_of(v.subject@, v.role, e, secret@)),
        forall|sub: Seq<u8>, role: Role, e: int|
            (wf_subject(sub) && 0 <= e <= i64::MAX && token@ == #[trigger] token_of(
                sub,
                role,
                e,
                secret@,
            )) ==> (((now < e) <==> r is Ok) && (r matches Ok(v) ==> v.subject@ == sub && v.role
                == role)),
{
    let n = token.len();
    if n < 130 {
        proof {
            lemma_reject_token_short(token@, secret@);
        }
        return Err(AuthError::Unauthenticated);
    }
    let hv = header_json_vec();
    let hb = b64_encode(&hv);
    proof {
        lemma_b64_len(header_json());
        assert(hb@.len() == 36);
    }
    if !check_lit(token, 0, &hb) {
        proof {
            lemma_reject_token_header(token@, secret@);
        }
        return Err(AuthError::Unauthenticated);
    }
    if token[36] != ('.' as u8) {
        proof {
            lemma_reject_token_header(token@, secret@);
        }
        return Err(AuthError::Unauthenticated);
    }
    let d2 = match find_dot_from(token, 37) {
        Some(d) => d,
        None => {
            proof {
                lemma_reject_token_nodot(token@, secret@);
            }
            return Err(AuthError::Unauthenticated);
        },
    };
    let signing_input = copy_range(token, 0, d2);
    let sig_seg = copy_range(token, d2 + 1, n);
    if !hs256_check(&sig_seg, &signing_input, secret) {
        proof {
            lemma_reject_token_sig(token@, secret@, d2 as int);
        }
        return Err(AuthError::Unauthenticated);
    }
    let claims_seg = copy_range(token, 37, d2);
    let cb = match b64_decode(&claims_seg) {
        Some(u) => u,
        None => {
            proof {
                lemma_reject_token_claims_b64(token@, secret@, d2 as int);
            }
            return Err(AuthError::Unauthenticated);
        },
    };
    let c = match parse_claims(&cb) {
        Some(c) => c,
        None => {
            proof {
                lemma_reject_token_claims_parse(token@, secret@, d2 as int, cb@);
            }
            return Err(AuthError::Unauthenticated);
        },
    };
    proof {
        lemma_token_assemble(
            token@,
            secret@,
            c.subject@,
            c.role,
            c.expiry as int,
            d2 as int,
        );
        assert forall|sub: Seq<u8>, role: Role, e: int|
            (wf_subject(sub) && 0 <= e <= i64::MAX && token@ == #[trigger] token_of(
                sub,
                role,
                e,
                secret@,
            )) implies (sub == c.subject@ && role == c.role && e == c.expiry as int) by {
            lemma_token_injective(
                sub,
                role,
                e,
                c.subject@,
                c.role,
                c.expiry as int,
                secret@,
            );
        }
    }
    let ghost subj = c.subject@;
    let ghost ro = c.role;
    let ghost ex = c.expiry as int;
    if now < c.expiry {
        let caller = VerifiedCaller { subject: c.subject, role: c.role };
        proof {
            assert(caller.subject@ == subj && caller.role == ro);
            assert(0 <= ex <= i64::MAX && now < ex && token@ == token_of(subj, ro, ex, secret@));
            assert(exists|e: int|
                0 <= e <= i64::MAX && now < e && token@ == token_of(
                    caller.subject@,
                    caller.role,
                    e,
                    secret@,
                ));
        }
        Ok(caller)
    } else {
        Err(AuthError::Unauthenticated)
    }
}

/// The `Bearer ` marker that must open the authorization header.
pub open spec fn bearer_prefix() -> Seq<u8> {
    seq!['B' as u8, 'e' as u8, 'a' as u8, 'r' as u8, 'e' as u8, 'r' as u8, ' ' as u8]
}

/// The token part of an authorization header: everything after `Bearer `.
/// `None` when the marker is absent.
pub fn extract_bearer(header: &Vec<u8>) -> (r: Option<Vec<u8>>)
    ensures
        match r {
            Some(t) => header@.len() >= 7 && header@.subrange(0, 7) == bearer_prefix() && t@
                == header@.skip(7),
            None => header@.len() < 7 || header@.subrange(0, 7) != bearer_prefix(),
        },
{
    let n = header.len();
    if n < 7 {
        return None;
    }
    let mut marker: Vec<u8> = Vec::new();
    marker.push('B' as u8);
    marker.push('e' as u8);
    marker.push('a' as u8);
    marker.push('r' as u8);
    marker.push('e' as u8);
    marker.push('r' as u8);
    marker.push(' ' as u8);
    proof {
        assert(marker@ =~= bearer_prefix());
    }
    if !check_lit(header, 0, &marker) {
        return None;
    }
    let t = copy_range(header, 7, n);
    proof {
        assert(header@.subrange(7, n as int) =~= header@.skip(7));
    }
    Some(t)
}

/// The checkpoint in front of every protected operation: takes the raw
/// `Authorization` header (or its absence), the shared secret and the
/// current time, and yields the verified caller. An absent or malformed
/// header fails exactly as an invalid token does, so a caller cannot tell
/// the two apart.
pub fn authenticate(header: Option<&Vec<u8>>, secret: &Vec<u8>, now: i64) -> (r: Result<
    VerifiedCaller,
    AuthError,
>)
    ensures
        (r matches Err(e) ==> e == AuthError::Unauthenticated),
        (r matches Ok(v) ==> (header matches Some(h) && (wf_subject(v.subject@) && h@.len() >= 7
            && h@.subrange(0, 7) == bearer_prefix() && exists|e: int|
            0 <= e <= i64::MAX && now < e && h@.skip(7) == token_of(
                v.subject@,
                v.role,
                e,
                secret@,
            )))),
        forall|sub: Seq<u8>, role: Role, e: int|
            (header matches Some(h) && h@.len() >= 7 && h@.subrange(0, 7) == bearer_prefix()
                && wf_subject(sub) && 0 <= e <= i64::MAX && h@.skip(7) == #[trigger] token_of(
                sub,
                role,
                e,
                secret@,
            )) ==> (((now < e) <==> r is Ok) && (r matches Ok(v) ==> v.subject@ == sub && v.role
                == role)),
{
    let h = match header {
        Some(h) => h,
        None => {
            return Err(AuthError::Unauthenticated);
        },
    };
    let token = match extract_bearer(h) {
        Some(t) => t,
        None => {
            return Err(AuthError::Unauthenticated);
        },
    };
    verify_token(&token, secret, now)
}

} // verus!
