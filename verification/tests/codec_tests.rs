use authcore::b64::b64_decode;
use authcore::b64::b64_encode;
use authcore::claims::emit_claims;
use authcore::claims::parse_claims;
use authcore::dec::dec_digits;
use authcore::dec::parse_dec;
use authcore::subject::valid_subject_id;
use authcore::types::Role;

fn bytes(s: &str) -> Vec<u8> {
    s.as_bytes().to_vec()
}

#[test]
fn b64_known_vectors() {
    assert_eq!(b64_encode(&bytes("")), bytes(""));
    assert_eq!(b64_encode(&bytes("f")), bytes("Zg"));
    assert_eq!(b64_encode(&bytes("fo")), bytes("Zm8"));
    assert_eq!(b64_encode(&bytes("foo")), bytes("Zm9v"));
    assert_eq!(b64_encode(&bytes("foob")), bytes("Zm9vYg"));
    assert_eq!(b64_encode(&bytes("fooba")), bytes("Zm9vYmE"));
    assert_eq!(b64_encode(&bytes("foobar")), bytes("Zm9vYmFy"));
}

#[test]
fn b64_url_safe_alphabet() {
    // 0xfb 0xff encodes with the two url-safe digits.
    let v = vec![0xfbu8, 0xff];
    let e = b64_encode(&v);
    assert_eq!(e, bytes("-_8"));
    assert_eq!(b64_decode(&e), Some(v));
}

#[test]
fn b64_round_trip_all_lengths() {
    for n in 0..64usize {
        let v: Vec<u8> = (0..n).map(|i| (i * 37 % 256) as u8).collect();
        let e = b64_encode(&v);
        assert_eq!(b64_decode(&e), Some(v));
    }
}

#[test]
fn b64_rejects_padding_and_bad_lengths() {
    assert_eq!(b64_decode(&bytes("Zg==")), None); // padding is not accepted
    assert_eq!(b64_decode(&bytes("A")), None); // impossible length
    assert_eq!(b64_decode(&bytes("AAAAA")), None); // impossible length
    assert_eq!(b64_decode(&bytes("$$$$")), None); // not the alphabet
    assert_eq!(b64_decode(&bytes("a.b.")), None); // dots are not digits
}

#[test]
fn b64_rejects_noncanonical_trailing_bits() {
    // "Zg" is canonical for [0x66]; "Zh" carries nonzero unused bits.
    assert_eq!(b64_decode(&bytes("Zg")), Some(vec![0x66u8]));
    assert_eq!(b64_decode(&bytes("Zh")), None);
    // "Zm9" is canonical for [0x66, 0x6f]; "Zm8" is too ("8" is 60), but
    // "Zm+" is not the url-safe alphabet.
    assert_eq!(b64_decode(&bytes("Zm+")), None);
}

#[test]
fn decimal_round_trip_and_bounds() {
    for &n in &[0u64, 1, 9, 10, 99, 100, 1234567890, u64::from(u32::MAX)] {
        let d = dec_digits(n);
        let parsed = parse_dec(&d, 0, d.len());
        assert_eq!(parsed, Some(n as i64));
    }
    let max = dec_digits(i64::MAX as u64);
    assert_eq!(String::from_utf8(max.clone()).unwrap(), "9223372036854775807");
    assert_eq!(parse_dec(&max, 0, max.len()), Some(i64::MAX));
}

#[test]
fn decimal_rejects_noncanonical() {
    let lead = bytes("0123");
    assert_eq!(parse_dec(&lead, 0, lead.len()), None);
    let empty = bytes("");
    assert_eq!(parse_dec(&empty, 0, 0), None);
    let sign = bytes("-5");
    assert_eq!(parse_dec(&sign, 0, sign.len()), None);
    let over = bytes("9223372036854775808"); // one past the largest i64
    assert_eq!(parse_dec(&over, 0, over.len()), None);
    let huge = bytes("99999999999999999999"); // twenty digits
    assert_eq!(parse_dec(&huge, 0, huge.len()), None);
}

#[test]
fn subject_id_shape() {
    assert!(valid_subject_id(&bytes("550e8400-e29b-41d4-a716-446655440000")));
    assert!(valid_subject_id(&bytes("00000000-0000-0000-0000-000000000000")));
    // Uppercase digits are not the canonical form.
    assert!(!valid_subject_id(&bytes("550E8400-E29B-41D4-A716-446655440000")));
    // A separator out of place.
    assert!(!valid_subject_id(&bytes("550e8400e-29b-41d4-a716-446655440000")));
    // Too short, too long.
    assert!(!valid_subject_id(&bytes("550e8400-e29b-41d4-a716-44665544000")));
    assert!(!valid_subject_id(&bytes("550e8400-e29b-41d4-a716-4466554400000")));
}

#[test]
fn claims_canonical_spelling() {
    let sub = bytes("550e8400-e29b-41d4-a716-446655440000");
    let j = emit_claims(&sub, Role::Student, 1234567890);
    assert_eq!(
        String::from_utf8(j.clone()).unwrap(),
        "{\"sub\":\"550e8400-e29b-41d4-a716-446655440000\",\"role\":\"Student\",\"exp\":1234567890}"
    );
    let c = parse_claims(&j).unwrap();
    assert_eq!(c.subject, sub);
    assert_eq!(c.role, Role::Student);
    assert_eq!(c.expiry, 1234567890);
}

#[test]
fn claims_all_roles_round_trip() {
    let sub = bytes("00000000-0000-4000-8000-000000000001");
    for &role in &[Role::Student, Role::Instructor, Role::Admin] {
        let j = emit_claims(&sub, role, 0);
        let c = parse_claims(&j).unwrap();
        assert_eq!(c.subject, sub);
        assert_eq!(c.role, role);
        assert_eq!(c.expiry, 0);
    }
}

#[test]
fn claims_reject_other_spellings() {
    // The same data with the fields reordered is not the canonical object.
    let reordered = bytes(
        "{\"role\":\"Student\",\"sub\":\"550e8400-e29b-41d4-a716-446655440000\",\"exp\":1}",
    );
    assert!(parse_claims(&reordered).is_none());
    // Whitespace is not accepted.
    let spaced = bytes(
        "{\"sub\": \"550e8400-e29b-41d4-a716-446655440000\",\"role\":\"Student\",\"exp\":1}",
    );
    assert!(parse_claims(&spaced).is_none());
    // A role name with the wrong case is not one of the closed enumeration.
    let lowercase_role = bytes(
        "{\"sub\":\"550e8400-e29b-41d4-a716-446655440000\",\"role\":\"student\",\"exp\":1}",
    );
    assert!(parse_claims(&lowercase_role).is_none());
    // A negative expiration is rejected at the structural check.
    let negative = bytes(
        "{\"sub\":\"550e8400-e29b-41d4-a716-446655440000\",\"role\":\"Student\",\"exp\":-1}",
    );
    assert!(parse_claims(&negative).is_none());
}
