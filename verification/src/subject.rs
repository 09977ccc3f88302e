use vstd::prelude::*;

verus! {

/// A lowercase hexadecimal digit, the only digits the canonical subject
/// id form uses.
pub open spec fn is_hex_lower(b: u8) -> bool {
    (('0' as u8) <= b && b <= ('9' as u8)) || (('a' as u8) <= b && b <= ('f' as u8))
}

/// What the canonical subject id form demands of its byte at position `i`:
/// a separator at the four separator positions, a lowercase hexadecimal
/// digit everywhere else.
pub open spec fn subject_byte_ok(s: Seq<u8>, i: int) -> bool {
    if i == 8 || i == 13 || i == 18 || i == 23 {
        s[i] == ('-' as u8)
    } else {
        is_hex_lower(s[i])
    }
}

/// Well-formed subject identifier: the canonical 36-byte text form of a
/// 128-bit unique id — 32 lowercase hexadecimal digits with separators
/// after the 8th, 12th, 16th and 20th digit.
pub open spec fn wf_subject(s: Seq<u8>) -> bool {
    &&& s.len() == 36
    &&& forall|i: int| 0 <= i < 36 ==> #[trigger] subject_byte_ok(s, i)
}

/// Checks that `s` is a well-formed subject identifier.
pub fn valid_subject_id(s: &Vec<u8>) -> (r: bool)
    ensures
        r == wf_subject(s@),
{
    if s.len() != 36 {
        return false;
    }
    let mut i: usize = 0;
    while i < 36
        invariant
            i <= 36,
            s@.len() == 36,
            forall|j: int| 0 <= j < i ==> #[trigger] subject_byte_ok(s@, j),
        decreases 36 - i,
    {
        let b = s[i];
        if i == 8 || i == 13 || i == 18 || i == 23 {
            if b != ('-' as u8) {
                assert(!subject_byte_ok(s@, i as int));
                return false;
            }
        } else {
            if !((('0' as u8) <= b && b <= ('9' as u8)) || (('a' as u8) <= b && b <= ('f' as u8))) {
                assert(!subject_byte_ok(s@, i as int));
                return false;
            }
        }
        i = i + 1;
    }
    true
}

/// A fresh copy of a byte string.
pub fn clone_bytes(v: &Vec<u8>) -> (r: Vec<u8>)
    ensures
        r@ == v@,
{
    let mut r: Vec<u8> = Vec::new();
    let mut i: usize = 0;
    while i < v.len()
        invariant
            i <= v@.len(),
            r@ == v@.take(i as int),
        decreases v@.len() - i,
    {
        r.push(v[i]);
        proof {
            assert(v@.take(i + 1) =~= v@.take(i as int).push(v@[i as int]));
        }
        i = i + 1;
    }
    proof {
        assert(v@.take(v@.len() as int) =~= v@);
    }
    r
}

/// Byte-for-byte equality of two byte strings; in particular of two
/// subject ids, the sole authorization relation between a resource and
/// an identity.
pub fn bytes_eq(a: &Vec<u8>, b: &Vec<u8>) -> (r: bool)
    ensures
        r == (a@ == b@),
{
    if a.len() != b.len() {
        assert(a@ != b@);
        return false;
    }
    let mut i: usize = 0;
    while i < a.len()
        invariant
            i <= a@.len(),
            a@.len() == b@.len(),
            forall|j: int| 0 <= j < i ==> a@[j] == b@[j],
        decreases a@.len() - i,
    {
        if a[i] != b[i] {
            assert(a@ != b@);
            return false;
        }
        i = i + 1;
    }
    assert(a@ =~= b@);
    true
}

} // verus!
