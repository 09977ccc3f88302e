//! Unpadded base64url: the encoding of the token's segments (RFC 4648 §5,
//! without `=` padding). Encoding is canonical — decoding accepts exactly
//! the strings the encoder produces, so each segment determines its bytes
//! and the bytes determine their segment.

use vstd::prelude::*;

verus! {

/// The base64url alphabet: value `v` (0 to 63) as its digit byte.
pub open spec fn b64_char(v: int) -> u8
    recommends
        0 <= v < 64,
{
    if v < 26 {
        (v + 'A' as u8) as u8
    } else if v < 52 {
        (v - 26 + 'a' as u8) as u8
    } else if v < 62 {
        (v - 52 + '0' as u8) as u8
    } else if v == 62 {
        '-' as u8
    } else {
        '_' as u8
    }
}

/// Whether `c` is a digit of the base64url alphabet.
pub open spec fn is_b64_byte(c: u8) -> bool {
    ||| ('A' as u8) <= c <= ('Z' as u8)
    ||| ('a' as u8) <= c <= ('z' as u8)
    ||| ('0' as u8) <= c <= ('9' as u8)
    ||| c == ('-' as u8)
    ||| c == ('_' as u8)
}

/// The unpadded base64url encoding of a byte string: full three-byte groups
/// become four digits; a trailing byte becomes two digits, a trailing pair
/// three, each with its unused low bits zero.
pub open spec fn b64_of(s: Seq<u8>) -> Seq<u8>
    decreases s.len(),
{
    if s.len() == 0 {
        Seq::<u8>::empty()
    } else if s.len() == 1 {
        seq![b64_char(s[0] as int / 4), b64_char((s[0] as int % 4) * 16)]
    } else if s.len() == 2 {
        seq![
            b64_char(s[0] as int / 4),
            b64_char((s[0] as int % 4) * 16 + s[1] as int / 16),
            b64_char((s[1] as int % 16) * 4),
        ]
    } else {
        seq![
            b64_char(s[0] as int / 4),
            b64_char((s[0] as int % 4) * 16 + s[1] as int / 16),
            b64_char((s[1] as int % 16) * 4 + s[2] as int / 64),
            b64_char(s[2] as int % 64),
        ] + b64_of(s.skip(3))
    }
}

/// Every digit of the alphabet is an alphabet byte.
pub proof fn lemma_b64_char_in_alphabet(v: int)
    requires
        0 <= v < 64,
    ensures
        is_b64_byte(b64_char(v)),
{
}

/// Distinct values have distinct digits.
pub proof fn lemma_b64_char_injective(v1: int, v2: int)
    requires
        0 <= v1 < 64,
        0 <= v2 < 64,
        b64_char(v1) == b64_char(v2),
    ensures
        v1 == v2,
{
}

/// The length of an encoding: four digits per full group, two or three for
/// a trailing byte or pair.
pub proof fn lemma_b64_len(v: Seq<u8>)
    ensures
        b64_of(v).len() == 4 * (v.len() as int / 3) + (
        if v.len() % 3 == 0 {
            0int
        } else {
            v.len() as int % 3 + 1
        }),
    decreases v.len(),
{
    if v.len() >= 3 {
        lemma_b64_len(v.skip(3));
    }
}

/// Encoding distributes over concatenation at a group boundary.
pub proof fn lemma_b64_append(a: Seq<u8>, b: Seq<u8>)
    requires
        a.len() % 3 == 0,
    ensures
        b64_of(a + b) == b64_of(a) + b64_of(b),
    decreases a.len(),
{
    if a.len() == 0 {
        assert(a + b =~= b);
        assert(b64_of(a) + b64_of(b) =~= b64_of(b));
    } else {
        lemma_b64_append(a.skip(3), b);
        assert((a + b).skip(3) =~= a.skip(3) + b);
        assert(b64_of(a + b) =~= b64_of(a) + b64_of(b));
    }
}

/// Every byte of an encoding is an alphabet byte.
pub proof fn lemma_b64_all_alphabet(v: Seq<u8>)
    ensures
        forall|j: int| 0 <= j < b64_of(v).len() ==> is_b64_byte(#[trigger] b64_of(v)[j]),
    decreases v.len(),
{
    if v.len() == 0 {
    } else if v.len() == 1 {
        lemma_b64_char_in_alphabet(v[0] as int / 4);
        lemma_b64_char_in_alphabet((v[0] as int % 4) * 16);
    } else if v.len() == 2 {
        lemma_b64_char_in_alphabet(v[0] as int / 4);
        lemma_b64_char_in_alphabet((v[0] as int % 4) * 16 + v[1] as int / 16);
        lemma_b64_char_in_alphabet((v[1] as int % 16) * 4);
    } else {
        lemma_b64_all_alphabet(v.skip(3));
        lemma_b64_char_in_alphabet(v[0] as int / 4);
        lemma_b64_char_in_alphabet((v[0] as int % 4) * 16 + v[1] as int / 16);
        lemma_b64_char_in_alphabet((v[1] as int % 16) * 4 + v[2] as int / 64);
        lemma_b64_char_in_alphabet(v[2] as int % 64);
        assert forall|j: int| 0 <= j < b64_of(v).len() implies is_b64_byte(
            #[trigger] b64_of(v)[j],
        ) by {
            if j >= 4 {
                assert(b64_of(v)[j] == b64_of(v.skip(3))[j - 4]);
            }
        }
    }
}

/// No two byte strings share an encoding.
pub proof fn lemma_b64_injective(a: Seq<u8>, b: Seq<u8>)
    requires
        b64_of(a) == b64_of(b),
    ensures
        a =~= b,
    decreases a.len(),
{
    lemma_b64_len(a);
    lemma_b64_len(b);
    assert(a.len() == b.len());
    if a.len() == 0 {
    } else if a.len() == 1 {
        assert(b64_of(a)[0] == b64_char(a[0] as int / 4) && b64_of(a)[1] == b64_char(
            (a[0] as int % 4) * 16,
        ));
        assert(b64_of(b)[0] == b64_char(b[0] as int / 4) && b64_of(b)[1] == b64_char(
            (b[0] as int % 4) * 16,
        ));
        lemma_b64_char_injective(a[0] as int / 4, b[0] as int / 4);
        lemma_b64_char_injective((a[0] as int % 4) * 16, (b[0] as int % 4) * 16);
    } else if a.len() == 2 {
        assert(b64_of(a)[0] == b64_char(a[0] as int / 4) && b64_of(a)[1] == b64_char(
            (a[0] as int % 4) * 16 + a[1] as int / 16,
        ) && b64_of(a)[2] == b64_char((a[1] as int % 16) * 4));
        assert(b64_of(b)[0] == b64_char(b[0] as int / 4) && b64_of(b)[1] == b64_char(
            (b[0] as int % 4) * 16 + b[1] as int / 16,
        ) && b64_of(b)[2] == b64_char((b[1] as int % 16) * 4));
        lemma_b64_char_injective(a[0] as int / 4, b[0] as int / 4);
        lemma_b64_char_injective(
            (a[0] as int % 4) * 16 + a[1] as int / 16,
            (b[0] as int % 4) * 16 + b[1] as int / 16,
        );
        lemma_b64_char_injective((a[1] as int % 16) * 4, (b[1] as int % 16) * 4);
    } else {
        assert(b64_of(a)[0] == b64_char(a[0] as int / 4) && b64_of(a)[1] == b64_char(
            (a[0] as int % 4) * 16 + a[1] as int / 16,
        ) && b64_of(a)[2] == b64_char((a[1] as int % 16) * 4 + a[2] as int / 64) && b64_of(a)[3]
            == b64_char(a[2] as int % 64));
        assert(b64_of(b)[0] == b64_char(b[0] as int / 4) && b64_of(b)[1] == b64_char(
            (b[0] as int % 4) * 16 + b[1] as int / 16,
        ) && b64_of(b)[2] == b64_char((b[1] as int % 16) * 4 + b[2] as int / 64) && b64_of(b)[3]
            == b64_char(b[2] as int % 64));
        lemma_b64_char_injective(a[0] as int / 4, b[0] as int / 4);
        lemma_b64_char_injective(
            (a[0] as int % 4) * 16 + a[1] as int / 16,
            (b[0] as int % 4) * 16 + b[1] as int / 16,
        );
        lemma_b64_char_injective(
            (a[1] as int % 16) * 4 + a[2] as int / 64,
            (b[1] as int % 16) * 4 + b[2] as int / 64,
        );
        lemma_b64_char_injective(a[2] as int % 64, b[2] as int % 64);
        assert(a[0] as int % 4 == b[0] as int % 4 && a[1] as int / 16 == b[1] as int / 16);
        assert(a[0] == b[0]);
        assert(a[1] as int % 16 == b[1] as int % 16 && a[2] as int / 64 == b[2] as int / 64);
        assert(a[1] == b[1]);
        assert(a[2] == b[2]);
        assert(b64_of(a).skip(4) =~= b64_of(a.skip(3)));
        assert(b64_of(b).skip(4) =~= b64_of(b.skip(3)));
        lemma_b64_injective(a.skip(3), b.skip(3));
        assert forall|k: int| 0 <= k < a.len() implies a[k] == b[k] by {
            if k >= 3 {
                assert(a[k] == a.skip(3)[k - 3]);
                assert(b[k] == b.skip(3)[k - 3]);
            }
        }
        assert(a =~= b);
    }
}

/// A string with a byte outside the alphabet is no encoding.
pub proof fn lemma_no_preimage_bad_byte(t: Seq<u8>, i: int)
    requires
        0 <= i < t.len(),
        !is_b64_byte(t[i]),
    ensures
        forall|v: Seq<u8>| t != b64_of(v),
{
    assert forall|v: Seq<u8>| t != b64_of(v) by {
        lemma_b64_all_alphabet(v);
        if t == b64_of(v) {
            assert(is_b64_byte(b64_of(v)[i]));
        }
    }
}

/// A trailing two-digit group whose second digit has nonzero unused bits is
/// no encoding.
proof fn lemma_tail2_canonical(t: Seq<u8>, v1: u8)
    requires
        t.len() >= 2,
        t.len() % 4 == 2,
        v1 < 64,
        v1 % 16 != 0,
        t[t.len() - 1] == b64_char(v1 as int),
    ensures
        forall|v: Seq<u8>| t != b64_of(v),
{
    assert forall|v: Seq<u8>| t != b64_of(v) by {
        if t == b64_of(v) {
            lemma_b64_len(v);
            assert(v.len() % 3 == 1);
            let head = v.take(v.len() - 1);
            let tail = v.skip(v.len() - 1);
            assert(head + tail =~= v);
            lemma_b64_append(head, tail);
            lemma_b64_len(head);
            assert(b64_of(v)[t.len() - 1] == b64_char((tail[0] as int % 4) * 16));
            lemma_b64_char_injective((tail[0] as int % 4) * 16, v1 as int);
        }
    }
}

/// A trailing three-digit group whose third digit has nonzero unused bits
/// is no encoding.
proof fn lemma_tail3_canonical(t: Seq<u8>, v2: u8)
    requires
        t.len() >= 3,
        t.len() % 4 == 3,
        v2 < 64,
        v2 % 4 != 0,
        t[t.len() - 1] == b64_char(v2 as int),
    ensures
        forall|v: Seq<u8>| t != b64_of(v),
{
    assert forall|v: Seq<u8>| t != b64_of(v) by {
        if t == b64_of(v) {
            lemma_b64_len(v);
            assert(v.len() % 3 == 2);
            let head = v.take(v.len() - 2);
            let tail = v.skip(v.len() - 2);
            assert(head + tail =~= v);
            lemma_b64_append(head, tail);
            lemma_b64_len(head);
            assert(b64_of(v)[t.len() - 1] == b64_char((tail[1] as int % 16) * 4));
            lemma_b64_char_injective((tail[1] as int % 16) * 4, v2 as int);
        }
    }
}

/// The encoding of a single three-byte group, spelled out.
proof fn lemma_group_encode(b0: u8, b1: u8, b2: u8)
    ensures
        b64_of(seq![b0, b1, b2]) =~= seq![
            b64_char(b0 as int / 4),
            b64_char((b0 as int % 4) * 16 + b1 as int / 16),
            b64_char((b1 as int % 16) * 4 + b2 as int / 64),
            b64_char(b2 as int % 64),
        ],
{
    let g = seq![b0, b1, b2];
    assert(g.skip(3) =~= Seq::<u8>::empty());
    assert(b64_of(g.skip(3)) =~= Seq::<u8>::empty());
}

/// Value `v` (below 64) as its base64url digit.
fn b64_char_x(v: u8) -> (c: u8)
    requires
        v < 64,
    ensures
        c == b64_char(v as int),
{
    if v < 26 {
        v + 65
    } else if v < 52 {
        v - 26 + 97
    } else if v < 62 {
        v - 52 + 48
    } else if v == 62 {
        45
    } else {
        95
    }
}

/// A base64url digit back to its value; `None` for a byte outside the
/// alphabet.
fn b64_val(c: u8) -> (r: Option<u8>)
    ensures
        match r {
            Some(v) => v < 64 && c == b64_char(v as int),
            None => !is_b64_byte(c),
        },
{
    if 65 <= c && c <= 90 {
        Some(c - 65)
    } else if 97 <= c && c <= 122 {
        Some(c - 97 + 26)
    } else if 48 <= c && c <= 57 {
        Some(c - 48 + 52)
    } else if c == 45 {
        Some(62)
    } else if c == 95 {
        Some(63)
    } else {
        None
    }
}

/// Encodes a byte string as unpadded base64url.
pub fn b64_encode(s: &Vec<u8>) -> (r: Vec<u8>)
    ensures
        r@ == b64_of(s@),
{
    let mut out: Vec<u8> = Vec::new();
    let mut i: usize = 0;
    proof {
        assert(s@.skip(0) =~= s@);
        assert(out@ + b64_of(s@) =~= b64_of(s@));
    }
    while s.len() - i >= 3
        invariant
            i <= s@.len(),
            i % 3 == 0,
            b64_of(s@) == out@ + b64_of(s@.skip(i as int)),
        decreases s@.len() - i,
    {
        let b0 = s[i];
        let b1 = s[i + 1];
        let b2 = s[i + 2];
        let ghost rest = s@.skip(i as int);
        out.push(b64_char_x(b0 / 4));
        out.push(b64_char_x((b0 % 4) * 16 + b1 / 16));
        out.push(b64_char_x((b1 % 16) * 4 + b2 / 64));
        out.push(b64_char_x(b2 % 64));
        proof {
            assert(rest[0] == b0 && rest[1] == b1 && rest[2] == b2);
            assert(rest.skip(3) =~= s@.skip(i + 3));
            assert(b64_of(s@) =~= out@ + b64_of(s@.skip(i + 3)));
        }
        i = i + 3;
    }
    let ghost rest = s@.skip(i as int);
    if s.len() - i == 1 {
        let b0 = s[i];
        proof {
            assert(rest.len() == 1 && rest[0] == b0);
        }
        out.push(b64_char_x(b0 / 4));
        out.push(b64_char_x((b0 % 4) * 16));
        proof {
            assert(out@ =~= b64_of(s@));
        }
    } else if s.len() - i == 2 {
        let b0 = s[i];
        let b1 = s[i + 1];
        proof {
            assert(rest.len() == 2 && rest[0] == b0 && rest[1] == b1);
        }
        out.push(b64_char_x(b0 / 4));
        out.push(b64_char_x((b0 % 4) * 16 + b1 / 16));
        out.push(b64_char_x((b1 % 16) * 4));
        proof {
            assert(out@ =~= b64_of(s@));
        }
    } else {
        proof {
            assert(rest.len() == 0);
            assert(out@ =~= b64_of(s@));
        }
    }
    out
}

/// Decodes unpadded base64url. Canonical and exact: returns the unique byte
/// string whose encoding is `t`, and `None` when `t` is no encoding at all
/// (a byte outside the alphabet, an impossible length, or nonzero unused
/// bits in the final digit).
pub fn b64_decode(t: &Vec<u8>) -> (r: Option<Vec<u8>>)
    ensures
        match r {
            Some(u) => t@ == b64_of(u@) && forall|v: Seq<u8>| t@ == b64_of(v) ==> v == u@,
            None => forall|v: Seq<u8>| t@ != b64_of(v),
        },
{
    let n = t.len();
    if n % 4 == 1 {
        proof {
            assert forall|v: Seq<u8>| t@ != b64_of(v) by {
                lemma_b64_len(v);
            }
        }
        return None;
    }
    let mut out: Vec<u8> = Vec::new();
    let mut i: usize = 0;
    proof {
        assert(t@.take(0) =~= b64_of(out@));
    }
    while n - i >= 4
        invariant
            i <= n,
            i % 4 == 0,
            n == t@.len(),
            n % 4 != 1,
            out@.len() % 3 == 0,
            t@.take(i as int) == b64_of(out@),
        decreases n - i,
    {
        let v0 = match b64_val(t[i]) {
            Some(v) => v,
            None => {
                proof {
                    lemma_no_preimage_bad_byte(t@, i as int);
                }
                return None;
            },
        };
        let v1 = match b64_val(t[i + 1]) {
            Some(v) => v,
            None => {
                proof {
                    lemma_no_preimage_bad_byte(t@, i + 1);
                }
                return None;
            },
        };
        let v2 = match b64_val(t[i + 2]) {
            Some(v) => v,
            None => {
                proof {
                    lemma_no_preimage_bad_byte(t@, i + 2);
                }
                return None;
            },
        };
        let v3 = match b64_val(t[i + 3]) {
            Some(v) => v,
            None => {
                proof {
                    lemma_no_preimage_bad_byte(t@, i + 3);
                }
                return None;
            },
        };
        let ghost old_out = out@;
        let b0 = v0 * 4 + v1 / 16;
        let b1 = (v1 % 16) * 16 + v2 / 4;
        let b2 = (v2 % 4) * 64 + v3;
        out.push(b0);
        out.push(b1);
        out.push(b2);
        proof {
            let group = seq![b0, b1, b2];
            assert(out@ =~= old_out + group);
            lemma_b64_append(old_out, group);
            lemma_group_encode(b0, b1, b2);
            assert(b0 as int / 4 == v0 && (b0 as int % 4) * 16 + b1 as int / 16 == v1 && (
            b1 as int % 16) * 4 + b2 as int / 64 == v2 && b2 as int % 64 == v3);
            assert(t@.take(i + 4) =~= b64_of(out@));
        }
        i = i + 4;
    }
    let ghost full = out@;
    if i == n {
        proof {
            assert(t@.take(i as int) =~= t@);
            assert forall|v: Seq<u8>| t@ == b64_of(v) implies v == out@ by {
                lemma_b64_injective(v, out@);
            }
        }
        return Some(out);
    }
    // A trailing group of two or three digits; a single digit is impossible
    // because the length is not one more than a multiple of four.
    let m = n - i;
    proof {
        assert(m == 2 || m == 3);
    }
    let v0 = match b64_val(t[i]) {
        Some(v) => v,
        None => {
            proof {
                lemma_no_preimage_bad_byte(t@, i as int);
            }
            return None;
        },
    };
    let v1 = match b64_val(t[i + 1]) {
        Some(v) => v,
        None => {
            proof {
                lemma_no_preimage_bad_byte(t@, i + 1);
            }
            return None;
        },
    };
    if m == 2 {
        if v1 % 16 != 0 {
            proof {
                lemma_tail2_canonical(t@, v1);
            }
            return None;
        }
        let b0 = v0 * 4 + v1 / 16;
        out.push(b0);
        proof {
            let tail = seq![b0];
            assert(out@ =~= full + tail);
            lemma_b64_append(full, tail);
            assert(b64_of(tail) =~= seq![
                b64_char(b0 as int / 4),
                b64_char((b0 as int % 4) * 16),
            ]);
            assert(b0 as int / 4 == v0 && (b0 as int % 4) * 16 == v1);
            assert(t@ =~= b64_of(out@));
            assert forall|v: Seq<u8>| t@ == b64_of(v) implies v == out@ by {
                lemma_b64_injective(v, out@);
            }
        }
        return Some(out);
    }
    let v2 = match b64_val(t[i + 2]) {
        Some(v) => v,
        None => {
            proof {
                lemma_no_preimage_bad_byte(t@, i + 2);
            }
            return None;
        },
    };
    if v2 % 4 != 0 {
        proof {
            lemma_tail3_canonical(t@, v2);
        }
        return None;
    }
    let b0 = v0 * 4 + v1 / 16;
    let b1 = (v1 % 16) * 16 + v2 / 4;
    out.push(b0);
    out.push(b1);
    proof {
        let tail = seq![b0, b1];
        assert(out@ =~= full + tail);
        lemma_b64_append(full, tail);
        assert(b64_of(tail) =~= seq![
            b64_char(b0 as int / 4),
            b64_char((b0 as int % 4) * 16 + b1 as int / 16),
            b64_char((b1 as int % 16) * 4),
        ]);
        assert(b0 as int / 4 == v0 && (b0 as int % 4) * 16 + b1 as int / 16 == v1 && (
        b1 as int % 16) * 4 == v2);
        assert(t@ =~= b64_of(out@));
        assert forall|v: Seq<u8>| t@ == b64_of(v) implies v == out@ by {
            lemma_b64_injective(v, out@);
        }
    }
    Some(out)
}

} // verus!
