//! Canonical decimal numerals: how the expiration timestamp is written in
//! the claims object. No sign, no leading zero, so every value has exactly
//! one numeral and every numeral one value.

use vstd::prelude::*;

verus! {

/// Ten to the power `k`.
pub open spec fn pow10(k: nat) -> int
    decreases k,
{
    if k == 0 {
        1
    } else {
        10 * pow10((k - 1) as nat)
    }
}

/// The decimal numeral of `n` (for `n >= 0`), most significant digit first.
pub open spec fn dec_of(n: int) -> Seq<u8>
    decreases n,
{
    if n < 10 {
        seq![(48 + n) as u8]
    } else {
        dec_of(n / 10) + seq![(48 + n % 10) as u8]
    }
}

/// Every byte of a numeral is a digit, and only the numeral of zero starts
/// with a zero digit.
pub proof fn lemma_dec_digits(x: int)
    requires
        0 <= x,
    ensures
        dec_of(x).len() >= 1,
        forall|j: int| 0 <= j < dec_of(x).len() ==> 48 <= #[trigger] dec_of(x)[j] <= 57,
        dec_of(x)[0] == 48 ==> x == 0,
    decreases x,
{
    if x >= 10 {
        lemma_dec_digits(x / 10);
        assert forall|j: int| 0 <= j < dec_of(x).len() implies 48 <= #[trigger] dec_of(x)[j]
            <= 57 by {
            if j < dec_of(x / 10).len() {
                assert(dec_of(x)[j] == dec_of(x / 10)[j]);
            }
        }
        assert(dec_of(x)[0] == dec_of(x / 10)[0]);
    }
}

/// A numeral of `k` digits names a value below ten to the `k` (and, unless
/// the value is zero, at least ten to the `k - 1`).
pub proof fn lemma_dec_len_bound(x: int)
    requires
        0 <= x,
    ensures
        dec_of(x).len() >= 1,
        x < pow10(dec_of(x).len() as nat),
        x >= 1 ==> pow10((dec_of(x).len() - 1) as nat) <= x,
    decreases x,
{
    if x < 10 {
        assert(pow10(1) == 10 && pow10(0) == 1) by {
            reveal_with_fuel(pow10, 2);
        }
    } else {
        lemma_dec_len_bound(x / 10);
    }
}

/// Distinct values have distinct numerals.
pub proof fn lemma_dec_injective(x: int, y: int)
    requires
        0 <= x,
        0 <= y,
        dec_of(x) == dec_of(y),
    ensures
        x == y,
    decreases x,
{
    if x < 10 && y < 10 {
        assert(dec_of(x) =~= seq![(48 + x) as u8]);
        assert(dec_of(y) =~= seq![(48 + y) as u8]);
        assert(dec_of(x)[0] == (48 + x) as u8);
        assert(dec_of(y)[0] == (48 + y) as u8);
    } else if x < 10 {
        assert(dec_of(y).len() == dec_of(y / 10).len() + 1);
        lemma_dec_digits(y / 10);
        assert(false);
    } else if y < 10 {
        assert(dec_of(x).len() == dec_of(x / 10).len() + 1);
        lemma_dec_digits(x / 10);
        assert(false);
    } else {
        let lx = dec_of(x).len() as int;
        assert(dec_of(x)[lx - 1] == (48 + x % 10) as u8);
        assert(dec_of(y)[lx - 1] == (48 + y % 10) as u8);
        assert(x % 10 == y % 10);
        assert(dec_of(x).take(lx - 1) =~= dec_of(x / 10));
        assert(dec_of(y).take(lx - 1) =~= dec_of(y / 10));
        lemma_dec_injective(x / 10, y / 10);
        assert(x == 10 * (x / 10) + x % 10);
        assert(y == 10 * (y / 10) + y % 10);
    }
}

/// The numeral of `n`, most significant digit first.
pub fn dec_digits(n: u64) -> (v: Vec<u8>)
    ensures
        v@ == dec_of(n as int),
    decreases n,
{
    if n < 10 {
        let mut v: Vec<u8> = Vec::new();
        v.push(48 + (n as u8));
        proof {
            assert(v@ =~= dec_of(n as int));
        }
        v
    } else {
        let mut v = dec_digits(n / 10);
        v.push(48 + ((n % 10) as u8));
        proof {
            assert(v@ =~= dec_of(n as int));
        }
        v
    }
}

/// Parses `b[start..end)` as the canonical numeral of a nonnegative `i64`.
/// Exact: `Some` exactly when the bytes are `dec_of` of such a value, and
/// then of the returned one.
pub fn parse_dec(b: &Vec<u8>, start: usize, end: usize) -> (r: Option<i64>)
    requires
        start <= end <= b@.len(),
    ensures
        match r {
            Some(x) => 0 <= x && b@.subrange(start as int, end as int) == dec_of(x as int)
                && forall|y: int|
                0 <= y && b@.subrange(start as int, end as int) == dec_of(y) ==> y == x as int,
            None => forall|x: int|
                0 <= x <= i64::MAX ==> b@.subrange(start as int, end as int) != dec_of(x),
        },
{
    let ghost piece = b@.subrange(start as int, end as int);
    if end - start == 0 {
        proof {
            assert forall|x: int| 0 <= x <= i64::MAX implies piece != dec_of(x) by {
                lemma_dec_digits(x);
            }
        }
        return None;
    }
    if end - start > 19 {
        proof {
            assert forall|x: int| 0 <= x <= i64::MAX implies piece != dec_of(x) by {
                lemma_dec_len_bound(x);
                if piece == dec_of(x) {
                    // Twenty digits name at least ten to the nineteenth,
                    // which is beyond the largest i64.
                    assert(dec_of(x).len() >= 20);
                    assert(x >= 1);
                    assert(pow10((dec_of(x).len() - 1) as nat) <= x);
                    lemma_pow10_19();
                    lemma_pow10_monotone(19nat, (dec_of(x).len() - 1) as nat);
                    assert(false);
                }
            }
        }
        return None;
    }
    let first = b[start];
    if first == 48 {
        if end - start == 1 {
            proof {
                assert(piece =~= dec_of(0));
                assert forall|x: int| 0 <= x && piece == dec_of(x) implies x == 0 by {
                    lemma_dec_injective(x, 0);
                }
            }
            return Some(0i64);
        }
        proof {
            assert forall|x: int| 0 <= x <= i64::MAX implies piece != dec_of(x) by {
                lemma_dec_digits(x);
                if piece == dec_of(x) {
                    assert(dec_of(x)[0] == 48);
                    assert(dec_of(0) =~= seq![48u8]);
                    assert(dec_of(x).len() >= 2);
                }
            }
        }
        return None;
    }
    if !(48 <= first && first <= 57) {
        proof {
            assert forall|x: int| 0 <= x <= i64::MAX implies piece != dec_of(x) by {
                lemma_dec_digits(x);
                if piece == dec_of(x) {
                    assert(dec_of(x)[0] == piece[0]);
                }
            }
        }
        return None;
    }
    let mut acc: u64 = (first - 48) as u64;
    let mut j: usize = start + 1;
    proof {
        assert(piece.subrange(0, 1) =~= dec_of(acc as int));
        lemma_pow10_19();
        assert(pow10(1) == 10) by {
            reveal_with_fuel(pow10, 2);
        }
    }
    while j < end
        invariant
            start < j <= end,
            end <= b@.len(),
            end - start <= 19,
            piece == b@.subrange(start as int, end as int),
            1 <= acc,
            (acc as int) < pow10((j - start) as nat),
            pow10(19) == 10000000000000000000,
            piece.subrange(0, j - start) == dec_of(acc as int),
        decreases end - j,
    {
        let d = b[j];
        if !(48 <= d && d <= 57) {
            proof {
                assert forall|x: int| 0 <= x <= i64::MAX implies piece != dec_of(x) by {
                    lemma_dec_digits(x);
                    if piece == dec_of(x) {
                        assert(dec_of(x)[j - start] == piece[j - start]);
                    }
                }
            }
            return None;
        }
        proof {
            lemma_pow10_monotone((j - start) as nat, 18nat);
            assert(pow10(19) == 10 * pow10(18));
            assert((acc as int) < pow10(18));
            assert(acc as int * 10 + 9 < pow10(19));
        }
        let new_acc = acc * 10 + ((d - 48) as u64);
        proof {
            assert(dec_of(new_acc as int) =~= dec_of(acc as int) + seq![d]);
            assert(piece.subrange(0, j + 1 - start) =~= piece.subrange(0, j - start) + seq![
                piece[j - start],
            ]);
        }
        acc = new_acc;
        j = j + 1;
    }
    proof {
        assert(piece.subrange(0, (end - start) as int) =~= piece);
    }
    if acc > 0x7fff_ffff_ffff_ffff {
        proof {
            assert forall|x: int| 0 <= x <= i64::MAX implies piece != dec_of(x) by {
                if piece == dec_of(x) {
                    lemma_dec_injective(x, acc as int);
                }
            }
        }
        return None;
    }
    proof {
        assert forall|x: int| 0 <= x && piece == dec_of(x) implies x == acc as int by {
            lemma_dec_injective(x, acc as int);
        }
    }
    Some(acc as i64)
}

/// Ten to the nineteenth, spelled out.
pub proof fn lemma_pow10_19()
    ensures
        pow10(19) == 10000000000000000000,
{
    reveal_with_fuel(pow10, 20);
}

/// `pow10` is positive.
pub proof fn lemma_pow10_pos(k: nat)
    ensures
        pow10(k) >= 1,
    decreases k,
{
    if k > 0 {
        lemma_pow10_pos((k - 1) as nat);
    }
}

/// `pow10` grows with its argument.
pub proof fn lemma_pow10_monotone(a: nat, c: nat)
    requires
        a <= c,
    ensures
        pow10(a) <= pow10(c),
        pow10(a) >= 1,
    decreases c,
{
    lemma_pow10_pos(a);
    if a < c {
        lemma_pow10_monotone(a, (c - 1) as nat);
        assert(pow10(c) == 10 * pow10((c - 1) as nat));
    }
}

} // verus!
