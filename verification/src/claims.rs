//! The claim set carried by a token, and its canonical byte encoding.
//!
//! A claim set is the triple (subject, issued-at, expiry). Its canonical
//! encoding is the JSON object `{"exp":E,"iat":I,"sub":"S"}` with the
//! timestamps as bare decimal numbers and the subject as a decimal string,
//! each in the canonical spelling of [`crate::digits::dec_digits`], with no
//! whitespace. [`parse_claims`] accepts a byte string if and only if it is
//! the canonical encoding of some claim set, so an encoding denotes exactly
//! one claim set.

use vstd::prelude::*;

use crate::bytes::bytes_eq;
use crate::bytes::push_all;
use crate::digits::dec_digits;
use crate::digits::is_digit;
use crate::digits::lemma_dec_digits_shape;
use crate::digits::parse_dec_u128;
use crate::digits::parse_dec_u64;
use crate::digits::u128_to_dec;
use crate::digits::u64_to_dec;
use vstd::slice::slice_subrange;

verus! {

/// `{"exp":`
pub open spec fn exp_prefix() -> Seq<u8> {
    seq![123u8, 34, 101, 120, 112, 34, 58]
}

/// `,"iat":`
pub open spec fn iat_infix() -> Seq<u8> {
    seq![44, 34, 105, 97, 116, 34, 58]
}

/// `,"sub":"`
pub open spec fn sub_infix() -> Seq<u8> {
    seq![44, 34, 115, 117, 98, 34, 58, 34]
}

/// `"}`
pub open spec fn claims_suffix() -> Seq<u8> {
    seq![34, 125]
}

/// The canonical encoding of the claim set (subject, issued-at, expiry).
pub open spec fn claims_bytes(sub: u128, iat: u64, exp: u64) -> Seq<u8> {
    exp_prefix() + dec_digits(exp as nat) + iat_infix() + dec_digits(iat as nat) + sub_infix()
        + dec_digits(sub as nat) + claims_suffix()
}

/// Offsets of the seven segments of a canonical encoding, and what each
/// segment holds.
proof fn lemma_claims_structure(sub: u128, iat: u64, exp: u64)
    ensures
        ({
            let cb = claims_bytes(sub, iat, exp);
            let d1 = dec_digits(exp as nat);
            let d2 = dec_digits(iat as nat);
            let d3 = dec_digits(sub as nat);
            let b1 = 7 + d1.len() as int;
            let b2 = b1 + 7 + d2.len() as int;
            let b3 = b2 + 8 + d3.len() as int;
            cb.len() == b3 + 2 && cb.subrange(0, 7) == exp_prefix() && cb.subrange(7, b1) == d1
                && cb.subrange(b1, b1 + 7) == iat_infix() && cb.subrange(b1 + 7, b2) == d2
                && cb.subrange(b2, b2 + 8) == sub_infix() && cb.subrange(b2 + 8, b3) == d3
                && cb.subrange(b3, b3 + 2) == claims_suffix()
        }),
{
    let cb = claims_bytes(sub, iat, exp);
    let d1 = dec_digits(exp as nat);
    let d2 = dec_digits(iat as nat);
    let d3 = dec_digits(sub as nat);
    let b1 = 7 + d1.len() as int;
    let b2 = b1 + 7 + d2.len() as int;
    let b3 = b2 + 8 + d3.len() as int;
    assert(cb.subrange(0, 7) =~= exp_prefix());
    assert(cb.subrange(7, b1) =~= d1);
    assert(cb.subrange(b1, b1 + 7) =~= iat_infix());
    assert(cb.subrange(b1 + 7, b2) =~= d2);
    assert(cb.subrange(b2, b2 + 8) =~= sub_infix());
    assert(cb.subrange(b2 + 8, b3) =~= d3);
    assert(cb.subrange(b3, b3 + 2) =~= claims_suffix());
}

/// Serializes a claim set into its canonical encoding.
pub fn claims_to_bytes(sub: u128, iat: u64, exp: u64) -> (r: Vec<u8>)
    ensures
        r@ == claims_bytes(sub, iat, exp),
{
    let mut out: Vec<u8> = Vec::new();
    out.push(123u8);
    out.push(34);
    out.push(101);
    out.push(120);
    out.push(112);
    out.push(34);
    out.push(58);
    proof {
        assert(out@ =~= exp_prefix());
    }
    let d1 = u64_to_dec(exp);
    push_all(&mut out, d1.as_slice());
    out.push(44);
    out.push(34);
    out.push(105);
    out.push(97);
    out.push(116);
    out.push(34);
    out.push(58);
    proof {
        assert(out@ =~= exp_prefix() + dec_digits(exp as nat) + iat_infix());
    }
    let d2 = u64_to_dec(iat);
    push_all(&mut out, d2.as_slice());
    out.push(44);
    out.push(34);
    out.push(115);
    out.push(117);
    out.push(98);
    out.push(34);
    out.push(58);
    out.push(34);
    proof {
        assert(out@ =~= exp_prefix() + dec_digits(exp as nat) + iat_infix() + dec_digits(
            iat as nat,
        ) + sub_infix());
    }
    let d3 = u128_to_dec(sub);
    push_all(&mut out, d3.as_slice());
    out.push(34);
    out.push(125);
    proof {
        assert(out@ =~= claims_bytes(sub, iat, exp));
    }
    out
}

/// First index at or after `start` that does not hold an ASCII digit.
fn scan_digits(p: &[u8], start: usize) -> (end: usize)
    requires
        start <= p@.len(),
    ensures
        start <= end <= p@.len(),
        forall|k: int| start <= k < end ==> is_digit(#[trigger] p@[k]),
        end < p@.len() ==> !is_digit(p@[end as int]),
{
    let mut end = start;
    while end < p.len() && p[end] >= 48 && p[end] <= 57
        invariant
            start <= end <= p@.len(),
            forall|k: int| start <= k < end ==> is_digit(#[trigger] p@[k]),
        decreases p@.len() - end,
    {
        end = end + 1;
    }
    end
}

/// A maximal digit run that starts where a canonical digit segment starts
/// ends exactly where the segment ends.
proof fn lemma_scan_stop(p: Seq<u8>, start: int, j: int, d: Seq<u8>)
    requires
        0 <= start,
        start + d.len() < p.len(),
        forall|k: int| start <= k < start + d.len() ==> p[k] == d[k - start],
        forall|k: int| 0 <= k < d.len() ==> is_digit(#[trigger] d[k]),
        !is_digit(p[start + d.len()]),
        start <= j <= p.len(),
        forall|k: int| start <= k < j ==> is_digit(#[trigger] p[k]),
        j < p.len() ==> !is_digit(p[j]),
    ensures
        j == start + d.len(),
        p.subrange(start, j) == d,
{
    if j < start + d.len() {
        assert(p[j] == d[j - start]);
        assert(is_digit(p[j]));
        assert(false);
    }
    if j > start + d.len() {
        assert(is_digit(p[start + d.len()]));
        assert(false);
    }
    assert(p.subrange(start, j) =~= d);
}

/// Parses the canonical encoding of a claim set, and nothing else.
///
/// The result is (subject, issued-at, expiry). Acceptance means the input
/// is exactly `claims_bytes` of the result: after reading the three
/// numbers the parser re-serializes them and requires the bytes to match,
/// so no non-canonical spelling is ever accepted.
pub fn parse_claims(p: &[u8]) -> (r: Option<(u128, u64, u64)>)
    ensures
        r matches Some(c) ==> p@ == claims_bytes(c.0, c.1, c.2),
        forall|sub: u128, iat: u64, exp: u64|
            p@ == claims_bytes(sub, iat, exp) ==> r == Some((sub, iat, exp)),
{
    let n = p.len();
    if n < 7 {
        proof {
            assert forall|sub: u128, iat: u64, exp: u64|
                p@ != claims_bytes(sub, iat, exp) by {
                if p@ == claims_bytes(sub, iat, exp) {
                    lemma_claims_structure(sub, iat, exp);
                    lemma_dec_digits_shape(exp as nat);
                    lemma_dec_digits_shape(iat as nat);
                    lemma_dec_digits_shape(sub as nat);
                }
            }
        }
        return None;
    }
    let j1 = scan_digits(p, 7);
    let exp = match parse_dec_u64(slice_subrange(p, 7, j1)) {
        Some(v) => v,
        None => {
            proof {
                assert forall|sub: u128, iat: u64, exp: u64|
                    p@ != claims_bytes(sub, iat, exp) by {
                    if p@ == claims_bytes(sub, iat, exp) {
                        lemma_exp_run(p@, sub, iat, exp, j1 as int);
                    }
                }
            }
            return None;
        },
    };
    if n - j1 < 7 {
        proof {
            assert forall|sub: u128, iat: u64, exp: u64|
                p@ != claims_bytes(sub, iat, exp) by {
                if p@ == claims_bytes(sub, iat, exp) {
                    lemma_exp_run(p@, sub, iat, exp, j1 as int);
                    lemma_claims_structure(sub, iat, exp);
                    lemma_dec_digits_shape(iat as nat);
                    lemma_dec_digits_shape(sub as nat);
                }
            }
        }
        return None;
    }
    let j2 = scan_digits(p, j1 + 7);
    let iat = match parse_dec_u64(slice_subrange(p, j1 + 7, j2)) {
        Some(v) => v,
        None => {
            proof {
                assert forall|sub: u128, iat: u64, exp: u64|
                    p@ != claims_bytes(sub, iat, exp) by {
                    if p@ == claims_bytes(sub, iat, exp) {
                        lemma_exp_run(p@, sub, iat, exp, j1 as int);
                        lemma_iat_run(p@, sub, iat, exp, j1 as int, j2 as int);
                    }
                }
            }
            return None;
        },
    };
    if n - j2 < 8 {
        proof {
            assert forall|sub: u128, iat: u64, exp: u64|
                p@ != claims_bytes(sub, iat, exp) by {
                if p@ == claims_bytes(sub, iat, exp) {
                    lemma_exp_run(p@, sub, iat, exp, j1 as int);
                    lemma_iat_run(p@, sub, iat, exp, j1 as int, j2 as int);
                    lemma_claims_structure(sub, iat, exp);
                    lemma_dec_digits_shape(sub as nat);
                }
            }
        }
        return None;
    }
    let j3 = scan_digits(p, j2 + 8);
    let sub = match parse_dec_u128(slice_subrange(p, j2 + 8, j3)) {
        Some(v) => v,
        None => {
            proof {
                assert forall|sub: u128, iat: u64, exp: u64|
                    p@ != claims_bytes(sub, iat, exp) by {
                    if p@ == claims_bytes(sub, iat, exp) {
                        lemma_exp_run(p@, sub, iat, exp, j1 as int);
                        lemma_iat_run(p@, sub, iat, exp, j1 as int, j2 as int);
                        lemma_sub_run(p@, sub, iat, exp, j2 as int, j3 as int);
                    }
                }
            }
            return None;
        },
    };
    let canon = claims_to_bytes(sub, iat, exp);
    if bytes_eq(p, canon.as_slice()) {
        proof {
            assert forall|s2: u128, i2: u64, e2: u64|
                p@ == claims_bytes(s2, i2, e2) implies (s2, i2, e2) == (sub, iat, exp) by {
                lemma_exp_run(p@, s2, i2, e2, j1 as int);
                lemma_iat_run(p@, s2, i2, e2, j1 as int, j2 as int);
                lemma_sub_run(p@, s2, i2, e2, j2 as int, j3 as int);
            }
        }
        Some((sub, iat, exp))
    } else {
        proof {
            assert forall|s2: u128, i2: u64, e2: u64| p@ != claims_bytes(s2, i2, e2) by {
                if p@ == claims_bytes(s2, i2, e2) {
                    lemma_exp_run(p@, s2, i2, e2, j1 as int);
                    lemma_iat_run(p@, s2, i2, e2, j1 as int, j2 as int);
                    lemma_sub_run(p@, s2, i2, e2, j2 as int, j3 as int);
                }
            }
        }
        None
    }
}

/// Two claim sets with the same canonical encoding are equal.
pub proof fn lemma_claims_bytes_injective(s1: u128, i1: u64, e1: u64, s2: u128, i2: u64, e2: u64)
    requires
        claims_bytes(s1, i1, e1) == claims_bytes(s2, i2, e2),
    ensures
        s1 == s2 && i1 == i2 && e1 == e2,
{
    let p = claims_bytes(s1, i1, e1);
    lemma_claims_structure(s1, i1, e1);
    lemma_claims_structure(s2, i2, e2);
    lemma_dec_digits_shape(e1 as nat);
    lemma_dec_digits_shape(e2 as nat);
    lemma_dec_digits_shape(i1 as nat);
    lemma_dec_digits_shape(i2 as nat);
    lemma_dec_digits_shape(s1 as nat);
    lemma_dec_digits_shape(s2 as nat);
    let da = dec_digits(e1 as nat);
    let db = dec_digits(e2 as nat);
    lemma_runs_align(p, 7, da, db);
    crate::digits::lemma_dec_digits_injective(e1 as nat, e2 as nat);
    let b1 = 7 + da.len() as int;
    let da2 = dec_digits(i1 as nat);
    let db2 = dec_digits(i2 as nat);
    lemma_runs_align(p, b1 + 7, da2, db2);
    crate::digits::lemma_dec_digits_injective(i1 as nat, i2 as nat);
    let b2 = b1 + 7 + da2.len() as int;
    let da3 = dec_digits(s1 as nat);
    let db3 = dec_digits(s2 as nat);
    lemma_runs_align(p, b2 + 8, da3, db3);
    crate::digits::lemma_dec_digits_injective(s1 as nat, s2 as nat);
}

/// Two all-digit segments that both start at `start` in `p` and are both
/// followed by a non-digit byte are the same segment.
proof fn lemma_runs_align(p: Seq<u8>, start: int, da: Seq<u8>, db: Seq<u8>)
    requires
        0 <= start,
        start + da.len() < p.len(),
        start + db.len() < p.len(),
        forall|k: int| 0 <= k < da.len() ==> is_digit(#[trigger] da[k]),
        forall|k: int| 0 <= k < db.len() ==> is_digit(#[trigger] db[k]),
        p.subrange(start, start + da.len()) == da,
        p.subrange(start, start + db.len()) == db,
        !is_digit(p[start + da.len()]),
        !is_digit(p[start + db.len()]),
    ensures
        da == db,
{
    if da.len() < db.len() {
        assert(p[start + da.len()] == db[da.len() as int]);
        assert(is_digit(db[da.len() as int]));
        assert(false);
    }
    if db.len() < da.len() {
        assert(p[start + db.len()] == da[db.len() as int]);
        assert(is_digit(da[db.len() as int]));
        assert(false);
    }
    assert(da =~= db);
}

/// On a canonical encoding, the first digit scan isolates the expiry.
proof fn lemma_exp_run(p: Seq<u8>, sub: u128, iat: u64, exp: u64, j1: int)
    requires
        p == claims_bytes(sub, iat, exp),
        7 <= j1 <= p.len(),
        forall|k: int| 7 <= k < j1 ==> is_digit(#[trigger] p[k]),
        j1 < p.len() ==> !is_digit(p[j1]),
    ensures
        j1 == 7 + dec_digits(exp as nat).len(),
        p.subrange(7, j1) == dec_digits(exp as nat),
{
    lemma_claims_structure(sub, iat, exp);
    lemma_dec_digits_shape(exp as nat);
    let d1 = dec_digits(exp as nat);
    let b1 = 7 + d1.len() as int;
    assert forall|k: int| 7 <= k < b1 implies p[k] == d1[k - 7] by {
        assert(p.subrange(7, b1)[k - 7] == p[k]);
    }
    assert(p[b1] == p.subrange(b1, b1 + 7)[0]);
    assert(p[b1] == 44);
    lemma_scan_stop(p, 7, j1, d1);
}

/// On a canonical encoding, the second digit scan isolates the issue time.
proof fn lemma_iat_run(p: Seq<u8>, sub: u128, iat: u64, exp: u64, j1: int, j2: int)
    requires
        p == claims_bytes(sub, iat, exp),
        j1 == 7 + dec_digits(exp as nat).len(),
        j1 + 7 <= j2 <= p.len(),
        forall|k: int| j1 + 7 <= k < j2 ==> is_digit(#[trigger] p[k]),
        j2 < p.len() ==> !is_digit(p[j2]),
    ensures
        j2 == j1 + 7 + dec_digits(iat as nat).len(),
        p.subrange(j1 + 7, j2) == dec_digits(iat as nat),
{
    lemma_claims_structure(sub, iat, exp);
    lemma_dec_digits_shape(iat as nat);
    let d2 = dec_digits(iat as nat);
    let b1 = j1;
    let b2 = b1 + 7 + d2.len() as int;
    assert forall|k: int| b1 + 7 <= k < b2 implies p[k] == d2[k - (b1 + 7)] by {
        assert(p.subrange(b1 + 7, b2)[k - (b1 + 7)] == p[k]);
    }
    assert(p[b2] == p.subrange(b2, b2 + 8)[0]);
    assert(p[b2] == 44);
    lemma_scan_stop(p, b1 + 7, j2, d2);
}

/// On a canonical encoding, the third digit scan isolates the subject.
proof fn lemma_sub_run(p: Seq<u8>, sub: u128, iat: u64, exp: u64, j2: int, j3: int)
    requires
        p == claims_bytes(sub, iat, exp),
        j2 == 7 + dec_digits(exp as nat).len() + 7 + dec_digits(iat as nat).len(),
        j2 + 8 <= j3 <= p.len(),
        forall|k: int| j2 + 8 <= k < j3 ==> is_digit(#[trigger] p[k]),
        j3 < p.len() ==> !is_digit(p[j3]),
    ensures
        j3 == j2 + 8 + dec_digits(sub as nat).len(),
        p.subrange(j2 + 8, j3) == dec_digits(sub as nat),
{
    lemma_claims_structure(sub, iat, exp);
    lemma_dec_digits_shape(sub as nat);
    let d3 = dec_digits(sub as nat);
    let b3 = j2 + 8 + d3.len() as int;
    assert forall|k: int| j2 + 8 <= k < b3 implies p[k] == d3[k - (j2 + 8)] by {
        assert(p.subrange(j2 + 8, b3)[k - (j2 + 8)] == p[k]);
    }
    assert(p[b3] == p.subrange(b3, b3 + 2)[0]);
    assert(p[b3] == 34);
    lemma_scan_stop(p, j2 + 8, j3, d3);
}

} // verus!
