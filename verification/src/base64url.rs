//! URL-safe base64 without padding, over byte strings.
//!
//! [`b64`] is the canonical encoding this crate uses for the two claim
//! segments of a token and for its signature segment: the alphabet is
//! `A`–`Z`, `a`–`z`, `0`–`9`, `-`, `_`, groups of three bytes become four
//! characters, and a trailing group of one or two bytes becomes two or
//! three characters whose unused low bits are zero. The decoder accepts a
//! string if and only if it is `b64` of some byte string, so the encoding
//! is unambiguous in both directions.

use vstd::prelude::*;

verus! {

/// The alphabet character for a sextet value.
pub open spec fn b64_char(x: int) -> u8 {
    if x < 26 {
        (65 + x) as u8
    } else if x < 52 {
        (97 + (x - 26)) as u8
    } else if x < 62 {
        (48 + (x - 52)) as u8
    } else if x == 62 {
        45
    } else {
        95
    }
}

/// Whether `b` is a character of the URL-safe alphabet.
pub open spec fn is_b64_char(b: u8) -> bool {
    (65 <= b <= 90) || (97 <= b <= 122) || (48 <= b <= 57) || b == 45 || b == 95
}

/// The sextet value of an alphabet character.
pub open spec fn b64_inv(b: u8) -> int {
    if 65 <= b <= 90 {
        b - 65
    } else if 97 <= b <= 122 {
        (b - 97) + 26
    } else if 48 <= b <= 57 {
        (b - 48) + 52
    } else if b == 45 {
        62
    } else {
        63
    }
}

/// The alphabet map and its inverse cancel in both directions.
pub proof fn lemma_b64_char_inv(x: int, b: u8)
    ensures
        0 <= x < 64 ==> is_b64_char(b64_char(x)) && b64_inv(b64_char(x)) == x,
        is_b64_char(b) ==> 0 <= b64_inv(b) < 64 && b64_char(b64_inv(b)) == b,
{
}

/// The canonical URL-safe base64 encoding of `s`, without padding.
pub open spec fn b64(s: Seq<u8>) -> Seq<u8>
    decreases s.len(),
{
    if s.len() == 0 {
        Seq::empty()
    } else if s.len() == 1 {
        let x = s[0] as int;
        seq![b64_char(x / 4), b64_char((x % 4) * 16)]
    } else if s.len() == 2 {
        let x = s[0] as int;
        let y = s[1] as int;
        seq![b64_char(x / 4), b64_char((x % 4) * 16 + y / 16), b64_char((y % 16) * 4)]
    } else {
        let x = s[0] as int;
        let y = s[1] as int;
        let z = s[2] as int;
        seq![
            b64_char(x / 4),
            b64_char((x % 4) * 16 + y / 16),
            b64_char((y % 16) * 4 + z / 64),
            b64_char(z % 64),
        ] + b64(s.skip(3))
    }
}

/// Whether every byte of `s` is an alphabet character.
pub open spec fn is_b64_seq(s: Seq<u8>) -> bool {
    forall|k: int| 0 <= k < s.len() ==> is_b64_char(#[trigger] s[k])
}

/// Dividing out a multiple plus a small remainder recovers both parts.
proof fn lemma_div_mul_add(a: int, b: int, k: int)
    by (nonlinear_arith)
    requires
        k > 0,
        0 <= b < k,
        a >= 0,
    ensures
        (a * k + b) / k == a,
        (a * k + b) % k == b,
{
}

/// The length of an encoding: four characters for each full group of
/// three bytes, two or three more for a trailing group.
pub proof fn lemma_b64_len(s: Seq<u8>)
    ensures
        s.len() % 3 == 0 ==> b64(s).len() == (s.len() / 3) * 4,
        s.len() % 3 == 1 ==> b64(s).len() == (s.len() / 3) * 4 + 2,
        s.len() % 3 == 2 ==> b64(s).len() == (s.len() / 3) * 4 + 3,
    decreases s.len(),
{
    if s.len() >= 3 {
        lemma_b64_len(s.skip(3));
    }
}

/// Every byte of an encoding is an alphabet character.
pub proof fn lemma_b64_chars(s: Seq<u8>)
    ensures
        is_b64_seq(b64(s)),
    decreases s.len(),
{
    if s.len() == 0 {
    } else if s.len() == 1 {
        let x = s[0] as int;
        lemma_b64_char_inv(x / 4, 0);
        lemma_b64_char_inv((x % 4) * 16, 0);
    } else if s.len() == 2 {
        let x = s[0] as int;
        let y = s[1] as int;
        lemma_b64_char_inv(x / 4, 0);
        lemma_b64_char_inv((x % 4) * 16 + y / 16, 0);
        lemma_b64_char_inv((y % 16) * 4, 0);
    } else {
        let x = s[0] as int;
        let y = s[1] as int;
        let z = s[2] as int;
        lemma_b64_char_inv(x / 4, 0);
        lemma_b64_char_inv((x % 4) * 16 + y / 16, 0);
        lemma_b64_char_inv((y % 16) * 4 + z / 64, 0);
        lemma_b64_char_inv(z % 64, 0);
        lemma_b64_chars(s.skip(3));
        assert forall|k: int| 0 <= k < b64(s).len() implies is_b64_char(#[trigger] b64(s)[k]) by {
            if k >= 4 {
                assert(b64(s)[k] == b64(s.skip(3))[k - 4]);
            }
        }
    }
}

/// Encoding distributes over a split at a group boundary.
pub proof fn lemma_b64_append(s: Seq<u8>, t: Seq<u8>)
    requires
        s.len() % 3 == 0,
    ensures
        b64(s + t) == b64(s) + b64(t),
    decreases s.len(),
{
    if s.len() == 0 {
        assert(s + t =~= t);
        assert(b64(s) + b64(t) =~= b64(t));
    } else {
        let u = s + t;
        assert(u.len() >= 3);
        assert(u[0] == s[0] && u[1] == s[1] && u[2] == s[2]);
        assert(u.skip(3) =~= s.skip(3) + t);
        lemma_b64_append(s.skip(3), t);
        assert(b64(u) =~= b64(s) + b64(t));
    }
}

/// Two byte strings with the same encoding are equal.
pub proof fn lemma_b64_injective(a: Seq<u8>, b: Seq<u8>)
    requires
        b64(a) == b64(b),
    ensures
        a == b,
    decreases a.len(),
{
    lemma_b64_len(a);
    lemma_b64_len(b);
    // equal encodings force equal lengths: the length map is strictly
    // increasing group by group
    if a.len() != b.len() {
        lemma_b64_len_injective(a.len() as int, b.len() as int);
    }
    if a.len() == 0 {
        assert(a =~= b);
    } else if a.len() == 1 {
        let x = a[0] as int;
        let p = b[0] as int;
        lemma_sextet_bounds(x);
        lemma_sextet_bounds(p);
        assert(b64(a)[0] == b64_char(x / 4) && b64(a)[1] == b64_char((x % 4) * 16));
        assert(b64(b)[0] == b64_char(p / 4) && b64(b)[1] == b64_char((p % 4) * 16));
        lemma_sextets_equal(x / 4, p / 4);
        lemma_sextets_equal((x % 4) * 16, (p % 4) * 16);
        assert(x == (x / 4) * 4 + x % 4 && p == (p / 4) * 4 + p % 4);
        assert(a[0] == b[0]);
        assert(a =~= b);
    } else if a.len() == 2 {
        let (x, y) = (a[0] as int, a[1] as int);
        let (p, q) = (b[0] as int, b[1] as int);
        lemma_sextet_bounds(x);
        lemma_sextet_bounds(y);
        lemma_sextet_bounds(p);
        lemma_sextet_bounds(q);
        assert(b64(a)[0] == b64_char(x / 4));
        assert(b64(a)[1] == b64_char((x % 4) * 16 + y / 16));
        assert(b64(a)[2] == b64_char((y % 16) * 4));
        assert(b64(b)[0] == b64_char(p / 4));
        assert(b64(b)[1] == b64_char((p % 4) * 16 + q / 16));
        assert(b64(b)[2] == b64_char((q % 16) * 4));
        lemma_sextets_equal(x / 4, p / 4);
        lemma_sextets_equal((x % 4) * 16 + y / 16, (p % 4) * 16 + q / 16);
        lemma_sextets_equal((y % 16) * 4, (q % 16) * 4);
        lemma_div_mul_add(x % 4, y / 16, 16);
        lemma_div_mul_add(p % 4, q / 16, 16);
        assert(x == (x / 4) * 4 + x % 4 && p == (p / 4) * 4 + p % 4);
        assert(y == (y / 16) * 16 + y % 16 && q == (q / 16) * 16 + q % 16);
        assert(a[0] == b[0] && a[1] == b[1]);
        assert(a =~= b);
    } else {
        let (x, y, z) = (a[0] as int, a[1] as int, a[2] as int);
        let (p, q, w) = (b[0] as int, b[1] as int, b[2] as int);
        lemma_sextet_bounds(x);
        lemma_sextet_bounds(y);
        lemma_sextet_bounds(z);
        lemma_sextet_bounds(p);
        lemma_sextet_bounds(q);
        lemma_sextet_bounds(w);
        assert(b64(a)[0] == b64_char(x / 4));
        assert(b64(a)[1] == b64_char((x % 4) * 16 + y / 16));
        assert(b64(a)[2] == b64_char((y % 16) * 4 + z / 64));
        assert(b64(a)[3] == b64_char(z % 64));
        assert(b64(b)[0] == b64_char(p / 4));
        assert(b64(b)[1] == b64_char((p % 4) * 16 + q / 16));
        assert(b64(b)[2] == b64_char((q % 16) * 4 + w / 64));
        assert(b64(b)[3] == b64_char(w % 64));
        lemma_sextets_equal(x / 4, p / 4);
        lemma_sextets_equal((x % 4) * 16 + y / 16, (p % 4) * 16 + q / 16);
        lemma_sextets_equal((y % 16) * 4 + z / 64, (q % 16) * 4 + w / 64);
        lemma_sextets_equal(z % 64, w % 64);
        lemma_div_mul_add(x % 4, y / 16, 16);
        lemma_div_mul_add(p % 4, q / 16, 16);
        lemma_div_mul_add(y % 16, z / 64, 4);
        lemma_div_mul_add(q % 16, w / 64, 4);
        assert(x == (x / 4) * 4 + x % 4 && p == (p / 4) * 4 + p % 4);
        assert(y == (y / 16) * 16 + y % 16 && q == (q / 16) * 16 + q % 16);
        assert(z == (z / 64) * 64 + z % 64 && w == (w / 64) * 64 + w % 64);
        assert(a[0] == b[0] && a[1] == b[1] && a[2] == b[2]);
        assert(b64(a).skip(4) =~= b64(a.skip(3)));
        assert(b64(b).skip(4) =~= b64(b.skip(3)));
        lemma_b64_injective(a.skip(3), b.skip(3));
        assert forall|i: int| 0 <= i < a.len() implies a[i] == b[i] by {
            if i >= 3 {
                assert(a[i] == a.skip(3)[i - 3]);
                assert(b[i] == b.skip(3)[i - 3]);
            }
        }
        assert(a =~= b);
    }
}

/// The sextet pieces of a byte value stay within six bits.
proof fn lemma_sextet_bounds(x: int)
    by (nonlinear_arith)
    requires
        0 <= x < 256,
    ensures
        0 <= x / 4 < 64,
        0 <= x % 4 < 4,
        0 <= x / 16 < 16,
        0 <= x % 16 < 16,
        0 <= x / 64 < 4,
        0 <= x % 64 < 64,
        (x % 4) * 16 < 64,
        (x % 16) * 4 < 64,
{
}

/// Equal alphabet characters come from equal sextet values.
proof fn lemma_sextets_equal(x: int, y: int)
    requires
        0 <= x < 64,
        0 <= y < 64,
        b64_char(x) == b64_char(y),
    ensures
        x == y,
{
    lemma_b64_char_inv(x, 0);
    lemma_b64_char_inv(y, 0);
}

/// Distinct byte-string lengths give distinct encoding lengths.
proof fn lemma_b64_len_injective(m: int, n: int)
    by (nonlinear_arith)
    requires
        m >= 0,
        n >= 0,
        m != n,
    ensures
        (m / 3) * 4 + (if m % 3 == 0 { 0int } else if m % 3 == 1 { 2 } else { 3 })
            != (n / 3) * 4 + (if n % 3 == 0 { 0int } else if n % 3 == 1 { 2 } else { 3 }),
{
}

/// The alphabet character for a sextet value.
fn b64_char_of(x: u8) -> (r: u8)
    requires
        x < 64,
    ensures
        r == b64_char(x as int),
{
    if x < 26 {
        65 + x
    } else if x < 52 {
        97 + (x - 26)
    } else if x < 62 {
        48 + (x - 52)
    } else if x == 62 {
        45
    } else {
        95
    }
}

/// The sextet value of an alphabet character, or `None` outside the alphabet.
fn sextet_of(c: u8) -> (r: Option<u8>)
    ensures
        r matches Some(x) ==> is_b64_char(c) && x < 64 && x as int == b64_inv(c),
        r is None ==> !is_b64_char(c),
{
    if 65 <= c && c <= 90 {
        Some(c - 65)
    } else if 97 <= c && c <= 122 {
        Some(c - 97 + 26)
    } else if 48 <= c && c <= 57 {
        Some(c - 48 + 52)
    } else if c == 45 {
        Some(62)
    } else if c == 95 {
        Some(63)
    } else {
        None
    }
}

/// Encodes `s` in canonical URL-safe base64 without padding.
#[verifier::rlimit(100)]
pub fn b64_encode(s: &[u8]) -> (r: Vec<u8>)
    ensures
        r@ == b64(s@),
{
    let n = s.len();
    let mut out: Vec<u8> = Vec::new();
    let mut i: usize = 0;
    while n - i >= 3
        invariant
            i <= n,
            n == s@.len(),
            i % 3 == 0,
            out@ == b64(s@.take(i as int)),
        decreases n - i,
    {
        let x = s[i];
        let y = s[i + 1];
        let z = s[i + 2];
        proof {
            lemma_sextet_bounds(x as int);
            lemma_sextet_bounds(y as int);
            lemma_sextet_bounds(z as int);
        }
        let c0 = b64_char_of(x / 4);
        let c1 = b64_char_of((x % 4) * 16 + y / 16);
        let c2 = b64_char_of((y % 16) * 4 + z / 64);
        let c3 = b64_char_of(z % 64);
        out.push(c0);
        out.push(c1);
        out.push(c2);
        out.push(c3);
        proof {
            let chunk = s@.subrange(i as int, i + 3);
            lemma_b64_append(s@.take(i as int), chunk);
            assert(s@.take(i as int) + chunk =~= s@.take(i + 3));
            assert(chunk.len() == 3);
            assert(chunk.skip(3) =~= Seq::<u8>::empty());
            assert(b64(chunk.skip(3)) =~= Seq::<u8>::empty());
            assert(chunk[0] == x && chunk[1] == y && chunk[2] == z);
            assert(c0 == b64_char(x as int / 4));
            assert(c1 == b64_char((x as int % 4) * 16 + y as int / 16));
            assert(c2 == b64_char((y as int % 16) * 4 + z as int / 64));
            assert(c3 == b64_char(z as int % 64));
            assert(b64(chunk) =~= seq![c0, c1, c2, c3]);
            assert(out@ =~= b64(s@.take(i + 3)));
        }
        i = i + 3;
    }
    if n - i == 1 {
        let x = s[i];
        proof {
            lemma_sextet_bounds(x as int);
        }
        let c0 = b64_char_of(x / 4);
        let c1 = b64_char_of((x % 4) * 16);
        out.push(c0);
        out.push(c1);
        proof {
            let chunk = s@.subrange(i as int, n as int);
            lemma_b64_append(s@.take(i as int), chunk);
            assert(s@.take(i as int) + chunk =~= s@);
            assert(chunk[0] == x);
            assert(b64(chunk) =~= seq![c0, c1]);
            assert(out@ =~= b64(s@));
        }
    } else if n - i == 2 {
        let x = s[i];
        let y = s[i + 1];
        proof {
            lemma_sextet_bounds(x as int);
            lemma_sextet_bounds(y as int);
        }
        let c0 = b64_char_of(x / 4);
        let c1 = b64_char_of((x % 4) * 16 + y / 16);
        let c2 = b64_char_of((y % 16) * 4);
        out.push(c0);
        out.push(c1);
        out.push(c2);
        proof {
            let chunk = s@.subrange(i as int, n as int);
            lemma_b64_append(s@.take(i as int), chunk);
            assert(s@.take(i as int) + chunk =~= s@);
            assert(chunk[0] == x && chunk[1] == y);
            assert(b64(chunk) =~= seq![c0, c1, c2]);
            assert(out@ =~= b64(s@));
        }
    } else {
        proof {
            assert(s@.take(i as int) =~= s@);
        }
    }
    out
}

/// Decodes canonical URL-safe base64 without padding, and nothing else.
///
/// Rejects any byte outside the alphabet, any length the encoder cannot
/// produce, and any trailing group whose unused low bits are not zero, so
/// acceptance means the input is exactly `b64` of the result.
#[verifier::rlimit(60)]
pub fn b64_decode(s: &[u8]) -> (r: Option<Vec<u8>>)
    ensures
        match r {
            Some(d) => s@ == b64(d@),
            None => forall|y: Seq<u8>| s@ != b64(y),
        },
{
    let n = s.len();
    if n % 4 == 1 {
        proof {
            assert forall|y: Seq<u8>| s@ != b64(y) by {
                if s@ == b64(y) {
                    lemma_b64_len(y);
                    let m = y.len() as int;
                    if m % 3 == 0 {
                        lemma_div_mul_add(m / 3, 0, 4);
                        assert((m / 3) * 4 % 4 == 0);
                    } else if m % 3 == 1 {
                        lemma_div_mul_add(m / 3, 2, 4);
                        assert(((m / 3) * 4 + 2) % 4 == 2);
                    } else {
                        lemma_div_mul_add(m / 3, 3, 4);
                        assert(((m / 3) * 4 + 3) % 4 == 3);
                    }
                }
            }
        }
        return None;
    }
    let mut out: Vec<u8> = Vec::new();
    let mut i: usize = 0;
    while n - i >= 4
        invariant
            i <= n,
            n == s@.len(),
            i % 4 == 0,
            n % 4 != 1,
            out@.len() % 3 == 0,
            b64(out@) == s@.take(i as int),
        decreases n - i,
    {
        let s0 = match sextet_of(s[i]) {
            Some(v) => v,
            None => {
                proof {
                    lemma_reject_bad_char(s@, i as int);
                }
                return None;
            },
        };
        let s1 = match sextet_of(s[i + 1]) {
            Some(v) => v,
            None => {
                proof {
                    lemma_reject_bad_char(s@, i + 1);
                }
                return None;
            },
        };
        let s2 = match sextet_of(s[i + 2]) {
            Some(v) => v,
            None => {
                proof {
                    lemma_reject_bad_char(s@, i + 2);
                }
                return None;
            },
        };
        let s3 = match sextet_of(s[i + 3]) {
            Some(v) => v,
            None => {
                proof {
                    lemma_reject_bad_char(s@, i + 3);
                }
                return None;
            },
        };
        let x = s0 * 4 + s1 / 16;
        let y = (s1 % 16) * 16 + s2 / 4;
        let z = (s2 % 4) * 64 + s3;
        let ghost prev = out@;
        out.push(x);
        out.push(y);
        out.push(z);
        proof {
            let chunk = seq![x, y, z];
            assert(out@ =~= prev + chunk);
            lemma_b64_append(prev, chunk);
            lemma_div_mul_add(s0 as int, s1 as int / 16, 4);
            lemma_div_mul_add(s1 as int % 16, s2 as int / 4, 16);
            lemma_div_mul_add(s2 as int % 4, s3 as int, 64);
            lemma_b64_char_inv(0, s@[i as int]);
            lemma_b64_char_inv(0, s@[i + 1]);
            lemma_b64_char_inv(0, s@[i + 2]);
            lemma_b64_char_inv(0, s@[i + 3]);
            assert(chunk.len() == 3);
            assert(chunk.skip(3) =~= Seq::<u8>::empty());
            assert(b64(chunk.skip(3)) =~= Seq::<u8>::empty());
            assert(chunk[0] == x && chunk[1] == y && chunk[2] == z);
            assert(x as int == s0 as int * 4 + s1 as int / 16);
            assert(x as int / 4 == s0 as int && x as int % 4 == s1 as int / 16);
            assert(y as int / 16 == s1 as int % 16 && y as int % 16 == s2 as int / 4);
            assert(z as int / 64 == s2 as int % 4 && z as int % 64 == s3 as int);
            assert(b64_char(x as int / 4) == s@[i as int]);
            assert(b64_char((x as int % 4) * 16 + y as int / 16) == s@[i + 1]);
            assert(b64_char((y as int % 16) * 4 + z as int / 64) == s@[i + 2]);
            assert(b64_char(z as int % 64) == s@[i + 3]);
            assert(b64(chunk) =~= seq![s@[i as int], s@[i + 1], s@[i + 2], s@[i + 3]]);
            assert(b64(chunk) =~= s@.subrange(i as int, i + 4));
            assert(s@.take(i as int) + s@.subrange(i as int, i + 4) =~= s@.take(i + 4));
            assert(b64(out@) == s@.take(i + 4));
        }
        i = i + 4;
    }
    if n - i == 0 {
        proof {
            assert(s@.take(i as int) =~= s@);
        }
        Some(out)
    } else if n - i == 2 {
        let s0 = match sextet_of(s[i]) {
            Some(v) => v,
            None => {
                proof {
                    lemma_reject_bad_char(s@, i as int);
                }
                return None;
            },
        };
        let s1 = match sextet_of(s[i + 1]) {
            Some(v) => v,
            None => {
                proof {
                    lemma_reject_bad_char(s@, i + 1);
                }
                return None;
            },
        };
        if s1 % 16 != 0 {
            proof {
                lemma_reject_tail_two(s@, s1);
            }
            return None;
        }
        let x = s0 * 4 + s1 / 16;
        let ghost prev = out@;
        out.push(x);
        proof {
            let chunk = seq![x];
            assert(out@ =~= prev + chunk);
            lemma_b64_append(prev, chunk);
            lemma_div_mul_add(s0 as int, s1 as int / 16, 4);
            lemma_div_mul_add(s1 as int / 16, 0, 16);
            lemma_b64_char_inv(0, s@[i as int]);
            lemma_b64_char_inv(0, s@[i + 1]);
            assert(b64(chunk) =~= seq![s@[i as int], s@[i + 1]]);
            assert(b64(chunk) =~= s@.subrange(i as int, n as int));
            assert(s@.take(i as int) + s@.subrange(i as int, n as int) =~= s@);
            assert(b64(out@) == s@);
        }
        Some(out)
    } else {
        let s0 = match sextet_of(s[i]) {
            Some(v) => v,
            None => {
                proof {
                    lemma_reject_bad_char(s@, i as int);
                }
                return None;
            },
        };
        let s1 = match sextet_of(s[i + 1]) {
            Some(v) => v,
            None => {
                proof {
                    lemma_reject_bad_char(s@, i + 1);
                }
                return None;
            },
        };
        let s2 = match sextet_of(s[i + 2]) {
            Some(v) => v,
            None => {
                proof {
                    lemma_reject_bad_char(s@, i + 2);
                }
                return None;
            },
        };
        if s2 % 4 != 0 {
            proof {
                lemma_reject_tail_three(s@, s2);
            }
            return None;
        }
        let x = s0 * 4 + s1 / 16;
        let y = (s1 % 16) * 16 + s2 / 4;
        let ghost prev = out@;
        out.push(x);
        out.push(y);
        proof {
            let chunk = seq![x, y];
            assert(out@ =~= prev + chunk);
            lemma_b64_append(prev, chunk);
            lemma_div_mul_add(s0 as int, s1 as int / 16, 4);
            lemma_div_mul_add(s1 as int % 16, s2 as int / 4, 16);
            lemma_div_mul_add(s2 as int / 4, 0, 4);
            lemma_b64_char_inv(0, s@[i as int]);
            lemma_b64_char_inv(0, s@[i + 1]);
            lemma_b64_char_inv(0, s@[i + 2]);
            assert(b64(chunk) =~= seq![s@[i as int], s@[i + 1], s@[i + 2]]);
            assert(b64(chunk) =~= s@.subrange(i as int, n as int));
            assert(s@.take(i as int) + s@.subrange(i as int, n as int) =~= s@);
            assert(b64(out@) == s@);
        }
        Some(out)
    }
}

/// A byte outside the alphabet rules out every encoding.
proof fn lemma_reject_bad_char(s: Seq<u8>, j: int)
    requires
        0 <= j < s.len(),
        !is_b64_char(s[j]),
    ensures
        forall|y: Seq<u8>| s != b64(y),
{
    assert forall|y: Seq<u8>| s != b64(y) by {
        if s == b64(y) {
            lemma_b64_chars(y);
        }
    }
}

/// A two-character tail whose second sextet has nonzero low bits rules
/// out every encoding.
proof fn lemma_reject_tail_two(s: Seq<u8>, s1: u8)
    requires
        s.len() % 4 == 2,
        s.len() >= 2,
        is_b64_char(s[s.len() - 1]),
        s1 as int == b64_inv(s[s.len() - 1]),
        s1 % 16 != 0,
    ensures
        forall|y: Seq<u8>| s != b64(y),
{
    assert forall|y: Seq<u8>| s != b64(y) by {
        if s == b64(y) {
            lemma_b64_len(y);
            let m = y.len() as int;
            lemma_tail_mod(m, s.len() as int);
            assert(m % 3 == 1);
            let head = y.take(m - 1);
            let tail = y.skip(m - 1);
            assert(head + tail =~= y);
            lemma_b64_append(head, tail);
            assert(tail.len() == 1);
            let v = tail[0] as int;
            lemma_sextet_bounds(v);
            assert(b64(tail) =~= seq![b64_char(v / 4), b64_char((v % 4) * 16)]);
            lemma_b64_len(head);
            assert(s[s.len() - 1] == b64(tail)[1]);
            lemma_b64_char_inv((v % 4) * 16, 0);
            lemma_div_mul_add(v % 4, 0, 16);
            assert(s1 as int == (v % 4) * 16);
            assert(s1 % 16 == 0);
        }
    }
}

/// A three-character tail whose third sextet has nonzero low bits rules
/// out every encoding.
proof fn lemma_reject_tail_three(s: Seq<u8>, s2: u8)
    requires
        s.len() % 4 == 3,
        s.len() >= 3,
        is_b64_char(s[s.len() - 1]),
        s2 as int == b64_inv(s[s.len() - 1]),
        s2 % 4 != 0,
    ensures
        forall|y: Seq<u8>| s != b64(y),
{
    assert forall|y: Seq<u8>| s != b64(y) by {
        if s == b64(y) {
            lemma_b64_len(y);
            let m = y.len() as int;
            lemma_tail_mod(m, s.len() as int);
            assert(m % 3 == 2);
            let head = y.take(m - 2);
            let tail = y.skip(m - 2);
            assert(head + tail =~= y);
            lemma_b64_append(head, tail);
            assert(tail.len() == 2);
            let v = tail[1] as int;
            lemma_sextet_bounds(v);
            lemma_sextet_bounds(tail[0] as int);
            lemma_b64_len(head);
            assert(s[s.len() - 1] == b64(tail)[2]);
            lemma_b64_char_inv((v % 16) * 4, 0);
            lemma_div_mul_add(v % 16, 0, 4);
            assert(s2 as int == (v % 16) * 4);
            assert(s2 % 4 == 0);
        }
    }
}

/// Reads the byte-string length class off the encoding length.
proof fn lemma_tail_mod(m: int, n: int)
    requires
        m >= 0,
        m % 3 == 0 ==> n == (m / 3) * 4,
        m % 3 == 1 ==> n == (m / 3) * 4 + 2,
        m % 3 == 2 ==> n == (m / 3) * 4 + 3,
    ensures
        n % 4 == 2 ==> m % 3 == 1,
        n % 4 == 3 ==> m % 3 == 2,
        n % 4 == 0 ==> m % 3 == 0,
{
    if m % 3 == 0 {
        lemma_div_mul_add(m / 3, 0, 4);
    } else if m % 3 == 1 {
        lemma_div_mul_add(m / 3, 2, 4);
    } else {
        lemma_div_mul_add(m / 3, 3, 4);
    }
}

} // verus!
