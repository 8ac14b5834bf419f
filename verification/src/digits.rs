//! Canonical decimal notation over byte strings.
//!
//! [`dec_digits`] is the one decimal spelling of a number this crate ever
//! produces or accepts: ASCII digits, no sign, no leading zero. The parsers
//! are exact inverses of it — they accept a byte string if and only if it is
//! `dec_digits` of some value in range — which is what makes the token
//! claim encoding unambiguous.

use vstd::prelude::*;

verus! {

/// The canonical decimal spelling of `n` as ASCII bytes.
pub open spec fn dec_digits(n: nat) -> Seq<u8>
    decreases n,
{
    if n < 10 {
        seq![(48 + n) as u8]
    } else {
        dec_digits(n / 10) + seq![(48 + n % 10) as u8]
    }
}

/// Whether `b` is an ASCII digit.
pub open spec fn is_digit(b: u8) -> bool {
    48 <= b <= 57
}

/// The number denoted by a digit string, most significant digit first.
pub open spec fn digits_val(s: Seq<u8>) -> nat
    decreases s.len(),
{
    if s.len() == 0 {
        0
    } else {
        digits_val(s.drop_last()) * 10 + (s.last() - 48) as nat
    }
}

/// Every byte of a canonical spelling is a digit, the string is nonempty,
/// and it starts with `'0'` only when it spells zero itself.
pub proof fn lemma_dec_digits_shape(n: nat)
    ensures
        dec_digits(n).len() >= 1,
        forall|k: int| 0 <= k < dec_digits(n).len() ==> is_digit(#[trigger] dec_digits(n)[k]),
        dec_digits(n)[0] == 48 <==> n == 0,
    decreases n,
{
    if n >= 10 {
        lemma_dec_digits_shape(n / 10);
    }
}

/// A canonical spelling denotes the number it was built from.
pub proof fn lemma_dec_digits_val(n: nat)
    ensures
        digits_val(dec_digits(n)) == n,
    decreases n,
{
    if n < 10 {
        let s = dec_digits(n);
        assert(s.len() == 1);
        assert(s.drop_last() =~= Seq::<u8>::empty());
        assert(digits_val(s.drop_last()) == 0);
        assert(s.last() == (48 + n) as u8);
    } else {
        lemma_dec_digits_val(n / 10);
        assert(dec_digits(n).drop_last() =~= dec_digits(n / 10));
        assert(dec_digits(n).last() == (48 + n % 10) as u8);
    }
}

/// Two numbers with the same canonical spelling are equal.
pub proof fn lemma_dec_digits_injective(a: nat, b: nat)
    requires
        dec_digits(a) == dec_digits(b),
    ensures
        a == b,
{
    lemma_dec_digits_val(a);
    lemma_dec_digits_val(b);
}

/// A nonempty all-digit string with no leading zero is the canonical
/// spelling of its own value.
pub proof fn lemma_digits_canonical(s: Seq<u8>)
    requires
        s.len() >= 1,
        forall|k: int| 0 <= k < s.len() ==> is_digit(#[trigger] s[k]),
        s[0] != 48 || s.len() == 1,
    ensures
        s == dec_digits(digits_val(s)),
    decreases s.len(),
{
    if s.len() == 1 {
        assert(s.drop_last() =~= Seq::<u8>::empty());
        assert(digits_val(s.drop_last()) == 0);
        assert(s.last() == s[0]);
        assert(digits_val(s) == (s[0] - 48) as nat);
        assert(dec_digits(digits_val(s)) =~= s);
    } else {
        let butlast = s.drop_last();
        assert(forall|k: int| 0 <= k < butlast.len() ==> is_digit(#[trigger] butlast[k]));
        lemma_digits_canonical(butlast);
        let v = digits_val(butlast);
        lemma_dec_digits_shape(v);
        // no leading zero and at least one digit before the last one,
        // so the leading part denotes a positive value
        assert(butlast[0] == s[0]);
        assert(v >= 1);
        let w = digits_val(s);
        assert(w == v * 10 + (s.last() - 48) as nat);
        assert(w >= 10);
        assert(w / 10 == v && w % 10 == (s.last() - 48) as nat) by (nonlinear_arith)
            requires
                w == v * 10 + (s.last() - 48) as nat,
                ((s.last() - 48) as nat) < 10;
        assert(dec_digits(w) =~= dec_digits(v) + seq![s.last()]);
        assert(dec_digits(w) =~= s);
    }
}

/// The value of a digit-string prefix never exceeds the value of the whole.
pub proof fn lemma_digits_val_prefix(s: Seq<u8>, i: int)
    requires
        0 <= i <= s.len(),
        forall|k: int| 0 <= k < s.len() ==> is_digit(#[trigger] s[k]),
    ensures
        digits_val(s.take(i)) <= digits_val(s),
    decreases s.len() - i,
{
    if i < s.len() {
        lemma_digits_val_prefix(s, i + 1);
        assert(s.take(i + 1).drop_last() =~= s.take(i));
        assert(digits_val(s.take(i + 1)) == digits_val(s.take(i)) * 10 + (s[i] - 48) as nat);
        assert(digits_val(s.take(i)) <= digits_val(s.take(i)) * 10) by (nonlinear_arith)
            requires digits_val(s.take(i)) >= 0;
    } else {
        assert(s.take(i) =~= s);
    }
}

/// Renders `n` in canonical decimal notation.
pub fn u64_to_dec(n: u64) -> (v: Vec<u8>)
    ensures
        v@ == dec_digits(n as nat),
    decreases n,
{
    if n < 10 {
        let mut v: Vec<u8> = Vec::new();
        v.push(48 + n as u8);
        proof {
            assert(v@ =~= dec_digits(n as nat));
        }
        v
    } else {
        let mut v = u64_to_dec(n / 10);
        v.push(48 + (n % 10) as u8);
        proof {
            assert(v@ =~= dec_digits(n as nat));
        }
        v
    }
}

/// Renders `n` in canonical decimal notation.
pub fn u128_to_dec(n: u128) -> (v: Vec<u8>)
    ensures
        v@ == dec_digits(n as nat),
    decreases n,
{
    if n < 10 {
        let mut v: Vec<u8> = Vec::new();
        v.push(48 + n as u8);
        proof {
            assert(v@ =~= dec_digits(n as nat));
        }
        v
    } else {
        let mut v = u128_to_dec(n / 10);
        v.push(48 + (n % 10) as u8);
        proof {
            assert(v@ =~= dec_digits(n as nat));
        }
        v
    }
}

/// Parses canonical decimal notation, and nothing else, into a `u64`.
pub fn parse_dec_u64(s: &[u8]) -> (r: Option<u64>)
    ensures
        r matches Some(n) ==> s@ == dec_digits(n as nat),
        forall|n: u64| s@ == dec_digits(n as nat) ==> r == Some(n),
{
    parse_dec_u64_impl(s)
}

fn parse_dec_u64_impl(s: &[u8]) -> (r: Option<u64>)
    ensures
        r matches Some(n) ==> s@ == dec_digits(n as nat),
        forall|n: u64| s@ == dec_digits(n as nat) ==> r == Some(n),
{
    proof {
        // connects every canonical spelling to the shape checks below
        assert forall|n: u64| s@ == dec_digits(n as nat) implies #[trigger] dec_digits(n as nat)
            == s@ && s@.len() >= 1 && (forall|k: int|
            0 <= k < s@.len() ==> is_digit(#[trigger] s@[k])) && (s@[0] == 48 <==> n == 0) by {
            lemma_dec_digits_shape(n as nat);
        }
    }
    if s.len() == 0 {
        return None;
    }
    if s[0] == 48 && s.len() > 1 {
        proof {
            assert forall|n: u64| s@ != dec_digits(n as nat) by {
                lemma_dec_digits_shape(n as nat);
                if s@ == dec_digits(n as nat) {
                    assert(n == 0);
                    assert(dec_digits(0).len() == 1);
                }
            }
        }
        return None;
    }
    let mut acc: u64 = 0;
    let mut i: usize = 0;
    while i < s.len()
        invariant
            0 <= i <= s@.len(),
            s@.len() >= 1,
            forall|k: int| 0 <= k < i ==> is_digit(#[trigger] s@[k]),
            acc as nat == digits_val(s@.take(i as int)),
            s@[0] != 48 || s@.len() == 1,
        decreases s@.len() - i,
    {
        let b = s[i];
        if b < 48 || b > 57 {
            proof {
                assert forall|n: u64| s@ != dec_digits(n as nat) by {
                    lemma_dec_digits_shape(n as nat);
                }
            }
            return None;
        }
        let d = (b - 48) as u64;
        if acc > (u64::MAX - d) / 10 {
            proof {
                assert forall|n: u64| s@ != dec_digits(n as nat) by {
                    lemma_dec_digits_shape(n as nat);
                    if s@ == dec_digits(n as nat) {
                        lemma_dec_digits_val(n as nat);
                        lemma_digits_val_prefix(s@, i + 1);
                        assert(s@.take(i + 1).drop_last() =~= s@.take(i as int));
                        assert(digits_val(s@.take(i + 1)) == acc as nat * 10 + d as nat);
                        assert(acc as nat * 10 + d as nat <= n as nat);
                        assert(acc > (u64::MAX - d) / 10);
                        assert(acc as nat * 10 + d as nat > u64::MAX) by (nonlinear_arith)
                            requires
                                acc > (u64::MAX - d) / 10,
                                d < 10,
                                acc as nat >= 0;
                    }
                }
            }
            return None;
        }
        proof {
            assert(acc as nat * 10 + d as nat <= u64::MAX) by (nonlinear_arith)
                requires
                    acc <= (u64::MAX - d) / 10,
                    d < 10,
                    acc >= 0;
            assert(s@.take(i + 1).drop_last() =~= s@.take(i as int));
        }
        acc = acc * 10 + d;
        i = i + 1;
    }
    proof {
        assert(s@.take(i as int) =~= s@);
        lemma_digits_canonical(s@);
        assert forall|n: u64| s@ == dec_digits(n as nat) implies Some(acc) == Some(n) by {
            lemma_dec_digits_val(n as nat);
        }
    }
    Some(acc)
}

/// Parses canonical decimal notation, and nothing else, into a `u128`.
pub fn parse_dec_u128(s: &[u8]) -> (r: Option<u128>)
    ensures
        r matches Some(n) ==> s@ == dec_digits(n as nat),
        forall|n: u128| s@ == dec_digits(n as nat) ==> r == Some(n),
{
    proof {
        assert forall|n: u128| s@ == dec_digits(n as nat) implies #[trigger] dec_digits(n as nat)
            == s@ && s@.len() >= 1 && (forall|k: int|
            0 <= k < s@.len() ==> is_digit(#[trigger] s@[k])) && (s@[0] == 48 <==> n == 0) by {
            lemma_dec_digits_shape(n as nat);
        }
    }
    if s.len() == 0 {
        return None;
    }
    if s[0] == 48 && s.len() > 1 {
        proof {
            assert forall|n: u128| s@ != dec_digits(n as nat) by {
                lemma_dec_digits_shape(n as nat);
                if s@ == dec_digits(n as nat) {
                    assert(n == 0);
                    assert(dec_digits(0).len() == 1);
                }
            }
        }
        return None;
    }
    let mut acc: u128 = 0;
    let mut i: usize = 0;
    while i < s.len()
        invariant
            0 <= i <= s@.len(),
            s@.len() >= 1,
            forall|k: int| 0 <= k < i ==> is_digit(#[trigger] s@[k]),
            acc as nat == digits_val(s@.take(i as int)),
            s@[0] != 48 || s@.len() == 1,
        decreases s@.len() - i,
    {
        let b = s[i];
        if b < 48 || b > 57 {
            proof {
                assert forall|n: u128| s@ != dec_digits(n as nat) by {
                    lemma_dec_digits_shape(n as nat);
                }
            }
            return None;
        }
        let d = (b - 48) as u128;
        if acc > (u128::MAX - d) / 10 {
            proof {
                assert forall|n: u128| s@ != dec_digits(n as nat) by {
                    lemma_dec_digits_shape(n as nat);
                    if s@ == dec_digits(n as nat) {
                        lemma_dec_digits_val(n as nat);
                        lemma_digits_val_prefix(s@, i + 1);
                        assert(s@.take(i + 1).drop_last() =~= s@.take(i as int));
                        assert(digits_val(s@.take(i + 1)) == acc as nat * 10 + d as nat);
                        assert(acc as nat * 10 + d as nat <= n as nat);
                        assert(acc > (u128::MAX - d) / 10);
                        assert(acc as nat * 10 + d as nat > u128::MAX) by (nonlinear_arith)
                            requires
                                acc > (u128::MAX - d) / 10,
                                d < 10,
                                acc as nat >= 0;
                    }
                }
            }
            return None;
        }
        proof {
            assert(acc as nat * 10 + d as nat <= u128::MAX) by (nonlinear_arith)
                requires
                    acc <= (u128::MAX - d) / 10,
                    d < 10,
                    acc >= 0;
            assert(s@.take(i + 1).drop_last() =~= s@.take(i as int));
        }
        acc = acc * 10 + d;
        i = i + 1;
    }
    proof {
        assert(s@.take(i as int) =~= s@);
        lemma_digits_canonical(s@);
        assert forall|n: u128| s@ == dec_digits(n as nat) implies Some(acc) == Some(n) by {
            lemma_dec_digits_val(n as nat);
        }
    }
    Some(acc)
}

} // verus!
