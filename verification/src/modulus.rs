use vstd::prelude::*;

verus! {

/// `2^64`, the base of the little-endian digits of a modulus.
pub open spec fn digit_base() -> nat {
    0x1_0000_0000_0000_0000
}

/// The natural number with the little-endian base-`2^64` digits `s`.
pub open spec fn digits_value(s: Seq<u64>) -> nat
    decreases s.len(),
{
    if s.len() == 0 {
        0
    } else {
        s[0] as nat + digit_base() * digits_value(s.drop_first())
    }
}

/// Digits are all zero exactly when their value is zero.
pub proof fn lemma_digits_value_zero(s: Seq<u64>)
    ensures
        digits_value(s) == 0 <==> (forall|i: int| 0 <= i < s.len() ==> s[i] == 0),
    decreases s.len(),
{
    if s.len() > 0 {
        lemma_digits_value_zero(s.drop_first());
        if digits_value(s) == 0 {
            assert(digits_value(s.drop_first()) == 0) by (nonlinear_arith)
                requires
                    digits_value(s) == s[0] as nat + digit_base() * digits_value(s.drop_first()),
                    digits_value(s) == 0,
                    digit_base() > 0,
            ;
            assert forall|i: int| 0 <= i < s.len() implies s[i] == 0 by {
                if i > 0 {
                    assert(s.drop_first()[i - 1] == s[i]);
                }
            }
        }
        if forall|i: int| 0 <= i < s.len() ==> s[i] == 0 {
            assert forall|i: int| 0 <= i < s.drop_first().len() implies s.drop_first()[i] == 0 by {
                assert(s.drop_first()[i] == s[i + 1]);
            }
        }
    }
}

/// The value of a modulus given by its little-endian `u64` digits, if it is below `2^128`.
pub fn modulus_as_u128(digits: &Vec<u64>) -> (r: Option<u128>)
    ensures
        r == (if digits_value(digits@) <= u128::MAX {
            Some(digits_value(digits@) as u128)
        } else {
            None::<u128>
        }),
{
    let ghost s = digits@;
    let len = digits.len();
    let mut i: usize = 2;
    while i < len
        invariant
            s == digits@,
            len == s.len(),
            2 <= i,
            forall|j: int| 2 <= j < i && j < len ==> s[j] == 0,
        decreases len - i,
    {
        if digits[i] != 0 {
            proof {
                let rest = s.drop_first().drop_first();
                assert(rest[i - 2] == s[i as int]);
                lemma_digits_value_zero(rest);
                assert(digits_value(rest) >= 1);
                let d1 = s.drop_first();
                assert(digits_value(d1) >= digit_base()) by (nonlinear_arith)
                    requires
                        digits_value(d1) == d1[0] as nat + digit_base() * digits_value(rest),
                        digits_value(rest) >= 1,
                ;
                assert(digits_value(s) >= digit_base() * digit_base()) by (nonlinear_arith)
                    requires
                        digits_value(s) == s[0] as nat + digit_base() * digits_value(d1),
                        digits_value(d1) >= digit_base(),
                ;
            }
            return None;
        }
        i = i + 1;
    }
    let d0: u128 = if len > 0 { digits[0] as u128 } else { 0 };
    let d1: u128 = if len > 1 { digits[1] as u128 } else { 0 };
    proof {
        if len == 0 {
            assert(digits_value(s) == 0);
        } else if len == 1 {
            assert(s.drop_first().len() == 0);
            assert(digits_value(s.drop_first()) == 0);
            assert(digits_value(s) == d0);
        } else {
            let rest = s.drop_first().drop_first();
            assert forall|j: int| 0 <= j < rest.len() implies rest[j] == 0 by {
                assert(rest[j] == s[j + 2]);
            }
            lemma_digits_value_zero(rest);
            assert(s.drop_first()[0] == s[1]);
            assert(digits_value(s.drop_first()) == d1 + digit_base() * digits_value(rest));
            assert(digits_value(s.drop_first()) == d1);
            assert(digits_value(s) == d0 + digit_base() * d1);
        }
        assert(d0 + d1 * 0x1_0000_0000_0000_0000 <= u128::MAX) by (nonlinear_arith)
            requires
                d0 <= 0xffff_ffff_ffff_ffff,
                d1 <= 0xffff_ffff_ffff_ffff,
        ;
    }
    Some(d0 + d1 * 0x1_0000_0000_0000_0000u128)
}

} // verus!
