//! Signed-digit recoding of P-256 scalars.
use crate::big_endian::{
    add_one, be_value, byte_radix, is_zero, lemma_be_value_bound, shift_right_one, subtract_one,
};
use crate::erase::erase_bytes;
use vstd::arithmetic::power2::{lemma_pow2_pos, lemma_pow2_unfold, pow2};
use vstd::prelude::*;

verus! {

/// Digits that are enough for every 256-bit scalar.
pub const NAF_DIGITS: usize = 257;

/// The number that signed binary digits denote, least significant digit first.
pub open spec fn naf_value(digits: Seq<i8>) -> int
    decreases digits.len(),
{
    if digits.len() == 0 {
        0
    } else {
        naf_value(digits.drop_last()) + digits.last() * pow2((digits.len() - 1) as nat)
    }
}

/// Non-adjacent form: digits of -1, 0 and 1, no two neighbours both nonzero, and a
/// leading one.
pub open spec fn is_naf(digits: Seq<i8>) -> bool {
    &&& forall|i: int| 0 <= i < digits.len() ==> -1 <= #[trigger] digits[i] <= 1
    &&& forall|i: int, j: int|
        0 <= i && j == i + 1 && j < digits.len() ==> #[trigger] digits[i] == 0
            || #[trigger] digits[j] == 0
    &&& digits.len() > 0 ==> digits.last() == 1
}

proof fn lemma_low_bits(byte: u8)
    ensures
        byte & 1 == byte % 2,
        byte & 3 == byte % 4,
{
    assert(byte & 1 == byte % 2) by (bit_vector);
    assert(byte & 3 == byte % 4) by (bit_vector);
}

/// `256 * byte_radix(32)` and its powers of two, as the recoding loop counts them.
proof fn lemma_radix_33()
    ensures
        byte_radix(32) == pow2(256),
        byte_radix(33) == 256 * pow2(256),
{
    lemma_byte_radix_is_pow2(32);
    lemma_byte_radix_is_pow2(33);
    assert(byte_radix(33) == 256 * byte_radix(32));
}

/// A string of `len` bytes counts up to two to the power of its bits.
pub proof fn lemma_byte_radix_is_pow2(len: nat)
    ensures
        byte_radix(len) == pow2(8 * len),
    decreases len,
{
    if len == 0 {
        vstd::arithmetic::power2::lemma2_to64();
    } else {
        lemma_byte_radix_is_pow2((len - 1) as nat);
        vstd::arithmetic::power2::lemma2_to64();
        vstd::arithmetic::power2::lemma_pow2_adds(8, (8 * (len - 1)) as nat);
    }
}

/// Recodes a big-endian scalar into non-adjacent form and returns the digit count.
///
/// Digits past the count keep the value that they had.
pub fn scalar_to_naf(scalar: &[u8; 32], output: &mut [i8; 257]) -> (count: usize)
    ensures
        count <= NAF_DIGITS,
        naf_value(final(output)@.take(count as int)) == be_value(scalar@),
        is_naf(final(output)@.take(count as int)),
        forall|i: int| count <= i < NAF_DIGITS ==> final(output)@[i] == old(output)@[i],
{
    let mut value: [u8; 33] = [0u8; 33];
    let mut k: usize = 0;
    while k < 32
        invariant
            k <= 32,
            value@[0] == 0,
            forall|j: int| 0 <= j < k ==> value@[j + 1] == scalar@[j],
        decreases 32 - k,
    {
        value[k + 1] = scalar[k];
        k += 1;
    }
    proof {
        lemma_radix_33();
        lemma_prefixed_zero(value@, scalar@);
        lemma_be_value_bound(scalar@);
    }
    let mut count: usize = 0;
    proof {
        assert(output@.take(0) =~= Seq::<i8>::empty());
        vstd::arithmetic::power2::lemma2_to64();
    }
    while !is_zero(&value)
        invariant
            count <= NAF_DIGITS,
            byte_radix(33) == 256 * pow2(256),
            be_value(scalar@) < pow2(256),
            be_value(value@) * pow2(count as nat) + naf_value(output@.take(count as int))
                == be_value(scalar@),
            count <= 256 ==> be_value(value@) <= pow2((256 - count) as nat),
            count == 257 ==> be_value(value@) == 0,
            forall|i: int| 0 <= i < count ==> -1 <= #[trigger] output@[i] <= 1,
            forall|i: int, j: int|
                0 <= i && j == i + 1 && j < count ==> #[trigger] output@[i] == 0
                    || #[trigger] output@[j] == 0,
            count > 0 && output@[count - 1] != 0 ==> be_value(value@) % 2 == 0,
            count > 0 && be_value(value@) == 0 ==> output@[count - 1] == 1,
            forall|i: int| count <= i < NAF_DIGITS ==> output@[i] == old(output)@[i],
        decreases NAF_DIGITS - count,
    {
        let ghost v = be_value(value@);
        let ghost digits = output@.take(count as int);
        proof {
            lemma_low_bits(value@[32]);
            assert(v == 256 * be_value(value@.drop_last()) + value@[32]);
            if count == 256 {
                vstd::arithmetic::power2::lemma2_to64();
            } else {
                lemma_pow2_unfold((256 - count) as nat);
            }
            lemma_pow2_unfold(count as nat + 1);
            lemma_pow2_pos(256);
            vstd::arithmetic::power2::lemma_pow2_strictly_increases(0, 256);
            if count > 0 {
                vstd::arithmetic::power2::lemma_pow2_strictly_increases(
                    (256 - count) as nat,
                    256,
                );
            }
            vstd::arithmetic::power2::lemma2_to64();
        }
        let low: u8 = value[32] & 3;
        let digit: i8 = if value[32] & 1 == 1 {
            2 - low as i8
        } else {
            0
        };
        output[count] = digit;
        if digit == 1 {
            subtract_one(&mut value);
        } else if digit == -1 {
            add_one(&mut value);
            proof {
                vstd::arithmetic::div_mod::lemma_small_mod((v + 1) as nat, byte_radix(33));
            }
        }
        let ghost even = be_value(value@);
        assert(even == v - digit);
        assert(even % 2 == 0);
        shift_right_one(&mut value);
        proof {
            let extended = output@.take(count as int + 1);
            assert(extended.drop_last() =~= digits);
            assert(extended.last() == digit);
            let half = be_value(value@);
            let p = pow2(count as nat);
            assert(half * pow2(count as nat + 1) + digit * p == v * p) by (nonlinear_arith)
                requires
                    pow2(count as nat + 1) == 2 * p,
                    2 * half == v - digit,
            ;
        }
        count += 1;
    }
    proof {
        let digits = output@.take(count as int);
        assert(be_value(value@) == 0);
        assert(forall|i: int| 0 <= i < digits.len() ==> digits[i] == output@[i]);
    }
    erase_bytes(&mut value);
    count
}

/// A leading zero byte does not change the number.
proof fn lemma_prefixed_zero(long: Seq<u8>, short: Seq<u8>)
    requires
        long.len() == short.len() + 1,
        long[0] == 0,
        forall|j: int| 0 <= j < short.len() ==> long[j + 1] == short[j],
    ensures
        be_value(long) == be_value(short),
    decreases short.len(),
{
    if short.len() == 0 {
        assert(long.drop_last().len() == 0);
        assert(be_value(long.drop_last()) == 0);
    } else {
        lemma_prefixed_zero(long.drop_last(), short.drop_last());
    }
}

/// The digits above the lowest count double.
proof fn lemma_low_digit(digits: Seq<i8>)
    requires
        digits.len() > 0,
    ensures
        naf_value(digits) == digits[0] + 2 * naf_value(digits.skip(1)),
    decreases digits.len(),
{
    let front = digits.drop_last();
    let n = digits.len();
    if n == 1 {
        assert(front =~= seq![]);
        assert(digits.skip(1) =~= seq![]);
        vstd::arithmetic::power2::lemma2_to64();
    } else {
        lemma_low_digit(front);
        let rest = digits.skip(1);
        assert(rest.drop_last() =~= front.skip(1));
        assert(rest.last() == digits.last());
        lemma_pow2_unfold((n - 1) as nat);
        let power = pow2((n - 2) as nat) as int;
        assert(digits.last() * (2 * power) == 2 * (digits.last() * power)) by (nonlinear_arith);
    }
}

/// What is left of a non-adjacent form without its lowest digit is one too.
proof fn lemma_naf_rest(digits: Seq<i8>)
    requires
        is_naf(digits),
        digits.len() > 0,
    ensures
        is_naf(digits.skip(1)),
{
    let rest = digits.skip(1);
    assert forall|i: int, j: int| 0 <= i && j == i + 1 && j < rest.len() implies #[trigger] rest[i]
        == 0 || #[trigger] rest[j] == 0 by {
        assert(rest[i] == digits[i + 1] && rest[j] == digits[j + 1]);
    }
}

/// A non-adjacent form with digits denotes a positive number.
proof fn lemma_naf_positive(digits: Seq<i8>)
    requires
        is_naf(digits),
        digits.len() > 0,
    ensures
        naf_value(digits) > 0,
    decreases digits.len(),
{
    lemma_low_digit(digits);
    lemma_naf_rest(digits);
    if digits.len() == 1 {
        assert(digits.skip(1) =~= seq![]);
        assert(digits.last() == digits[0]);
    } else {
        lemma_naf_positive(digits.skip(1));
    }
}

/// The lowest digit of a non-adjacent form follows from the number modulo four.
proof fn lemma_lowest_digit(digits: Seq<i8>)
    requires
        is_naf(digits),
        digits.len() > 0,
    ensures
        digits[0] == if naf_value(digits) % 2 == 0 {
            0int
        } else {
            2 - naf_value(digits) % 4
        },
{
    lemma_low_digit(digits);
    if digits.len() > 1 {
        let rest = digits.skip(1);
        lemma_low_digit(rest);
        assert(rest[0] == digits[1]);
        assert(digits[0] == 0 || digits[1] == 0);
    } else {
        assert(digits.skip(1) =~= seq![]);
        assert(digits.last() == digits[0]);
    }
}

/// A number has one non-adjacent form: the recoding of a scalar leaves no choice.
pub proof fn law_naf_is_unique(a: Seq<i8>, b: Seq<i8>)
    requires
        is_naf(a),
        is_naf(b),
        naf_value(a) == naf_value(b),
    ensures
        a == b,
    decreases a.len(),
{
    if a.len() == 0 || b.len() == 0 {
        if a.len() > 0 {
            lemma_naf_positive(a);
        }
        if b.len() > 0 {
            lemma_naf_positive(b);
        }
        assert(a =~= b);
    } else {
        lemma_lowest_digit(a);
        lemma_lowest_digit(b);
        lemma_low_digit(a);
        lemma_low_digit(b);
        lemma_naf_rest(a);
        lemma_naf_rest(b);
        law_naf_is_unique(a.skip(1), b.skip(1));
        assert(a =~= seq![a[0]] + a.skip(1));
        assert(b =~= seq![b[0]] + b.skip(1));
    }
}

} // verus!
