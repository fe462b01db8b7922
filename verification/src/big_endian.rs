//! Big-endian byte strings read as natural numbers.
use vstd::prelude::*;

verus! {

/// The number that a big-endian byte string denotes.
pub open spec fn be_value(bytes: Seq<u8>) -> nat
    decreases bytes.len(),
{
    if bytes.len() == 0 {
        0
    } else {
        256 * be_value(bytes.drop_last()) + bytes.last() as nat
    }
}

/// How many values a string of `len` bytes can take.
pub open spec fn byte_radix(len: nat) -> nat
    decreases len,
{
    if len == 0 {
        1
    } else {
        256 * byte_radix((len - 1) as nat)
    }
}

/// A byte string denotes a number below its radix.
pub proof fn lemma_be_value_bound(bytes: Seq<u8>)
    ensures
        be_value(bytes) < byte_radix(bytes.len()),
    decreases bytes.len(),
{
    if bytes.len() > 0 {
        lemma_be_value_bound(bytes.drop_last());
    }
}

/// Only the all-zero string denotes zero.
pub proof fn lemma_be_value_zero(bytes: Seq<u8>)
    ensures
        be_value(bytes) == 0 <==> forall|i: int| 0 <= i < bytes.len() ==> bytes[i] == 0,
    decreases bytes.len(),
{
    if bytes.len() > 0 {
        let front = bytes.drop_last();
        lemma_be_value_zero(front);
        if be_value(bytes) == 0 {
            assert forall|i: int| 0 <= i < bytes.len() implies bytes[i] == 0 by {
                if i < front.len() {
                    assert(front[i] == bytes[i]);
                }
            }
        } else if forall|i: int| 0 <= i < bytes.len() ==> bytes[i] == 0 {
            assert forall|i: int| 0 <= i < front.len() implies front[i] == 0 by {
                assert(front[i] == bytes[i]);
            }
        }
    }
}

/// The all-ones string denotes the largest number of its length.
proof fn lemma_be_value_all_ones(bytes: Seq<u8>)
    requires
        forall|i: int| 0 <= i < bytes.len() ==> bytes[i] == 255,
    ensures
        be_value(bytes) == byte_radix(bytes.len()) - 1,
    decreases bytes.len(),
{
    if bytes.len() > 0 {
        lemma_be_value_all_ones(bytes.drop_last());
    }
}

/// Raising byte `i` by one and wrapping every byte after it adds one.
proof fn lemma_increment(low: Seq<u8>, high: Seq<u8>, i: int)
    requires
        low.len() == high.len(),
        0 <= i < low.len(),
        forall|j: int| 0 <= j < i ==> low[j] == high[j],
        high[i] == low[i] + 1,
        forall|j: int| i < j < low.len() ==> low[j] == 255,
        forall|j: int| i < j < low.len() ==> high[j] == 0,
    ensures
        be_value(high) == be_value(low) + 1,
    decreases low.len(),
{
    if i == low.len() - 1 {
        assert(low.drop_last() =~= high.drop_last());
    } else {
        lemma_increment(low.drop_last(), high.drop_last(), i);
    }
}

/// The first byte in which two strings differ decides which number is smaller.
proof fn lemma_first_difference(a: Seq<u8>, b: Seq<u8>, i: int)
    requires
        a.len() == b.len(),
        0 <= i < a.len(),
        forall|j: int| 0 <= j < i ==> a[j] == b[j],
        a[i] < b[i],
    ensures
        be_value(a) < be_value(b),
    decreases a.len(),
{
    if i == a.len() - 1 {
        assert(a.drop_last() =~= b.drop_last());
    } else {
        lemma_first_difference(a.drop_last(), b.drop_last(), i);
    }
}

/// Two strings of one length that denote the same number are the same string.
pub proof fn lemma_be_value_injective(a: Seq<u8>, b: Seq<u8>)
    requires
        a.len() == b.len(),
        be_value(a) == be_value(b),
    ensures
        a == b,
    decreases a.len(),
{
    if a.len() > 0 {
        lemma_be_value_injective(a.drop_last(), b.drop_last());
        assert(a =~= a.drop_last().push(a.last()));
        assert(b =~= b.drop_last().push(b.last()));
    } else {
        assert(a =~= b);
    }
}

/// Whether every byte is zero.
pub fn is_zero(bytes: &[u8]) -> (r: bool)
    ensures
        r == (be_value(bytes@) == 0),
{
    proof {
        lemma_be_value_zero(bytes@);
    }
    let mut i: usize = 0;
    while i < bytes.len()
        invariant
            i <= bytes@.len(),
            forall|j: int| 0 <= j < i ==> bytes@[j] == 0,
            be_value(bytes@) == 0 <==> forall|j: int| 0 <= j < bytes@.len() ==> bytes@[j] == 0,
        decreases bytes@.len() - i,
    {
        if bytes[i] != 0 {
            return false;
        }
        i += 1;
    }
    true
}

/// Whether `a` denotes a smaller number than `b`.
pub fn be_less(a: &[u8], b: &[u8]) -> (r: bool)
    requires
        a@.len() == b@.len(),
    ensures
        r == (be_value(a@) < be_value(b@)),
{
    let mut i: usize = 0;
    while i < a.len()
        invariant
            i <= a@.len(),
            a@.len() == b@.len(),
            forall|j: int| 0 <= j < i ==> a@[j] == b@[j],
        decreases a@.len() - i,
    {
        if a[i] < b[i] {
            proof {
                lemma_first_difference(a@, b@, i as int);
            }
            return true;
        }
        if a[i] > b[i] {
            proof {
                lemma_first_difference(b@, a@, i as int);
            }
            return false;
        }
        i += 1;
    }
    proof {
        assert(a@ =~= b@);
    }
    false
}

/// Adds one in place; the largest value wraps to zero.
pub fn add_one(value: &mut [u8])
    ensures
        final(value)@.len() == old(value)@.len(),
        be_value(final(value)@) == (be_value(old(value)@) + 1) % byte_radix(old(value)@.len()),
{
    let ghost before = value@;
    let len = value.len();
    let mut i: usize = len;
    proof {
        lemma_be_value_bound(before);
    }
    while i > 0
        invariant
            i <= len,
            len == before.len(),
            before == old(value)@,
            value@.len() == len,
            forall|j: int| 0 <= j < i ==> value@[j] == before[j],
            forall|j: int| i <= j < len ==> before[j] == 255,
            forall|j: int| i <= j < len ==> value@[j] == 0,
            be_value(before) < byte_radix(before.len()),
        decreases i,
    {
        i -= 1;
        if value[i] != 255 {
            value[i] = value[i] + 1;
            proof {
                lemma_increment(before, value@, i as int);
                lemma_be_value_bound(value@);
                vstd::arithmetic::div_mod::lemma_small_mod(
                    be_value(value@),
                    byte_radix(before.len()),
                );
            }
            return;
        }
        value[i] = 0;
    }
    proof {
        lemma_be_value_all_ones(before);
        lemma_be_value_zero(value@);
        vstd::arithmetic::div_mod::lemma_mod_self_0(byte_radix(before.len()) as int);
    }
}

/// Subtracts one in place; zero wraps to the largest value.
pub fn subtract_one(value: &mut [u8])
    ensures
        final(value)@.len() == old(value)@.len(),
        be_value(final(value)@) == if be_value(old(value)@) == 0 {
            (byte_radix(old(value)@.len()) - 1) as nat
        } else {
            (be_value(old(value)@) - 1) as nat
        },
{
    let ghost before = value@;
    let len = value.len();
    let mut i: usize = len;
    while i > 0
        invariant
            i <= len,
            len == before.len(),
            before == old(value)@,
            value@.len() == len,
            forall|j: int| 0 <= j < i ==> value@[j] == before[j],
            forall|j: int| i <= j < len ==> before[j] == 0,
            forall|j: int| i <= j < len ==> value@[j] == 255,
        decreases i,
    {
        i -= 1;
        if value[i] != 0 {
            value[i] = value[i] - 1;
            proof {
                lemma_increment(value@, before, i as int);
            }
            return;
        }
        value[i] = 255;
    }
    proof {
        lemma_be_value_all_ones(value@);
        lemma_be_value_zero(before);
    }
}

proof fn lemma_shift_byte(byte: u8, carry: u8)
    requires
        carry <= 1,
    ensures
        (byte >> 1u8) | (carry << 7u8) == byte / 2 + 128 * carry,
        byte & 1 == byte % 2,
{
    assert((byte >> 1u8) | (carry << 7u8) == byte / 2 + 128 * carry) by (bit_vector)
        requires
            carry <= 1,
    ;
    assert(byte & 1 == byte % 2) by (bit_vector);
}

/// Halves the number in place, rounding down.
pub fn shift_right_one(value: &mut [u8])
    ensures
        final(value)@.len() == old(value)@.len(),
        be_value(final(value)@) == be_value(old(value)@) / 2,
{
    let ghost before = value@;
    let len = value.len();
    let mut carry: u8 = 0;
    let mut i: usize = 0;
    while i < len
        invariant
            i <= len,
            len == before.len(),
            before == old(value)@,
            value@.len() == len,
            forall|j: int| i <= j < len ==> value@[j] == before[j],
            carry == be_value(before.take(i as int)) % 2,
            be_value(value@.take(i as int)) == be_value(before.take(i as int)) / 2,
        decreases len - i,
    {
        let byte = value[i];
        let next = byte & 1;
        proof {
            lemma_shift_byte(byte, carry);
        }
        let ghost prior = value@;
        value[i] = (byte >> 1) | (carry << 7);
        proof {
            let old_part = before.take(i as int + 1);
            let new_part = value@.take(i as int + 1);
            assert(old_part.drop_last() =~= before.take(i as int));
            assert(new_part.drop_last() =~= prior.take(i as int));
        }
        carry = next;
        i += 1;
    }
    proof {
        assert(before.take(len as int) =~= before);
        assert(value@.take(len as int) =~= value@);
    }
}

} // verus!
