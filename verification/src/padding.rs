//! SHA-1 and SHA-256 message padding.
use crate::bytes::{be_bytes_64, copy_at, split_be_64};
use crate::erase::erase_bytes;
use crate::error::CryptoError;
use vstd::prelude::*;

verus! {

/// Largest caller-supplied message accepted by the one-shot SPACC contract.
pub const MAX_HASH_INPUT_BYTES: usize = 4096;

/// Bytes of one hash block.
pub const HASH_BLOCK_BYTES: usize = 64;

/// Bytes of the length field.
pub const HASH_LENGTH_BYTES: usize = 8;

/// Bytes of the message buffer.
pub const HASH_DMA_BYTES: usize = MAX_HASH_INPUT_BYTES + 2 * HASH_BLOCK_BYTES;

/// The message that is handed over in parts.
pub open spec fn concat(parts: Seq<&[u8]>) -> Seq<u8>
    decreases parts.len(),
{
    if parts.len() == 0 {
        Seq::empty()
    } else {
        concat(parts.drop_last()) + parts.last()@
    }
}

/// The bytes of an optional prefix.
pub open spec fn prefix_bytes(prefix: Option<&[u8]>) -> Seq<u8> {
    match prefix {
        Some(bytes) => bytes@,
        None => Seq::empty(),
    }
}

/// The length that a message of `len` bytes is padded to: the next whole number of
/// blocks that also holds the marker and the length field.
pub open spec fn padded_len(len: nat) -> nat {
    (len + 1 + HASH_LENGTH_BYTES + HASH_BLOCK_BYTES - 1) as nat / HASH_BLOCK_BYTES as nat
        * HASH_BLOCK_BYTES as nat
}

/// A run of zero bytes.
pub open spec fn zeros(count: nat) -> Seq<u8> {
    Seq::new(count, |i: int| 0u8)
}

/// A message with its marker, its zeros and its length in bits.
pub open spec fn padded(message: Seq<u8>) -> Seq<u8> {
    message + seq![0x80u8] + zeros((padded_len(message.len()) - message.len() - 9) as nat)
        + be_bytes_64((8 * message.len()) as u64)
}

/// Whether a message with this prefix and body fits the message buffer.
pub open spec fn fits(prefix: Seq<u8>, body: Seq<u8>) -> bool {
    body.len() <= MAX_HASH_INPUT_BYTES && padded_len(prefix.len() + body.len()) <= HASH_DMA_BYTES
}

/// The message buffer for a prefix and a body: the padded message and zeros after it, or
/// nothing but zeros where they do not fit.
pub open spec fn message_buffer(prefix: Seq<u8>, body: Seq<u8>) -> Seq<u8> {
    if fits(prefix, body) {
        let message = padded(prefix + body);
        message + zeros((HASH_DMA_BYTES - message.len()) as nat)
    } else {
        zeros(HASH_DMA_BYTES as nat)
    }
}

/// A padded message is a whole number of blocks, holds the message in front, and has
/// room for the marker and the length field and less than a block to spare.
pub proof fn law_padded_shape(message: Seq<u8>)
    ensures
        padded(message).len() == padded_len(message.len()),
        padded(message).len() % 64 == 0,
        message.len() + 9 <= padded(message).len() < message.len() + 9 + 64,
        padded(message).take(message.len() as int) == message,
{
    let quotient = (message.len() + 72) / 64;
    assert(padded_len(message.len()) == quotient * 64);
    assert(quotient * 64 <= message.len() + 72 < quotient * 64 + 64);
    assert((quotient * 64) % 64 == 0);
    assert(be_bytes_64((8 * message.len()) as u64).len() == 8);
    assert(padded(message).take(message.len() as int) =~= message);
}

/// Joining the parts keeps every byte and the order: nothing joins to nothing, one part
/// to itself, and two lists to the joined first followed by the joined second.
pub proof fn law_concat_keeps_order(first: Seq<&[u8]>, part: &[u8], second: Seq<&[u8]>)
    ensures
        concat(Seq::<&[u8]>::empty()) == Seq::<u8>::empty(),
        concat(seq![part]) == part@,
        concat(first + second) == concat(first) + concat(second),
    decreases second.len(),
{
    assert(seq![part].drop_last() =~= Seq::<&[u8]>::empty());
    assert(concat(Seq::<&[u8]>::empty()) =~= Seq::<u8>::empty());
    assert(concat(seq![part]) =~= concat(Seq::<&[u8]>::empty()) + part@);
    assert(concat(seq![part]) =~= part@);
    if second.len() == 0 {
        assert(first + second =~= first);
        assert(concat(first + second) =~= concat(first) + concat(second));
    } else {
        law_concat_keeps_order(first, part, second.drop_last());
        assert((first + second).drop_last() =~= first + second.drop_last());
        assert(concat(first + second) =~= concat(first) + concat(second));
    }
}

/// The number that eight bytes denote, most significant byte first.
pub open spec fn be_number_64(bytes: Seq<u8>, at: int) -> int {
    bytes[at] * 0x100_0000_0000_0000 + bytes[at + 1] * 0x1_0000_0000_0000 + bytes[at + 2]
        * 0x100_0000_0000 + bytes[at + 3] * 0x1_0000_0000 + bytes[at + 4] * 0x100_0000 + bytes[at
        + 5] * 0x1_0000 + bytes[at + 6] * 0x100 + bytes[at + 7]
}

/// Whether a byte string is a message as SHA-1 and SHA-256 take it in: the message, one
/// marker bit, the fewest zeros that leave room for the length field in a whole number of
/// 64-byte blocks, and the length of the message in bits.
pub open spec fn is_sha_padding(message: Seq<u8>, blocks: Seq<u8>) -> bool {
    &&& blocks.len() % 64 == 0
    &&& message.len() + 9 <= blocks.len() < message.len() + 9 + 64
    &&& forall|i: int| 0 <= i < message.len() ==> #[trigger] blocks[i] == message[i]
    &&& blocks[message.len() as int] == 0x80
    &&& forall|i: int| message.len() < i < blocks.len() - 8 ==> #[trigger] blocks[i] == 0
    &&& be_number_64(blocks, blocks.len() - 8) == 8 * message.len()
}

/// Every byte of a padded message is what SHA-1 and SHA-256 call for, whatever the
/// length of the message.
pub proof fn law_padding_bytes(message: Seq<u8>)
    requires
        8 * message.len() <= u64::MAX,
    ensures
        is_sha_padding(message, padded(message)),
{
    law_padded_shape(message);
    let blocks = padded(message);
    let field = be_bytes_64((8 * message.len()) as u64);
    let n = blocks.len() - 8;
    lemma_from_bytes((8 * message.len()) as u64);
    assert forall|k: int| 0 <= k < 8 implies #[trigger] blocks[n + k] == field[k] by {}
    assert(blocks[n] == field[0]) by {
        assert(blocks[n + 0] == field[0]);
    }
    assert(blocks[n + 1] == field[1] && blocks[n + 2] == field[2] && blocks[n + 3] == field[3]);
    assert(blocks[n + 4] == field[4] && blocks[n + 5] == field[5] && blocks[n + 6] == field[6]);
    assert(blocks[n + 7] == field[7]);
}

/// A message has one padding and no other.
pub proof fn law_padding_is_unique(message: Seq<u8>, a: Seq<u8>, b: Seq<u8>)
    requires
        is_sha_padding(message, a),
        is_sha_padding(message, b),
    ensures
        a == b,
{
    lemma_one_multiple(a.len() as int, b.len() as int, message.len() as int);
    let n = a.len() - 8;
    let m = message.len() as int;
    assert(same_field(a, b, n)) by {
        lemma_same_number(a, b, n);
    }
    assert forall|i: int| 0 <= i < a.len() implies a[i] == b[i] by {
        if i < m {
            assert(a[i] == message[i] && b[i] == message[i]);
        } else if m < i < n {
            assert(a[i] == 0 && b[i] == 0);
        } else if i >= n {
            assert(i == n || i == n + 1 || i == n + 2 || i == n + 3 || i == n + 4 || i == n + 5 || i
                == n + 6 || i == n + 7);
        }
    }
    assert(a =~= b);
}

/// There is one whole number of blocks in a range of 64.
proof fn lemma_one_multiple(a: int, b: int, from: int)
    requires
        a % 64 == 0,
        b % 64 == 0,
        from + 9 <= a < from + 73,
        from + 9 <= b < from + 73,
    ensures
        a == b,
{
    assert(a == 64 * (a / 64));
    assert(b == 64 * (b / 64));
}

/// Whether two byte strings have the same length field.
spec fn same_field(a: Seq<u8>, b: Seq<u8>, at: int) -> bool {
    a[at] == b[at] && a[at + 1] == b[at + 1] && a[at + 2] == b[at + 2] && a[at + 3] == b[at + 3]
        && a[at + 4] == b[at + 4] && a[at + 5] == b[at + 5] && a[at + 6] == b[at + 6] && a[at + 7]
        == b[at + 7]
}

/// Numbers with a lowest byte are the same only with the same lowest byte and the same rest.
proof fn lemma_same_digit(high_a: int, low_a: int, high_b: int, low_b: int)
    requires
        0 <= low_a < 256,
        0 <= low_b < 256,
        256 * high_a + low_a == 256 * high_b + low_b,
    ensures
        high_a == high_b,
        low_a == low_b,
{
}

proof fn lemma_same_number(a: Seq<u8>, b: Seq<u8>, at: int)
    requires
        be_number_64(a, at) == be_number_64(b, at),
    ensures
        same_field(a, b, at),
{
    let (a0, a1, a2, a3) = (a[at] as int, a[at + 1] as int, a[at + 2] as int, a[at + 3] as int);
    let (a4, a5, a6, a7) = (a[at + 4] as int, a[at + 5] as int, a[at + 6] as int, a[at + 7] as int);
    let (b0, b1, b2, b3) = (b[at] as int, b[at + 1] as int, b[at + 2] as int, b[at + 3] as int);
    let (b4, b5, b6, b7) = (b[at + 4] as int, b[at + 5] as int, b[at + 6] as int, b[at + 7] as int);
    let (s1, t1) = (256 * a0 + a1, 256 * b0 + b1);
    let (s2, t2) = (256 * s1 + a2, 256 * t1 + b2);
    let (s3, t3) = (256 * s2 + a3, 256 * t2 + b3);
    let (s4, t4) = (256 * s3 + a4, 256 * t3 + b4);
    let (s5, t5) = (256 * s4 + a5, 256 * t4 + b5);
    let (s6, t6) = (256 * s5 + a6, 256 * t5 + b6);
    lemma_same_digit(s6, a7, t6, b7);
    lemma_same_digit(s5, a6, t5, b6);
    lemma_same_digit(s4, a5, t4, b5);
    lemma_same_digit(s3, a4, t3, b4);
    lemma_same_digit(s2, a3, t2, b3);
    lemma_same_digit(s1, a2, t1, b2);
    lemma_same_digit(a0, a1, b0, b1);
}

/// The message buffer holds exactly the padded message, prefix first, and zeros after it;
/// a message is refused exactly where its body is longer than 4096 bytes or its padding
/// ends behind byte 4224, and then the buffer holds zeros alone.
pub proof fn law_message_buffer(prefix: Seq<u8>, body: Seq<u8>)
    requires
        8 * (prefix.len() + body.len()) <= u64::MAX,
    ensures
        message_buffer(prefix, body).len() == 4224,
        fits(prefix, body) <==> body.len() <= 4096 && prefix.len() + body.len() <= 4224 - 9,
        fits(prefix, body) ==> exists|count: int|
            0 <= count <= 4224 && #[trigger] is_sha_padding(
                prefix + body,
                message_buffer(prefix, body).take(count),
            ) && count == padded_len(prefix.len() + body.len()) && forall|i: int|
                count <= i < 4224 ==> #[trigger] message_buffer(prefix, body)[i] == 0,
        !fits(prefix, body) ==> forall|i: int|
            0 <= i < 4224 ==> #[trigger] message_buffer(prefix, body)[i] == 0,
{
    law_padding_bytes(prefix + body);
    law_padded_shape(prefix + body);
    let count = padded_len(prefix.len() + body.len()) as int;
    if fits(prefix, body) {
        assert(message_buffer(prefix, body).take(count) =~= padded(prefix + body));
    }
}

/// The eight bytes of the length field give the length back.
proof fn lemma_length_field(a: u64, b: u64)
    requires
        be_bytes_64(a) == be_bytes_64(b),
    ensures
        a == b,
{
    let x = be_bytes_64(a);
    let y = be_bytes_64(b);
    assert(x[0] == y[0] && x[1] == y[1] && x[2] == y[2] && x[3] == y[3]);
    assert(x[4] == y[4] && x[5] == y[5] && x[6] == y[6] && x[7] == y[7]);
    lemma_from_bytes(a);
    lemma_from_bytes(b);
}

pub(crate) proof fn lemma_from_bytes(value: u64)
    ensures
        value == be_bytes_64(value)[0] * 0x100_0000_0000_0000 + be_bytes_64(value)[1]
            * 0x1_0000_0000_0000 + be_bytes_64(value)[2] * 0x100_0000_0000 + be_bytes_64(value)[3]
            * 0x1_0000_0000 + be_bytes_64(value)[4] * 0x100_0000 + be_bytes_64(value)[5] * 0x1_0000
            + be_bytes_64(value)[6] * 0x100 + be_bytes_64(value)[7],
{
    assert(value == (value / 0x100_0000_0000_0000) * 0x100_0000_0000_0000 + (value
        / 0x1_0000_0000_0000 % 0x100) * 0x1_0000_0000_0000 + (value / 0x100_0000_0000 % 0x100)
        * 0x100_0000_0000 + (value / 0x1_0000_0000 % 0x100) * 0x1_0000_0000 + (value / 0x100_0000
        % 0x100) * 0x100_0000 + (value / 0x1_0000 % 0x100) * 0x1_0000 + (value / 0x100 % 0x100)
        * 0x100 + value % 0x100) by (bit_vector);
    assert(value / 0x100_0000_0000_0000 < 0x100) by (bit_vector);
}

/// Different messages are padded differently.
pub proof fn law_padding_is_injective(a: Seq<u8>, b: Seq<u8>)
    requires
        8 * a.len() <= u64::MAX,
        8 * b.len() <= u64::MAX,
        padded(a) == padded(b),
    ensures
        a == b,
{
    law_padded_shape(a);
    law_padded_shape(b);
    let n = padded(a).len();
    assert(padded(a).skip(n - 8) =~= be_bytes_64((8 * a.len()) as u64));
    assert(padded(b).skip(n - 8) =~= be_bytes_64((8 * b.len()) as u64));
    lemma_length_field((8 * a.len()) as u64, (8 * b.len()) as u64);
}

/// The length of a message that is handed over in parts.
pub fn checked_parts_len(parts: &[&[u8]]) -> (total: Result<usize, CryptoError>)
    ensures
        total is Ok <==> concat(parts@).len() <= usize::MAX,
        total is Ok ==> total->Ok_0 == concat(parts@).len(),
        total is Err ==> total->Err_0 == CryptoError::InvalidLength,
{
    let mut total: usize = 0;
    let mut i: usize = 0;
    proof {
        assert(parts@.take(0) =~= Seq::<&[u8]>::empty());
    }
    while i < parts.len()
        invariant
            i <= parts@.len(),
            total == concat(parts@.take(i as int)).len(),
        decreases parts@.len() - i,
    {
        proof {
            assert(parts@.take(i + 1).drop_last() =~= parts@.take(i as int));
            lemma_concat_grows(parts@, i + 1);
        }
        match total.checked_add(parts[i].len()) {
            Some(sum) => {
                total = sum;
            },
            None => {
                return Err(CryptoError::InvalidLength);
            },
        }
        i += 1;
    }
    proof {
        assert(parts@.take(i as int) =~= parts@);
    }
    Ok(total)
}

/// The first parts of a message are no longer than the message.
proof fn lemma_concat_grows(parts: Seq<&[u8]>, count: int)
    requires
        0 <= count <= parts.len(),
    ensures
        concat(parts.take(count)).len() <= concat(parts).len(),
    decreases parts.len(),
{
    if count == parts.len() {
        assert(parts.take(count) =~= parts);
    } else {
        lemma_concat_grows(parts.drop_last(), count);
        assert(parts.drop_last().take(count) =~= parts.take(count));
    }
}

/// Fills the message buffer with a padded message and returns the padded length.
pub fn prepare_padded_message(
    buffer: &mut [u8; HASH_DMA_BYTES],
    prefix: Option<&[u8]>,
    parts: &[&[u8]],
) -> (length: Result<usize, CryptoError>)
    ensures
        final(buffer)@ == message_buffer(prefix_bytes(prefix), concat(parts@)),
        length is Ok <==> fits(prefix_bytes(prefix), concat(parts@)),
        length is Ok ==> length->Ok_0 == padded_len(
            prefix_bytes(prefix).len() + concat(parts@).len(),
        ),
        length is Err ==> length->Err_0 == CryptoError::InvalidLength,
{
    erase_bytes(buffer);
    proof {
        assert(buffer@ =~= zeros(HASH_DMA_BYTES as nat));
    }
    let input_len = match checked_parts_len(parts) {
        Ok(input_len) => input_len,
        Err(error) => {
            return Err(error);
        },
    };
    if input_len > MAX_HASH_INPUT_BYTES {
        return Err(CryptoError::InvalidLength);
    }
    let prefix_len = match prefix {
        Some(bytes) => bytes.len(),
        None => 0,
    };
    if prefix_len > HASH_DMA_BYTES {
        return Err(CryptoError::InvalidLength);
    }
    let message_len = prefix_len + input_len;
    let padded_length = (message_len + 1 + HASH_LENGTH_BYTES + HASH_BLOCK_BYTES - 1)
        / HASH_BLOCK_BYTES * HASH_BLOCK_BYTES;
    if padded_length > HASH_DMA_BYTES {
        return Err(CryptoError::InvalidLength);
    }
    let ghost message = prefix_bytes(prefix) + concat(parts@);
    let mut cursor: usize = 0;
    if let Some(bytes) = prefix {
        copy_at(buffer, 0, bytes);
        cursor = bytes.len();
    }
    proof {
        assert(buffer@.take(cursor as int) =~= prefix_bytes(prefix));
        assert(parts@.take(0) =~= Seq::<&[u8]>::empty());
        assert(prefix_bytes(prefix) + concat(parts@.take(0)) =~= prefix_bytes(prefix));
    }
    let mut i: usize = 0;
    while i < parts.len()
        invariant
            i <= parts@.len(),
            message == prefix_bytes(prefix) + concat(parts@),
            message.len() == message_len,
            message_len + 9 <= padded_length <= HASH_DMA_BYTES,
            buffer@.len() == HASH_DMA_BYTES,
            cursor == prefix_bytes(prefix).len() + concat(parts@.take(i as int)).len(),
            buffer@.take(cursor as int) == prefix_bytes(prefix) + concat(parts@.take(i as int)),
            forall|j: int| cursor <= j < HASH_DMA_BYTES ==> buffer@[j] == 0,
        decreases parts@.len() - i,
    {
        proof {
            assert(parts@.take(i + 1).drop_last() =~= parts@.take(i as int));
            lemma_concat_grows(parts@, i + 1);
        }
        let part = parts[i];
        let ghost before = buffer@;
        copy_at(buffer, cursor, part);
        proof {
            assert(buffer@.take(cursor + part@.len()) =~= before.take(cursor as int) + part@);
            assert(buffer@.take(cursor + part@.len()) =~= prefix_bytes(prefix) + concat(
                parts@.take(i + 1),
            ));
        }
        cursor = cursor + part.len();
        i += 1;
    }
    proof {
        assert(parts@.take(i as int) =~= parts@);
    }
    let ghost filled = buffer@;
    buffer[cursor] = 0x80;
    let bit_len: u64 = message_len as u64 * 8;
    let field = split_be_64(bit_len);
    copy_at(buffer, padded_length - HASH_LENGTH_BYTES, &field);
    proof {
        assert(filled.take(message_len as int) == message);
        assert forall|j: int| 0 <= j < message_len implies buffer@[j] == message[j] by {
            assert(filled.take(message_len as int)[j] == filled[j]);
        }
        assert(buffer@ =~= message_buffer(prefix_bytes(prefix), concat(parts@)));
    }
    Ok(padded_length)
}

} // verus!
