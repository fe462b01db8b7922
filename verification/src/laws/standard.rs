//! SHA, HMAC and PBKDF2 as their standards define them.
//!
//! The compression functions are left open: what is said here holds for whatever function
//! takes a state and a block to the next state.
use crate::bytes::{be_bytes_32, le_word};
use crate::padding::{is_sha_padding, law_padding_bytes, law_padding_is_unique, padded};
use crate::spacc_hash::HashAlgorithm;
use vstd::prelude::*;

verus! {

/// A compression function for each hash function: from a state and a block of 64 bytes to
/// the next state.
pub type Compression = spec_fn(HashAlgorithm, Seq<u32>, Seq<u8>) -> Seq<u32>;

/// The words that a hash starts from.
pub open spec fn sha_initial(algorithm: HashAlgorithm) -> Seq<u32> {
    match algorithm {
        HashAlgorithm::Sha1 => seq![
            0x6745_2301u32,
            0xefcd_ab89u32,
            0x98ba_dcfeu32,
            0x1032_5476u32,
            0xc3d2_e1f0u32,
        ],
        HashAlgorithm::Sha256 => seq![
            0x6a09_e667u32,
            0xbb67_ae85u32,
            0x3c6e_f372u32,
            0xa54f_f53au32,
            0x510e_527fu32,
            0x9b05_688cu32,
            0x1f83_d9abu32,
            0x5be0_cd19u32,
        ],
    }
}

/// The number of words of a digest.
pub open spec fn sha_words(algorithm: HashAlgorithm) -> nat {
    match algorithm {
        HashAlgorithm::Sha1 => 5,
        HashAlgorithm::Sha256 => 8,
    }
}

/// The state after every block of a byte string.
pub open spec fn sha_chain(
    compress: Compression,
    algorithm: HashAlgorithm,
    state: Seq<u32>,
    blocks: Seq<u8>,
) -> Seq<u32>
    decreases blocks.len(),
{
    if blocks.len() < 64 {
        state
    } else {
        sha_chain(
            compress,
            algorithm,
            compress(algorithm, state, blocks.take(64)),
            blocks.skip(64),
        )
    }
}

/// The bytes of a number of words, each with its most significant byte first.
pub open spec fn word_bytes(words: Seq<u32>, count: nat) -> Seq<u8> {
    Seq::new(4 * count, |i: int| be_bytes_32(words[i / 4])[i % 4])
}

/// The padded form of a message.
pub open spec fn sha_blocks(message: Seq<u8>) -> Seq<u8> {
    choose|blocks: Seq<u8>| is_sha_padding(message, blocks)
}

/// The digest of a message, from a given initial state.
pub open spec fn sha_from(
    compress: Compression,
    algorithm: HashAlgorithm,
    initial: Seq<u32>,
    message: Seq<u8>,
) -> Seq<u8> {
    word_bytes(
        sha_chain(compress, algorithm, initial, sha_blocks(message)),
        sha_words(algorithm),
    )
}

/// The digest of a message.
pub open spec fn sha(compress: Compression, algorithm: HashAlgorithm, message: Seq<u8>) -> Seq<u8> {
    sha_from(compress, algorithm, sha_initial(algorithm), message)
}

/// A byte string combined with one byte.
pub open spec fn xor_byte(bytes: Seq<u8>, byte: u8) -> Seq<u8> {
    Seq::new(bytes.len(), |i: int| bytes[i] ^ byte)
}

/// The key of a MAC as one block: the key itself, or its digest where it is longer than a
/// block, followed by zeros.
pub open spec fn hmac_key(
    compress: Compression,
    algorithm: HashAlgorithm,
    key: Seq<u8>,
) -> Seq<u8> {
    let short = if key.len() > 64 {
        sha(compress, algorithm, key)
    } else {
        key
    };
    short + Seq::new((64 - short.len()) as nat, |i: int| 0u8)
}

/// The MAC of a message under a key block, from a given initial state.
pub open spec fn hmac_from(
    compress: Compression,
    algorithm: HashAlgorithm,
    initial: Seq<u32>,
    key_block: Seq<u8>,
    message: Seq<u8>,
) -> Seq<u8> {
    let inner = sha_from(compress, algorithm, initial, xor_byte(key_block, 0x36) + message);
    sha_from(compress, algorithm, initial, xor_byte(key_block, 0x5c) + inner)
}

/// The MAC of a message under a key.
pub open spec fn hmac(
    compress: Compression,
    algorithm: HashAlgorithm,
    key: Seq<u8>,
    message: Seq<u8>,
) -> Seq<u8> {
    hmac_from(
        compress,
        algorithm,
        sha_initial(algorithm),
        hmac_key(compress, algorithm, key),
        message,
    )
}

/// Two byte strings of 20 bytes combined.
pub open spec fn xor_20(a: Seq<u8>, b: Seq<u8>) -> Seq<u8> {
    Seq::new(20, |i: int| a[i] ^ b[i])
}

/// Round `n` of a PBKDF2 block whose first round is `first`: each later round is the MAC
/// of the one before.
pub open spec fn pbkdf2_round(
    compress: Compression,
    initial: Seq<u32>,
    key_block: Seq<u8>,
    first: Seq<u8>,
    n: nat,
) -> Seq<u8>
    decreases n,
{
    if n <= 1 {
        first
    } else {
        hmac_from(
            compress,
            HashAlgorithm::Sha1,
            initial,
            key_block,
            pbkdf2_round(compress, initial, key_block, first, (n - 1) as nat),
        )
    }
}

/// The combination of the first `n` rounds of a PBKDF2 block.
pub open spec fn pbkdf2_sum(
    compress: Compression,
    initial: Seq<u32>,
    key_block: Seq<u8>,
    first: Seq<u8>,
    n: nat,
) -> Seq<u8>
    decreases n,
{
    if n <= 1 {
        first
    } else {
        xor_20(
            pbkdf2_sum(compress, initial, key_block, first, (n - 1) as nat),
            pbkdf2_round(compress, initial, key_block, first, n),
        )
    }
}

/// One block of PBKDF2-HMAC-SHA1.
pub open spec fn pbkdf2_block(
    compress: Compression,
    password: Seq<u8>,
    salt: Seq<u8>,
    iterations: nat,
    number: u8,
) -> Seq<u8> {
    pbkdf2_sum(
        compress,
        sha_initial(HashAlgorithm::Sha1),
        hmac_key(compress, HashAlgorithm::Sha1, password),
        hmac(compress, HashAlgorithm::Sha1, password, salt + seq![0u8, 0u8, 0u8, number]),
        iterations,
    )
}

/// The first 32 bytes of PBKDF2-HMAC-SHA1.
pub open spec fn pbkdf2_32(
    compress: Compression,
    password: Seq<u8>,
    salt: Seq<u8>,
    iterations: nat,
) -> Seq<u8> {
    pbkdf2_block(compress, password, salt, iterations, 1) + pbkdf2_block(
        compress,
        password,
        salt,
        iterations,
        2,
    ).take(12)
}

/// A register that holds a word with its bytes in the opposite order.
#[verifier::opaque]
pub open spec fn register_of(word: u32) -> u32 {
    le_word(be_bytes_32(word), 0)
}

/// The registers give the words back, and their bytes are the bytes of the words.
pub proof fn lemma_register(word: u32)
    ensures
        register_of(register_of(word)) == word,
        crate::bytes::le_bytes(register_of(word)) == be_bytes_32(word),
{
    reveal(register_of);
    let b = be_bytes_32(word);
    let r = register_of(word);
    let (b0, b1, b2, b3) = (b[0] as int, b[1] as int, b[2] as int, b[3] as int);
    assert(r == b0 + 0x100 * b1 + 0x1_0000 * b2 + 0x100_0000 * b3);
    assert(r % 0x100 == b0);
    assert(r / 0x100 % 0x100 == b1);
    assert(r / 0x1_0000 % 0x100 == b2);
    assert(r / 0x100_0000 == b3);
    assert(crate::bytes::le_bytes(r) =~= b);
    let c = be_bytes_32(r);
    assert(c[0] == b[3] && c[1] == b[2] && c[2] == b[1] && c[3] == b[0]);
    assert(b[3] == word % 0x100);
    assert(b[2] == word / 0x100 % 0x100);
    assert(b[1] == word / 0x1_0000 % 0x100);
    assert(b[0] == word / 0x100_0000);
}

/// The padded form of a message is the one that the message buffer holds.
pub proof fn lemma_sha_blocks(message: Seq<u8>)
    requires
        8 * message.len() <= u64::MAX,
    ensures
        is_sha_padding(message, sha_blocks(message)),
        sha_blocks(message) == padded(message),
{
    law_padding_bytes(message);
    assert(is_sha_padding(message, padded(message)));
    law_padding_is_unique(message, sha_blocks(message), padded(message));
}

} // verus!
