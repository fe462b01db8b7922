//! Self-tests: a claim that fails closed, followed by operations with known results.
use crate::channel::try_claim;
use crate::error::CryptoError;
use crate::spacc_cipher::{AES_BLOCK_BYTES, ERR_LOCK_TIMEOUT};
use crate::spacc_hash::ERR_SPACC_LOCK_TIMEOUT;
use vstd::prelude::*;

verus! {

/// A claim of the hash channel without attempts did not time out.
pub const ERR_HASH_CLAIM: u32 = 0xffff_12f1;

/// A hash gave another digest than expected.
pub const ERR_HASH_DIGEST: u32 = 0xffff_12f2;

/// A claim of the symmetric channel without attempts did not time out.
pub const ERR_CIPHER_CLAIM: u32 = 0xffff_13f1;

/// An encryption gave another block than expected.
pub const ERR_CIPHER_ENCRYPT: u32 = 0xffff_13f2;

/// A decryption gave another block than expected.
pub const ERR_CIPHER_DECRYPT: u32 = 0xffff_13f3;

/// The message of the hash self-test: "abc".
pub const HASH_MESSAGE: [u8; 3] = [0x61, 0x62, 0x63];

/// Its SHA-1 digest.
pub const HASH_DIGEST: [u8; 20] = [
    0xa9, 0x99, 0x3e, 0x36, 0x47, 0x06, 0x81, 0x6a, 0xba, 0x3e, 0x25, 0x71, 0x78, 0x50, 0xc2, 0x6c,
    0x9c, 0xd0, 0xd8, 0x9d,
];

/// The key of the cipher self-test; shorter keys are its first bytes.
pub const CIPHER_KEY: [u8; 32] = [
    0x00, 0x01, 0x02, 0x03, 0x04, 0x05, 0x06, 0x07, 0x08, 0x09, 0x0a, 0x0b, 0x0c, 0x0d, 0x0e, 0x0f,
    0x10, 0x11, 0x12, 0x13, 0x14, 0x15, 0x16, 0x17, 0x18, 0x19, 0x1a, 0x1b, 0x1c, 0x1d, 0x1e, 0x1f,
];

/// The plaintext of the cipher self-test.
pub const CIPHER_PLAINTEXT: [u8; 16] = [
    0x00, 0x11, 0x22, 0x33, 0x44, 0x55, 0x66, 0x77, 0x88, 0x99, 0xaa, 0xbb, 0xcc, 0xdd, 0xee, 0xff,
];

/// Its ciphertext under the 128-bit key.
pub const CIPHERTEXT_128: [u8; 16] = [
    0x69, 0xc4, 0xe0, 0xd8, 0x6a, 0x7b, 0x04, 0x30, 0xd8, 0xcd, 0xb7, 0x80, 0x70, 0xb4, 0xc5, 0x5a,
];

/// Its ciphertext under the 192-bit key.
pub const CIPHERTEXT_192: [u8; 16] = [
    0xdd, 0xa9, 0x7c, 0xa4, 0x86, 0x4c, 0xdf, 0xe0, 0x6e, 0xaf, 0x70, 0xa0, 0xec, 0x0d, 0x71, 0x91,
];

/// Its ciphertext under the 256-bit key.
pub const CIPHERTEXT_256: [u8; 16] = [
    0x8e, 0xa2, 0xb7, 0xca, 0x51, 0x67, 0x45, 0xbf, 0xea, 0xfc, 0x49, 0x90, 0x4b, 0x49, 0x60, 0x89,
];

/// Vectors of the cipher self-test.
pub const CIPHER_VECTORS: usize = 3;

/// Key length of a vector.
pub open spec fn vector_key_len(vector: int) -> nat {
    if vector == 0 {
        16
    } else if vector == 1 {
        24
    } else {
        32
    }
}

/// Ciphertext of a vector.
pub open spec fn vector_ciphertext(vector: int) -> [u8; 16] {
    if vector == 0 {
        CIPHERTEXT_128
    } else if vector == 1 {
        CIPHERTEXT_192
    } else {
        CIPHERTEXT_256
    }
}

/// What a self-test wants done next.
#[derive(Clone, Copy, Debug, PartialEq, Eq)]
pub enum Trial {
    /// Claim the channel with no attempts.
    Claim,
    /// Hash the message with SHA-1.
    Hash,
    /// Encrypt the plaintext of a vector.
    Encrypt { vector: usize },
    /// Decrypt the ciphertext of a vector.
    Decrypt { vector: usize },
    /// Nothing: the self-test is over.
    Over { result: Result<(), CryptoError> },
}

/// A claim of a channel with no attempts: none can succeed, so the claim times out before
/// any command.
pub fn claim_without_attempts(timeout: u32) -> (result: Result<(), CryptoError>)
    ensures
        result == Err::<(), CryptoError>(CryptoError::Backend(timeout)),
{
    match try_claim(0, timeout) {
        Ok(_) => Ok(()),
        Err(error) => Err(error),
    }
}

/// What follows a claim of the hash channel with no attempts.
pub open spec fn hash_claimed(result: Result<(), CryptoError>) -> Trial {
    if result == Err::<(), CryptoError>(CryptoError::Backend(ERR_SPACC_LOCK_TIMEOUT)) {
        Trial::Hash
    } else {
        Trial::Over { result: Err(CryptoError::Backend(ERR_HASH_CLAIM)) }
    }
}

/// What follows the hash.
pub open spec fn hash_digested(result: Result<[u8; 20], CryptoError>) -> Trial {
    Trial::Over {
        result: match result {
            Err(error) => Err(error),
            Ok(digest) => if digest == HASH_DIGEST {
                Ok(())
            } else {
                Err(CryptoError::Backend(ERR_HASH_DIGEST))
            },
        },
    }
}

/// What follows a claim of the symmetric channel with no attempts.
pub open spec fn cipher_claimed(result: Result<(), CryptoError>) -> Trial {
    if result == Err::<(), CryptoError>(CryptoError::Backend(ERR_LOCK_TIMEOUT)) {
        Trial::Encrypt { vector: 0 }
    } else {
        Trial::Over { result: Err(CryptoError::Backend(ERR_CIPHER_CLAIM)) }
    }
}

/// What follows an encryption.
pub open spec fn cipher_encrypted(vector: usize, result: Result<[u8; 16], CryptoError>) -> Trial {
    match result {
        Err(error) => Trial::Over { result: Err(error) },
        Ok(block) => if block == vector_ciphertext(vector as int) {
            Trial::Decrypt { vector }
        } else {
            Trial::Over { result: Err(CryptoError::Backend(ERR_CIPHER_ENCRYPT)) }
        },
    }
}

/// What follows a decryption.
pub open spec fn cipher_decrypted(vector: usize, result: Result<[u8; 16], CryptoError>) -> Trial {
    match result {
        Err(error) => Trial::Over { result: Err(error) },
        Ok(block) => if block != CIPHER_PLAINTEXT {
            Trial::Over { result: Err(CryptoError::Backend(ERR_CIPHER_DECRYPT)) }
        } else if vector + 1 < CIPHER_VECTORS {
            Trial::Encrypt { vector: (vector + 1) as usize }
        } else {
            Trial::Over { result: Ok(()) }
        },
    }
}

/// The published ciphertext of the block 00112233445566778899aabbccddeeff under the key that
/// counts up from zero, by the length of the key.
pub open spec fn published_ciphertext(key_len: nat) -> Seq<u8> {
    if key_len == 16 {
        seq![
            0x69u8, 0xc4u8, 0xe0u8, 0xd8u8, 0x6au8, 0x7bu8, 0x04u8, 0x30u8, 0xd8u8, 0xcdu8, 0xb7u8, 0x80u8,
            0x70u8, 0xb4u8, 0xc5u8, 0x5au8,
        ]
    } else if key_len == 24 {
        seq![
            0xddu8, 0xa9u8, 0x7cu8, 0xa4u8, 0x86u8, 0x4cu8, 0xdfu8, 0xe0u8, 0x6eu8, 0xafu8, 0x70u8, 0xa0u8,
            0xecu8, 0x0du8, 0x71u8, 0x91u8,
        ]
    } else {
        seq![
            0x8eu8, 0xa2u8, 0xb7u8, 0xcau8, 0x51u8, 0x67u8, 0x45u8, 0xbfu8, 0xeau8, 0xfcu8, 0x49u8, 0x90u8,
            0x4bu8, 0x49u8, 0x60u8, 0x89u8,
        ]
    }
}

/// The cipher self-test goes through key lengths of 16, 24 and 32 bytes in this order, goes on
/// to the decryption exactly where the encryption gave the published ciphertext, and goes on
/// from there, or passes after the last one, exactly where the decryption gave back the block.
pub proof fn law_cipher_self_test(vector: usize, result: Result<[u8; 16], CryptoError>)
    requires
        vector < 3,
    ensures
        vector_key_len(vector as int) == 16 + 8 * vector,
        cipher_claimed(Err(CryptoError::Backend(0xffff_1301))) == (Trial::Encrypt { vector: 0 }),
        cipher_encrypted(vector, result) == (Trial::Decrypt { vector }) <==> result is Ok
            && result->Ok_0@ == published_ciphertext((16 + 8 * vector) as nat),
        cipher_encrypted(vector, result) is Decrypt || cipher_encrypted(vector, result) is Over
            && cipher_encrypted(vector, result)->result is Err,
        ({
            let back = result is Ok && forall|i: int|
                0 <= i < 16 ==> #[trigger] result->Ok_0@[i] == 0x11 * i;
            let end = cipher_decrypted(vector, result);
            &&& back && vector < 2 ==> end == (Trial::Encrypt { vector: (vector + 1) as usize })
            &&& back && vector == 2 ==> end == (Trial::Over { result: Ok(()) })
            &&& !back ==> end is Over && end->result is Err
        }),
{
    assert(vector_ciphertext(vector as int)@ =~= published_ciphertext(
        (16 + 8 * vector) as nat,
    ));
    if result is Ok {
        let block = result->Ok_0;
        assert(block@ == vector_ciphertext(vector as int)@ ==> block == vector_ciphertext(
            vector as int,
        ));
        assert forall|i: int| 0 <= i < 16 implies #[trigger] CIPHER_PLAINTEXT@[i] == 0x11 * i by {}
        if forall|i: int| 0 <= i < 16 ==> #[trigger] block@[i] == 0x11 * i {
            assert(block@ =~= CIPHER_PLAINTEXT@);
            assert(block == CIPHER_PLAINTEXT);
        }
    }
}

/// Whether a result is a timeout with a code.
fn is_timeout(result: Result<(), CryptoError>, timeout: u32) -> (is: bool)
    ensures
        is == (result == Err::<(), CryptoError>(CryptoError::Backend(timeout))),
{
    match result {
        Err(CryptoError::Backend(code)) => code == timeout,
        _ => false,
    }
}

/// Whether two byte strings are equal.
fn equal_bytes(a: &[u8], b: &[u8]) -> (equal: bool)
    ensures
        equal == (a@ == b@),
{
    if a.len() != b.len() {
        return false;
    }
    let mut i: usize = 0;
    while i < a.len()
        invariant
            i <= a@.len(),
            a@.len() == b@.len(),
            forall|j: int| 0 <= j < i ==> a@[j] == b@[j],
        decreases a@.len() - i,
    {
        if a[i] != b[i] {
            return false;
        }
        i += 1;
    }
    proof {
        assert(a@ =~= b@);
    }
    true
}

/// The self-test of the hash channel: a claim with no attempts times out, and a hash
/// works afterwards.
pub struct HashDiagnostic {
    next: Trial,
}

impl HashDiagnostic {
    /// What is to be done next.
    pub closed spec fn trial(self) -> Trial {
        self.next
    }

    /// A self-test that has done nothing yet.
    pub fn new() -> (diagnostic: Self)
        ensures
            diagnostic.trial() == Trial::Claim,
    {
        Self { next: Trial::Claim }
    }

    /// What is to be done next.
    pub fn next(&self) -> (next: Trial)
        ensures
            next == self.trial(),
    {
        self.next
    }

    /// Takes the result of the claim.
    pub fn claimed(&mut self, result: Result<(), CryptoError>)
        requires
            old(self).trial() is Claim,
        ensures
            final(self).trial() == hash_claimed(result),
    {
        self.next = if is_timeout(result, ERR_SPACC_LOCK_TIMEOUT) {
            Trial::Hash
        } else {
            Trial::Over { result: Err(CryptoError::Backend(ERR_HASH_CLAIM)) }
        };
    }

    /// Takes the result of the hash.
    pub fn hashed(&mut self, result: Result<[u8; 20], CryptoError>)
        requires
            old(self).trial() is Hash,
        ensures
            final(self).trial() == hash_digested(result),
    {
        let result = match result {
            Err(error) => Err(error),
            Ok(digest) => {
                proof {
                    assert(digest@ == HASH_DIGEST@ ==> digest =~= HASH_DIGEST);
                }
                if equal_bytes(&digest, &HASH_DIGEST) {
                    Ok(())
                } else {
                    Err(CryptoError::Backend(ERR_HASH_DIGEST))
                }
            },
        };
        self.next = Trial::Over { result };
    }
}

/// The self-test of the symmetric channel: a claim with no attempts times out, and AES
/// with each key length works afterwards in both directions.
pub struct CipherDiagnostic {
    next: Trial,
}

impl CipherDiagnostic {
    /// What is to be done next.
    pub closed spec fn trial(self) -> Trial {
        self.next
    }

    /// A self-test that has done nothing yet.
    pub fn new() -> (diagnostic: Self)
        ensures
            diagnostic.trial() == Trial::Claim,
    {
        Self { next: Trial::Claim }
    }

    /// What is to be done next.
    pub fn next(&self) -> (next: Trial)
        ensures
            next == self.trial(),
    {
        self.next
    }

    /// The key of a vector.
    pub fn key(vector: usize) -> (key: &'static [u8])
        requires
            vector < CIPHER_VECTORS,
        ensures
            key@ == CIPHER_KEY@.take(vector_key_len(vector as int) as int),
    {
        let length: usize = if vector == 0 {
            16
        } else if vector == 1 {
            24
        } else {
            32
        };
        vstd::slice::slice_subrange(&CIPHER_KEY, 0, length)
    }

    /// The ciphertext of a vector.
    pub fn ciphertext(vector: usize) -> (block: [u8; AES_BLOCK_BYTES])
        requires
            vector < CIPHER_VECTORS,
        ensures
            block == vector_ciphertext(vector as int),
    {
        if vector == 0 {
            CIPHERTEXT_128
        } else if vector == 1 {
            CIPHERTEXT_192
        } else {
            CIPHERTEXT_256
        }
    }

    /// Takes the result of the claim.
    pub fn claimed(&mut self, result: Result<(), CryptoError>)
        requires
            old(self).trial() is Claim,
        ensures
            final(self).trial() == cipher_claimed(result),
    {
        self.next = if is_timeout(result, ERR_LOCK_TIMEOUT) {
            Trial::Encrypt { vector: 0 }
        } else {
            Trial::Over { result: Err(CryptoError::Backend(ERR_CIPHER_CLAIM)) }
        };
    }

    /// Takes the result of an encryption.
    pub fn encrypted(&mut self, result: Result<[u8; 16], CryptoError>)
        requires
            old(self).trial() is Encrypt,
            old(self).trial()->Encrypt_vector < CIPHER_VECTORS,
        ensures
            final(self).trial() == cipher_encrypted(old(self).trial()->Encrypt_vector, result),
    {
        let vector: usize = match self.next {
            Trial::Encrypt { vector } => vector,
            _ => 0,
        };
        self.next = match result {
            Err(error) => Trial::Over { result: Err(error) },
            Ok(block) => {
                let expected = Self::ciphertext(vector);
                proof {
                    assert(block@ == expected@ ==> block =~= expected);
                }
                if equal_bytes(&block, &expected) {
                    Trial::Decrypt { vector }
                } else {
                    Trial::Over { result: Err(CryptoError::Backend(ERR_CIPHER_ENCRYPT)) }
                }
            },
        };
    }

    /// Takes the result of a decryption.
    pub fn decrypted(&mut self, result: Result<[u8; 16], CryptoError>)
        requires
            old(self).trial() is Decrypt,
            old(self).trial()->Decrypt_vector < CIPHER_VECTORS,
        ensures
            final(self).trial() == cipher_decrypted(old(self).trial()->Decrypt_vector, result),
    {
        let vector: usize = match self.next {
            Trial::Decrypt { vector } => vector,
            _ => 0,
        };
        self.next = match result {
            Err(error) => Trial::Over { result: Err(error) },
            Ok(block) => {
                proof {
                    assert(block@ == CIPHER_PLAINTEXT@ ==> block =~= CIPHER_PLAINTEXT);
                }
                if !equal_bytes(&block, &CIPHER_PLAINTEXT) {
                    Trial::Over { result: Err(CryptoError::Backend(ERR_CIPHER_DECRYPT)) }
                } else if vector + 1 < CIPHER_VECTORS {
                    Trial::Encrypt { vector: vector + 1 }
                } else {
                    Trial::Over { result: Ok(()) }
                }
            },
        };
    }
}

} // verus!
