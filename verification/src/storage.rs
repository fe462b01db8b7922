//! What the library prepares for the memory that the SPACC engines work on.
use crate::abi::DMA_ALIGN;
use crate::layout::{aligned, fields_align, fields_end, struct_layout};
use crate::spacc_cipher::{empty_cipher_memory, CipherDmaStorage};
use crate::spacc_hash::{empty_hash_memory, HashDmaStorage};
use vstd::prelude::*;

verus! {

/// Caller-owned static storage for the WS63 SPACC capabilities: the contents of the
/// descriptors and buffers, as the library prepares and wipes them.
///
/// SPACC itself never accesses a value of this type. The firmware copies the contents to
/// memory in the layout that SPACC expects, whose size and alignment
/// [`Ws63CryptoStorage::size_bytes`] and [`Ws63CryptoStorage::align_bytes`] give. Initialize
/// the storage once and move a mutable reference to it into
/// [`crate::crypto::Ws63CryptoResources`].
pub struct Ws63CryptoStorage {
    pub hash: HashDmaStorage,
    pub cipher: CipherDmaStorage,
}

impl Ws63CryptoStorage {
    /// Create zeroed storage suitable for one WS63 crypto backend.
    pub fn new() -> (storage: Self)
        ensures
            storage.hash@ == empty_hash_memory(),
            storage.cipher@ == empty_cipher_memory(),
    {
        Self { hash: HashDmaStorage::new(), cipher: CipherDmaStorage::new() }
    }

    /// Static SRAM that the contents take in the layout that SPACC expects.
    pub fn size_bytes() -> (size: usize)
        ensures
            size == 4384,
    {
        let fields = [HashDmaStorage::layout(), CipherDmaStorage::layout()];
        proof {
            assert(aligned(0, 32) == 0 && aligned(4256, 32) == 4256 && aligned(4384, 32) == 4384);
            reveal_with_fuel(fields_end, 3);
            reveal_with_fuel(fields_align, 3);
        }
        struct_layout(&fields, DMA_ALIGN).size
    }

    /// Alignment that SPACC expects of that SRAM.
    pub fn align_bytes() -> (align: usize)
        ensures
            align == 32,
    {
        let fields = [HashDmaStorage::layout(), CipherDmaStorage::layout()];
        proof {
            reveal_with_fuel(fields_align, 3);
        }
        struct_layout(&fields, DMA_ALIGN).align
    }
}

impl Default for Ws63CryptoStorage {
    fn default() -> (storage: Self)
        ensures
            storage.hash@ == empty_hash_memory(),
            storage.cipher@ == empty_cipher_memory(),
    {
        Self::new()
    }
}

} // verus!
