//! Ownership of SPACC channel 1 in the owner word that all channels share.
use crate::error::CryptoError;
use vstd::prelude::*;

verus! {

/// The channel that this crate uses, as a bit.
pub const CHANNEL_MASK: u32 = 2;

/// The same bit in a sixteen-bit register.
pub const CHANNEL_BIT: u16 = 2;

/// The four bits of the owner word that belong to the channel.
pub const OWNER_MASK: u32 = 0xf0;

/// Where these bits start.
pub const OWNER_SHIFT: u32 = 4;

/// Owner value of the rich execution environment.
pub const OWNER_REE: u32 = 1;

/// Descriptors in each ring.
pub const RING_DEPTH: u8 = 2;

/// The owner of the channel.
pub open spec fn owner_of(word: u32) -> u32 {
    (word & OWNER_MASK) >> OWNER_SHIFT
}

/// The owner word with the channel claimed.
pub open spec fn claimed(word: u32) -> u32 {
    (word & !OWNER_MASK) | (OWNER_REE << OWNER_SHIFT)
}

/// The owner word with the channel free.
pub open spec fn released(word: u32) -> u32 {
    word & !OWNER_MASK
}

/// A claim with some attempts left: the attempts, or the timeout where there are none.
pub open spec fn claim_with(attempts: u32, timeout: u32) -> Result<u32, CryptoError> {
    if attempts == 0 {
        Err(CryptoError::Backend(timeout))
    } else {
        Ok(attempts)
    }
}

/// Whether a status word has the bit of the channel.
pub open spec fn channel_set(word: u32) -> bool {
    word & CHANNEL_MASK != 0
}

/// The next position of a ring.
pub open spec fn ring_next(position: u32) -> u8 {
    ((position + 1) % 2) as u8
}

/// Claiming and releasing change the owner of the channel and of no other.
pub proof fn law_owner_word(word: u32, channel: u32)
    requires
        channel < 8,
    ensures
        owner_of(claimed(word)) == OWNER_REE,
        owner_of(released(word)) == 0,
        channel != 1 ==> (claimed(word) >> (4 * channel) as u32) & 0xf == (word >> (4
            * channel) as u32) & 0xf,
        channel != 1 ==> (released(word) >> (4 * channel) as u32) & 0xf == (word >> (4
            * channel) as u32) & 0xf,
{
    assert((((word & !0xf0u32) | (1u32 << 4u32)) & 0xf0u32) >> 4u32 == 1u32) by (bit_vector);
    assert(((word & !0xf0u32) & 0xf0u32) >> 4u32 == 0u32) by (bit_vector);
    let shift = (4 * channel) as u32;
    if channel != 1 {
        assert((((word & !0xf0u32) | (1u32 << 4u32)) >> shift) & 0xf == (word >> shift) & 0xf)
            by (bit_vector)
            requires
                shift == 0 || shift == 8 || shift == 12 || shift == 16 || shift == 20 || shift == 24
                    || shift == 28,
        ;
        assert(((word & !0xf0u32) >> shift) & 0xf == (word >> shift) & 0xf) by (bit_vector)
            requires
                shift == 0 || shift == 8 || shift == 12 || shift == 16 || shift == 20 || shift == 24
                    || shift == 28,
        ;
    }
}

/// Releasing what was claimed gives back the owner word of before, if the channel was
/// free.
pub proof fn law_release_undoes_claim(word: u32)
    requires
        owner_of(word) == 0,
    ensures
        released(claimed(word)) == word,
{
    assert((word & 0xf0u32) >> 4u32 == 0u32 ==> ((word & !0xf0u32) | (1u32 << 4u32)) & !0xf0u32
        == word) by (bit_vector);
}

/// Goes on with a claim that has `attempts` attempts left; without any it times out.
pub(crate) fn try_claim(attempts: u32, timeout: u32) -> (left: Result<u32, CryptoError>)
    ensures
        left == claim_with(attempts, timeout),
{
    if attempts == 0 {
        Err(CryptoError::Backend(timeout))
    } else {
        Ok(attempts)
    }
}

/// The owner of the channel.
pub(crate) fn channel_owner(word: u32) -> (owner: u32)
    ensures
        owner == owner_of(word),
{
    (word & OWNER_MASK) >> OWNER_SHIFT
}

/// The owner word with the channel claimed.
pub(crate) fn claim_channel(word: u32) -> (after: u32)
    ensures
        after == claimed(word),
{
    (word & !OWNER_MASK) | (OWNER_REE << OWNER_SHIFT)
}

/// The owner word with the channel free.
pub(crate) fn release_channel(word: u32) -> (after: u32)
    ensures
        after == released(word),
{
    word & !OWNER_MASK
}

/// Whether a status word has the bit of the channel.
pub(crate) fn channel_is_set(word: u32) -> (set: bool)
    ensures
        set == channel_set(word),
{
    word & CHANNEL_MASK != 0
}

/// The next position of a ring, whatever position the hardware reports.
pub(crate) fn advance_ring(position: u32) -> (next: u8)
    ensures
        next == ring_next(position),
{
    ((position % 2 + 1) % 2) as u8
}

} // verus!
