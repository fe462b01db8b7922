use hisi_crypto::sae::{Group19, RustCryptoGroup19, GROUP_19, P256_FIELD_PRIME};
use hisi_crypto_ws63::error::CryptoError;
use hisi_crypto_ws63::limits::DEFAULT_POLL_LIMIT;
use hisi_crypto_ws63::padding::{
    prepare_padded_message, HASH_BLOCK_BYTES, HASH_DMA_BYTES, MAX_HASH_INPUT_BYTES,
};
use hisi_crypto_ws63::pke::curve::{PkeEccCurve, PkeEccInitParam, P256_GX, P256_GY, P256_P};
use hisi_crypto_ws63::pke::engine::RomLib;
use hisi_crypto_ws63::pke::naf::scalar_to_naf;
use hisi_crypto_ws63::rkp::{
    prepare_sha1_salt_block, word_at, PASSWORD_BLOCK_BYTES, SHA1_INITIAL_STATE,
};
use hisi_crypto_ws63::spacc_cipher::{CipherDmaStorage, KeyLength, SymInputNode, SymOutputNode};
use hisi_crypto_ws63::{RkpPollLimits, SpaccCipherPollLimits, SpaccPollLimits, Ws63CryptoStorage};

#[test]
fn poll_limits_are_explicitly_nonzero() {
    let limits = RkpPollLimits::default();
    assert_eq!(limits.lock().get(), DEFAULT_POLL_LIMIT);
    assert_eq!(limits.operation().get(), DEFAULT_POLL_LIMIT);
}

#[test]
fn sha1_salt_padding_matches_vendor_oracle() {
    let block = prepare_sha1_salt_block(b"IEEE", 1);
    assert_eq!(&block[..8], b"IEEE\0\0\0\x01");
    assert_eq!(block[8], 0x80);
    assert!(block[9..56].iter().all(|byte| *byte == 0));
    assert_eq!(&block[56..64], &((64 + 4 + 4) * 8u64).to_be_bytes());
    assert!(block[64..].iter().all(|byte| *byte == 0));
}

#[test]
fn word_encoding_matches_vendor_little_endian_mmio_copy() {
    let mut bytes = [0u8; PASSWORD_BLOCK_BYTES];
    bytes[..4].copy_from_slice(&SHA1_INITIAL_STATE[..4]);
    assert_eq!(word_at(&bytes, 0), 0x0123_4567);
}

#[test]
fn caller_owned_storage_has_audited_dma_layout() {
    assert_eq!(Ws63CryptoStorage::align_bytes(), 32);
    assert_eq!(Ws63CryptoStorage::size_bytes(), 4_384);
}

#[test]
fn naf_round_trips_representative_scalars() {
    for scalar in [1u32, 2, 3, 7, 15, 0x8000_0001, u32::MAX] {
        let mut bytes = [0u8; 32];
        bytes[28..].copy_from_slice(&scalar.to_be_bytes());
        let mut digits = [0i8; 257];
        let length = scalar_to_naf(&bytes, &mut digits);
        let mut reconstructed = 0i64;
        for digit in digits[..length].iter().rev() {
            reconstructed = reconstructed * 2 + i64::from(*digit);
        }
        assert_eq!(reconstructed as u64, u64::from(scalar));
        assert!(digits[..length].iter().all(|digit| matches!(digit, -1..=1)));
    }
}

#[test]
fn p256_constants_match_group_19() {
    let group = RustCryptoGroup19::for_group(GROUP_19).unwrap();
    let generator = group.generator();
    let (x, y) = group.point_to_xy(&generator).unwrap();
    assert_eq!(x, P256_GX);
    assert_eq!(y, P256_GY);
    assert_eq!(P256_P, P256_FIELD_PRIME);
}

#[test]
fn vendor_abi_layout_matches_rv32() {
    assert_eq!(PkeEccCurve::layout().size, 36);
    assert_eq!(PkeEccInitParam::layout().size, 40);
    assert_eq!(RomLib::layout().size, 8);
}

#[test]
fn key_length_encoding_matches_vendor_driver() {
    assert_eq!(KeyLength::from_bytes(16).unwrap().register, 1);
    assert_eq!(KeyLength::from_bytes(24).unwrap().register, 2);
    assert_eq!(KeyLength::from_bytes(32).unwrap().register, 3);
    assert_eq!(KeyLength::from_bytes(15), Err(CryptoError::InvalidLength));
}

#[test]
fn descriptor_layout_matches_spacc_abi() {
    assert_eq!(SymInputNode::layout().size, 32);
    assert_eq!(SymOutputNode::layout().size, 16);
    assert_eq!(CipherDmaStorage::layout().align, 32);
}

#[test]
fn cipher_poll_limits_are_nonzero() {
    let limits = SpaccCipherPollLimits::default();
    assert_eq!(limits.channel_lock().get(), DEFAULT_POLL_LIMIT);
    assert_eq!(limits.channel_clear().get(), DEFAULT_POLL_LIMIT);
    assert_eq!(limits.operation().get(), DEFAULT_POLL_LIMIT);
    assert_eq!(limits.keyslot().get(), DEFAULT_POLL_LIMIT);
    assert_eq!(limits.klad().get(), DEFAULT_POLL_LIMIT);
}

#[test]
fn spacc_poll_limits_are_explicitly_nonzero() {
    let limits = SpaccPollLimits::default();
    assert_eq!(limits.lock().get(), DEFAULT_POLL_LIMIT);
    assert_eq!(limits.clear().get(), DEFAULT_POLL_LIMIT);
    assert_eq!(limits.operation().get(), DEFAULT_POLL_LIMIT);
}

#[test]
fn sha_padding_matches_fips_shape() {
    let mut buffer = [0u8; HASH_DMA_BYTES];
    let padded = prepare_padded_message(&mut buffer, None, &[b"abc"]).unwrap();
    assert_eq!(padded, 64);
    assert_eq!(&buffer[..4], b"abc\x80");
    assert!(buffer[4..56].iter().all(|byte| *byte == 0));
    assert_eq!(&buffer[56..64], &24u64.to_be_bytes());
}

#[test]
fn hmac_prefix_contributes_to_bit_length() {
    let mut buffer = [0u8; HASH_DMA_BYTES];
    let prefix = [0x36; HASH_BLOCK_BYTES];
    let padded = prepare_padded_message(&mut buffer, Some(&prefix), &[b"abc"]).unwrap();
    assert_eq!(padded, 128);
    assert_eq!(&buffer[..HASH_BLOCK_BYTES], &prefix);
    assert_eq!(&buffer[HASH_BLOCK_BYTES..HASH_BLOCK_BYTES + 4], b"abc\x80");
    assert_eq!(&buffer[padded - 8..padded], &(67u64 * 8).to_be_bytes());
}

#[test]
fn oversized_message_is_rejected() {
    let mut buffer = [0u8; HASH_DMA_BYTES];
    let oversized = [0u8; MAX_HASH_INPUT_BYTES + 1];
    assert_eq!(
        prepare_padded_message(&mut buffer, None, &[&oversized]),
        Err(CryptoError::InvalidLength)
    );
}
