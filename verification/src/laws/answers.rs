//! What single answers lead to: which ones let an operation go on, and with which error the
//! others end it.
use crate::bus::{Command, Reply};
use crate::channel::{claimed, owner_of, released};
use crate::error::CryptoError;
use crate::padding::law_padded_shape;
use crate::pke::engine::{
    operand_bytes, pke_next, pke_proceed, pke_protect, PkeInput, PkeStage, PkeState,
};
use crate::pke::program::PkeOp;
use crate::rkp::{rkp_next, RkpInput, RkpStage, RkpState};
use crate::spacc_cipher::{cipher_next, CipherInput, CipherStage, CipherState};
use crate::spacc_hash::{hash_next, HashInput, HashMessage, HashStage, HashState};
use vstd::prelude::*;

verus! {

/// The owner of SPACC channel 1 in an owner word: bits 4 to 7.
pub open spec fn channel_owner_bits(word: u32) -> u32 {
    (word >> 4u32) & 0xf
}

/// The bits that belong to channel 1, and only those, are changed by a claim and a release.
pub proof fn law_owner_bits(word: u32)
    ensures
        owner_of(word) == channel_owner_bits(word),
        channel_owner_bits(claimed(word)) == 1,
        channel_owner_bits(released(word)) == 0,
        claimed(word) & 0xffff_ff0f == word & 0xffff_ff0f,
        released(word) & 0xffff_ff0f == word & 0xffff_ff0f,
{
    assert((word & 0xf0u32) >> 4u32 == (word >> 4u32) & 0xf && ((((word & !0xf0u32) | (1u32
        << 4u32)) >> 4u32) & 0xf == 1) && ((word & !0xf0u32) >> 4u32) & 0xf == 0 && ((word
        & !0xf0u32) | (1u32 << 4u32)) & 0xffff_ff0f == word & 0xffff_ff0f && (word & !0xf0u32)
        & 0xffff_ff0f == word & 0xffff_ff0f) by (bit_vector);
}

/// A derivation goes on exactly with the answers that it waits for: the lock when it owns
/// it, a block when it is no longer requested and shows no error, a random number when there
/// is one. A wait that uses up its polls, a missing random number and an error word end it
/// with their error.
pub proof fn law_rkp_answers(input: RkpInput, state: RkpState, reply: Reply)
    ensures
        ({
            let end = rkp_next(input, state, reply).state.stage;
            let word = reply->word;
            match state.stage {
                RkpStage::Lock { polls } => {
                    &&& end is PasswordEntropy <==> word == 1
                    &&& word != 1 && polls > 1 ==> end == (RkpStage::Lock {
                        polls: (polls - 1) as u32,
                    })
                    &&& word != 1 && polls == 1 ==> end == (RkpStage::Finished {
                        result: Err(CryptoError::Backend(0xffff_1102)),
                    })
                },
                RkpStage::PasswordEntropy => if reply is RandomFailed {
                    end == (RkpStage::Finished { result: Err(CryptoError::Backend(0xffff_1104)) })
                } else {
                    end == (RkpStage::SaltEntropy { block: 1 })
                },
                RkpStage::SaltEntropy { block } => if reply is RandomFailed {
                    end == (RkpStage::Finished { result: Err(CryptoError::Backend(0xffff_1104)) })
                } else {
                    end == (RkpStage::Calculate { block, polls: input.operation_polls })
                },
                RkpStage::Calculate { block, polls } => {
                    &&& end is BlockError <==> word == 0
                    &&& word != 0 && polls > 1 ==> end == (RkpStage::Calculate {
                        block,
                        polls: (polls - 1) as u32,
                    })
                    &&& word != 0 && polls == 1 ==> end == (RkpStage::Finished {
                        result: Err(CryptoError::Backend(0xffff_1103)),
                    })
                },
                RkpStage::BlockError { block } => if word != 0 {
                    end == (RkpStage::Finished { result: Err(CryptoError::Backend(word)) })
                } else {
                    end == (RkpStage::OutputEntropy { block })
                },
                RkpStage::OutputEntropy { block } => if reply is RandomFailed {
                    end == (RkpStage::Finished { result: Err(CryptoError::Backend(0xffff_1104)) })
                } else {
                    end is OutputWord
                },
                _ => true,
            }
        }),
{
}

/// A hash claims the channel only where it is free and goes on only where it got it; each
/// wait that uses up its polls, and each error that the channel shows, ends it with its
/// error.
pub proof fn law_hash_answers(
    input: HashInput,
    message: HashMessage,
    state: HashState,
    reply: Reply,
)
    requires
        state.valid(input),
    ensures
        ({
            let next = hash_next(input, message, state, reply);
            let end = next.state.stage;
            let word = reply->word;
            let done = word & 2 != 0;
            match state.stage {
                HashStage::Claim { polls } => {
                    &&& end is Verify <==> channel_owner_bits(word) == 0
                    &&& end is Verify ==> next.commands[0] is HashOwners && channel_owner_bits(
                        next.commands[0]->HashOwners_word,
                    ) == 1 && next.commands[0]->HashOwners_word & 0xffff_ff0f == word
                        & 0xffff_ff0f
                    &&& !(end is Verify) && polls > 1 ==> end == (HashStage::Claim {
                        polls: (polls - 1) as u32,
                    })
                    &&& !(end is Verify) && polls == 1 ==> end == (HashStage::Finished {
                        result: Err(CryptoError::Backend(0xffff_1201)),
                    })
                },
                HashStage::Verify { polls } => {
                    &&& end is Enables <==> channel_owner_bits(word) == 1
                    &&& !(end is Enables) && polls > 1 ==> end == (HashStage::Claim {
                        polls: (polls - 1) as u32,
                    })
                    &&& !(end is Enables) && polls == 1 ==> end == (HashStage::Finished {
                        result: Err(CryptoError::Backend(0xffff_1201)),
                    })
                },
                HashStage::Clear { polls } => {
                    &&& !done && polls > 1 ==> end == (HashStage::Clear {
                        polls: (polls - 1) as u32,
                    })
                    &&& !done && polls == 1 ==> end == (HashStage::Release {
                        result: Err(CryptoError::Backend(0xffff_1202)),
                    })
                    &&& done && (input.nodes_address > u32::MAX || input.bytes_address > u32::MAX)
                        && message.body.len() <= 4096 && message.prefix.len() + message.body.len()
                        <= 4215 ==> end == (HashStage::Release {
                        result: Err(CryptoError::Backend(0xffff_1206)),
                    })
                    &&& done && (message.body.len() > 4096 || message.prefix.len()
                        + message.body.len() > 4215) ==> end == (HashStage::Release {
                        result: Err(CryptoError::InvalidLength),
                    })
                },
                HashStage::Configured { .. } => if word != 0 {
                    end == (HashStage::Release { result: Err(CryptoError::Backend(0xffff_1205)) })
                } else {
                    end is Position
                },
                HashStage::Wait { polls } => {
                    &&& end is BusError <==> done
                    &&& !done && polls > 1 ==> end == (HashStage::Wait {
                        polls: (polls - 1) as u32,
                    })
                    &&& !done && polls == 1 ==> end == (HashStage::Release {
                        result: Err(CryptoError::Backend(0xffff_1203)),
                    })
                },
                HashStage::BusError => if word != 0 {
                    end == (HashStage::Release { result: Err(CryptoError::Backend(0xffff_1204)) })
                } else {
                    end is ControlError
                },
                HashStage::ControlError => if word != 0 {
                    end == (HashStage::Release { result: Err(CryptoError::Backend(0xffff_1205)) })
                } else {
                    end is ControlStatus
                },
                HashStage::ControlStatus => if word != 0 {
                    end == (HashStage::Release { result: Err(CryptoError::Backend(0xffff_1205)) })
                } else {
                    end == (HashStage::Digest { index: 0 })
                },
                HashStage::Release { result } => {
                    &&& end == (HashStage::Finished { result })
                    &&& next.commands[0] is HashOwners
                    &&& channel_owner_bits(next.commands[0]->HashOwners_word) == 0
                    &&& next.commands[0]->HashOwners_word & 0xffff_ff0f == word & 0xffff_ff0f
                },
                _ => true,
            }
        }),
{
    law_owner_bits(reply->word);
    law_padded_shape(message.prefix + message.body);
}

/// A block operation goes on exactly with the answers that it waits for: a free keyslot that
/// it then owns, the key ladder that it owns, the channel that was free and that it then
/// owns. Waits that use up their polls and errors end it with their error, or have the next
/// keyslot tried.
pub proof fn law_cipher_answers(input: CipherInput, state: CipherState, reply: Reply)
    requires
        input.valid(),
        state.valid(),
    ensures
        ({
            let next = cipher_next(input, state, reply);
            let end = next.state.stage;
            let word = reply->word;
            let done = word & 2 != 0;
            let failed = next.state.result;
            match state.stage {
                CipherStage::SlotOwner => {
                    &&& end is SlotIdle <==> word == 0
                    &&& word != 0 && state.slot < 7 ==> end is SlotOwner && next.state.slot
                        == state.slot + 1
                    &&& word != 0 && state.slot == 7 ==> end is Finished && failed == Err::<
                        (),
                        CryptoError,
                    >(CryptoError::Backend(0xffff_1307))
                },
                CipherStage::SlotIdle { polls } => {
                    &&& end is SlotVerify <==> !reply->busy && !reply->unlock_failed
                        && !reply->timed_out
                },
                CipherStage::SlotVerify => end is LadderFailure <==> word == 1,
                CipherStage::LadderFailure { polls } => {
                    &&& end is LadderOwner <==> word != 1
                    &&& word == 1 && polls == 1 ==> end is SlotUnlock && failed == Err::<
                        (),
                        CryptoError,
                    >(CryptoError::Backend(0xffff_1309))
                },
                CipherStage::LadderOwner { polls } => {
                    &&& end is Route <==> word == 0xaa
                    &&& word != 0xaa && polls == 1 ==> end is SlotUnlock && failed == Err::<
                        (),
                        CryptoError,
                    >(CryptoError::Backend(0xffff_1309))
                },
                CipherStage::Route { polls, .. } => {
                    &&& end is LadderError <==> word == 0
                    &&& word != 0 && polls == 1 ==> end is LadderUnlock && failed == Err::<
                        (),
                        CryptoError,
                    >(CryptoError::Backend(0xffff_130a))
                },
                CipherStage::LadderError { .. } | CipherStage::SlotError { .. } => word != 0
                    ==> end is LadderUnlock && failed == Err::<(), CryptoError>(
                    CryptoError::Backend(0xffff_130b),
                ),
                CipherStage::Claim { polls } => {
                    &&& end is Verify <==> channel_owner_bits(word) == 0
                    &&& end is Verify ==> next.commands[0] is CipherOwners && channel_owner_bits(
                        next.commands[0]->CipherOwners_word,
                    ) == 1 && next.commands[0]->CipherOwners_word & 0xffff_ff0f == word
                        & 0xffff_ff0f
                    &&& !(end is Verify) && polls == 1 ==> end is SlotUnlock && failed == Err::<
                        (),
                        CryptoError,
                    >(CryptoError::Backend(0xffff_1301))
                },
                CipherStage::Verify { polls } => {
                    &&& end is Clear <==> channel_owner_bits(word) == 1
                    &&& !(end is Clear) && polls == 1 ==> end is SlotUnlock && failed == Err::<
                        (),
                        CryptoError,
                    >(CryptoError::Backend(0xffff_1301))
                },
                CipherStage::Clear { polls } => {
                    &&& !done && polls == 1 ==> end is Stop && failed == Err::<(), CryptoError>(
                        CryptoError::Backend(0xffff_1302),
                    )
                    &&& done && !input.addresses.reachable() ==> end is Stop && failed == Err::<
                        (),
                        CryptoError,
                    >(CryptoError::Backend(0xffff_1306))
                },
                CipherStage::Wait { polls } => {
                    &&& end is BusError <==> done
                    &&& !done && polls == 1 ==> end is Stop && failed == Err::<(), CryptoError>(
                        CryptoError::Backend(0xffff_1303),
                    )
                },
                CipherStage::BusError => if word != 0 {
                    end is Stop && failed == Err::<(), CryptoError>(
                        CryptoError::Backend(0xffff_1304),
                    )
                } else {
                    end is ControlError
                },
                CipherStage::Configured | CipherStage::ControlError
                | CipherStage::ControlStatus => word != 0 ==> end is Stop && failed == Err::<
                    (),
                    CryptoError,
                >(CryptoError::Backend(0xffff_1305)),
                CipherStage::Stop { polls } => {
                    &&& end is Release <==> done
                    &&& !done && polls == 1 ==> end is Finished && failed == Err::<
                        (),
                        CryptoError,
                    >(CryptoError::Backend(0xffff_1302))
                },
                CipherStage::Release => {
                    &&& end is SlotUnlock
                    &&& failed == state.result
                    &&& next.commands[0] is CipherOwners
                    &&& channel_owner_bits(next.commands[0]->CipherOwners_word) == 0
                    &&& next.commands[0]->CipherOwners_word & 0xffff_ff0f == word & 0xffff_ff0f
                },
                CipherStage::SlotUnlocked => {
                    &&& end is Finished
                    &&& state.result is Ok && word != 0 ==> failed == Err::<(), CryptoError>(
                        CryptoError::Backend(0xffff_1308),
                    )
                    &&& state.result is Err ==> failed == state.result
                },
                _ => true,
            }
        }),
{
    law_owner_bits(reply->word);
}

/// An operation of the public key engine goes on exactly with the answers that it waits for:
/// a seed that is not zero, which becomes the mask with its first byte lowest, the engine
/// that it owns, curve parameters that were loaded, a batch that was taken and that ended
/// with its success code. Everything else ends it with its error.
pub proof fn law_pke_answers(input: PkeInput, state: PkeState, reply: Reply)
    requires
        state.valid(input),
    ensures
        ({
            let next = pke_next(input, state, reply);
            let end = next.state.stage;
            let word = reply->word;
            match state.stage {
                PkeStage::Entropy { tries } => match reply {
                    Reply::Entropy { seed } => {
                        let number = seed@[0] + 0x100 * seed@[1] + 0x1_0000 * seed@[2]
                            + 0x100_0000 * seed@[3];
                        &&& end is Lock <==> number != 0
                        &&& number != 0 ==> next.state.mask == number
                        &&& number == 0 && tries > 1 ==> end == (PkeStage::Entropy {
                            tries: (tries - 1) as u32,
                        })
                        &&& number == 0 && tries == 1 ==> end == (PkeStage::Finished {
                            result: Err(CryptoError::Backend(0xffff_1402)),
                        })
                    },
                    Reply::EntropyFailed { error } => end == (PkeStage::Finished {
                        result: Err(error),
                    }),
                    _ => true,
                },
                PkeStage::Lock { polls } => {
                    &&& word == 0xaa ==> next.commands.len() >= 3 && next.commands[0] == (
                    Command::PkeNoise { enable: true }) && next.commands[1] == (
                    Command::PkeMaskGenerator { enable: true }) && next.commands[2] == (
                    Command::PkeMask { mask: state.mask }) && !(end is Lock)
                    &&& word != 0xaa ==> next.commands.len() == 0
                    &&& word != 0xaa && polls > 1 ==> end == (PkeStage::Lock {
                        polls: (polls - 1) as u32,
                    })
                    &&& word != 0xaa && polls == 1 ==> end == (PkeStage::Finished {
                        result: Err(CryptoError::Backend(0xffff_1403)),
                    })
                },
                PkeStage::Curve => reply->status != 0 ==> end is Clean && end->Clean_result
                    == Err::<(), CryptoError>(CryptoError::Backend(reply->status as u32)),
                PkeStage::Ready { index, polls } => {
                    &&& end is Busy <==> word != 0
                    &&& word == 0 && polls == 1 ==> end is Clean && end->Clean_result == Err::<
                        (),
                        CryptoError,
                    >(CryptoError::Backend(0xffff_1404))
                },
                PkeStage::Busy { index, polls } => {
                    &&& end is Finish <==> word == 0
                    &&& word != 0 && polls == 1 ==> end is Clean && end->Clean_result == Err::<
                        (),
                        CryptoError,
                    >(CryptoError::Backend(0xffff_1405))
                },
                PkeStage::Finish { index } => word != 5 ==> end is Clean && end->Clean_result
                    == Err::<(), CryptoError>(CryptoError::Backend(0xffff_1406)),
                PkeStage::Clean { polls, result } => {
                    &&& word != 0 && polls > 1 ==> end is Clean
                    &&& word == 0 ==> end == (PkeStage::Finished { result })
                    &&& word != 0 && polls == 1 && result is Ok ==> end == (PkeStage::Finished {
                        result: Err(CryptoError::Backend(0xffff_1405)),
                    })
                },
                _ => true,
            }
        }),
{
    if let PkeStage::Lock { .. } = state.stage {
        let unmasked = PkeState { mask: 0, ..state };
        lemma_keeps_front(input, unmasked, 0, pke_protect(state.mask));
    }
}

/// Going through a program only appends commands, and does not go back to the lock.
proof fn lemma_keeps_front(input: PkeInput, state: PkeState, index: nat, commands: Seq<Command>)
    ensures
        ({
            let next = pke_proceed(input, state, index, commands);
            &&& next.commands.len() >= commands.len()
            &&& next.commands.take(commands.len() as int) == commands
            &&& forall|i: int|
                0 <= i < commands.len() ==> #[trigger] next.commands[i] == commands[i]
            &&& !(next.state.stage is Lock)
        }),
    decreases state.program(input).len() - index,
{
    let program = state.program(input);
    let next = pke_proceed(input, state, index, commands);
    if index < program.len() {
        match program[index as int] {
            PkeOp::Load { section, operand } => {
                lemma_keeps_front(
                    input,
                    state,
                    index + 1,
                    commands.push(
                        Command::PkeRam {
                            section,
                            operand: operand_bytes(
                                input,
                                state.saved,
                                operand,
                            ),
                        },
                    ),
                );
            },
            PkeOp::Montgomery { low, high } => {
                lemma_keeps_front(
                    input,
                    state,
                    index + 1,
                    commands.push(Command::PkeMontgomeryLow { word: low }).push(
                        Command::PkeMontgomeryHigh { word: high },
                    ),
                );
            },
            PkeOp::StopAtInfinity => {
                lemma_keeps_front(input, state, index + 1, commands);
            },
            _ => {},
        }
    }
    assert(next.commands.take(commands.len() as int) =~= commands);
}

} // verus!
