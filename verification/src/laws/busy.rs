//! What the busy flag of a capability guarantees.
use crate::crypto::{
    block_refusal, derive_refusal, hash_refusal, mac_refusal, Ws63Crypto, ERR_BUSY,
};
use crate::error::CryptoError;
use crate::pke::p256::{Ws63P256, ERR_BUSY as ERR_PKE_BUSY};
use crate::spacc_hash::HashAlgorithm;
use vstd::prelude::*;

verus! {

/// One operation at a time: an entry is granted exactly where no operation is in, and the
/// capability is busy after it either way. An operation that comes while another one is in
/// is refused as busy and leaves the flag of the other one set; the end of an operation
/// clears the flag, and the next entry is granted.
pub proof fn law_one_operation_at_a_time<'d>(
    before: Ws63Crypto<'d>,
    held: Ws63Crypto<'d>,
    refused: Ws63Crypto<'d>,
    ended: Ws63Crypto<'d>,
    next: Ws63Crypto<'d>,
    first: Result<(), CryptoError>,
    second: Result<(), CryptoError>,
    third: Result<(), CryptoError>,
)
    requires
        held.enters(before, first),
        refused.enters(held, second),
        ended.leaves(refused),
        next.enters(ended, third),
    ensures
        first is Ok <==> !before.is_busy(),
        first is Err ==> first == Err::<(), _>(CryptoError::Backend(ERR_BUSY)),
        held.is_busy(),
        second == Err::<(), _>(CryptoError::Backend(ERR_BUSY)),
        refused.is_busy(),
        refused.same_but_busy(held),
        !ended.is_busy(),
        third == Ok::<(), CryptoError>(()),
        next.is_busy(),
        next.same_but_busy(before),
{
}

/// The same for the capability of the public key engine.
pub proof fn law_one_p256_operation_at_a_time<'d>(
    before: Ws63P256<'d>,
    held: Ws63P256<'d>,
    refused: Ws63P256<'d>,
    ended: Ws63P256<'d>,
    next: Ws63P256<'d>,
    first: Result<(), CryptoError>,
    second: Result<(), CryptoError>,
    third: Result<(), CryptoError>,
)
    requires
        held.enters(before, first),
        refused.enters(held, second),
        ended.leaves(refused),
        next.enters(ended, third),
    ensures
        first is Ok <==> !before.is_busy(),
        first is Err ==> first == Err::<(), _>(CryptoError::Backend(ERR_PKE_BUSY)),
        held.is_busy(),
        second == Err::<(), _>(CryptoError::Backend(ERR_PKE_BUSY)),
        refused.is_busy(),
        !ended.is_busy(),
        third == Ok::<(), CryptoError>(()),
        next.is_busy(),
{
}

/// While an operation is in, every request is refused: a derivation, a hash, a MAC and a
/// block alike, the last three as busy whatever they ask for.
pub proof fn law_busy_refuses_requests(
    algorithm: HashAlgorithm,
    password: Seq<u8>,
    salt: Seq<u8>,
    iterations: u32,
    key: Seq<u8>,
    message: Seq<u8>,
    output_len: nat,
)
    ensures
        derive_refusal(true, password, salt, iterations) is Some,
        derive_refusal(false, password, salt, iterations) is None ==> derive_refusal(
            true,
            password,
            salt,
            iterations,
        ) == Some(CryptoError::Backend(ERR_BUSY)),
        hash_refusal(true, algorithm, message, output_len) == Some(CryptoError::Backend(ERR_BUSY)),
        mac_refusal(true, key, message) == Some(CryptoError::Backend(ERR_BUSY)),
        block_refusal(true, key) == Some(CryptoError::Backend(ERR_BUSY)),
{
}

/// What happens to the busy flag of a capability.
pub enum GateEvent {
    /// An operation asks to be let in, with a result.
    Enter { result: Result<(), CryptoError> },
    /// An operation ends.
    Leave,
}

/// Whether an event leads from one state of a capability to another.
pub open spec fn gate_step<'d>(
    before: Ws63Crypto<'d>,
    event: GateEvent,
    after: Ws63Crypto<'d>,
) -> bool {
    match event {
        GateEvent::Enter { result } => after.enters(before, result),
        GateEvent::Leave => after.leaves(before),
    }
}

/// Whether the states are those that a new capability goes through with the events.
pub open spec fn gate_history<'d>(
    states: Seq<Ws63Crypto<'d>>,
    events: Seq<GateEvent>,
) -> bool {
    &&& states.len() == events.len() + 1
    &&& !states[0].is_busy()
    &&& forall|i: int|
        0 <= i < events.len() ==> gate_step(states[i], #[trigger] events[i], states[i + 1])
}

/// In every history of a capability, an operation ends between two entries that are
/// granted: no two operations are ever in together.
pub proof fn law_granted_entries_are_apart<'d>(
    states: Seq<Ws63Crypto<'d>>,
    events: Seq<GateEvent>,
    i: int,
    j: int,
)
    requires
        gate_history(states, events),
        0 <= i < j < events.len(),
        events[i] == (GateEvent::Enter { result: Ok(()) }),
        events[j] == (GateEvent::Enter { result: Ok(()) }),
    ensures
        exists|k: int| i < k < j && events[k] is Leave,
{
    assert(gate_step(states[j], events[j], states[j + 1]));
    assert(gate_step(states[j - 1], events[j - 1], states[j]));
    assert(events[j - 1] is Leave);
}

} // verus!
