//! The limits on message bodies.
//!
//! The codec that turns values into bytes and back stands outside; here is
//! decided which bodies are sent and decoded, and how its faults are reported.

use vstd::prelude::*;

use crate::error::TransportError;
use crate::wire::MAX_MESSAGE_BYTES;

verus! {

/// What the codec's result for a value amounts to: the body to send.
pub open spec fn encode_spec(serialized: Result<Vec<u8>, String>) -> Result<
    Vec<u8>,
    TransportError,
> {
    match serialized {
        Err(e) => Err(TransportError::Encode(e)),
        Ok(body) => if body@.len() > MAX_MESSAGE_BYTES {
            Err(TransportError::MessageTooLarge)
        } else {
            Ok(body)
        },
    }
}

/// Judges what the codec made of a value.
pub fn encode(serialized: Result<Vec<u8>, String>) -> (result: Result<Vec<u8>, TransportError>)
    ensures
        result == encode_spec(serialized),
{
    match serialized {
        Err(e) => Err(TransportError::Encode(e)),
        Ok(body) => if body.len() > MAX_MESSAGE_BYTES {
            Err(TransportError::MessageTooLarge)
        } else {
            Ok(body)
        },
    }
}

/// Decides whether a body of `len` bytes is handed to the codec.
pub fn check_body(len: usize) -> (result: Result<(), TransportError>)
    ensures
        result == if len > MAX_MESSAGE_BYTES {
            Err::<(), TransportError>(TransportError::MessageTooLarge)
        } else {
            Ok(())
        },
{
    if len > MAX_MESSAGE_BYTES {
        Err(TransportError::MessageTooLarge)
    } else {
        Ok(())
    }
}

/// What the codec's result for a body amounts to: the value in it.
pub open spec fn decode_spec<T>(decoded: Result<T, String>) -> Result<T, TransportError> {
    match decoded {
        Err(e) => Err(TransportError::InvalidFrame(e)),
        Ok(value) => Ok(value),
    }
}

/// Judges what the codec made of a body.
pub fn decode<T>(decoded: Result<T, String>) -> (result: Result<T, TransportError>)
    ensures
        result == decode_spec(decoded),
{
    match decoded {
        Err(e) => Err(TransportError::InvalidFrame(e)),
        Ok(value) => Ok(value),
    }
}

/// The codec's results pass as they are, but for a body over the limit: a body
/// is sent exactly if the codec made it and it is within the limit, a value
/// comes out exactly if the codec found it, and a fault of the codec is told
/// with its text.
pub proof fn law_codec_results_pass_unchanged<T>(
    serialized: Result<Vec<u8>, String>,
    decoded: Result<T, String>,
)
    ensures
        match encode_spec(serialized) {
            Ok(body) => serialized == Ok::<Vec<u8>, String>(body) && body@.len()
                <= MAX_MESSAGE_BYTES,
            Err(TransportError::Encode(e)) => serialized == Err::<Vec<u8>, String>(e),
            Err(TransportError::MessageTooLarge) => serialized matches Ok(body) && body@.len()
                > MAX_MESSAGE_BYTES,
            Err(_) => false,
        },
        match decode_spec(decoded) {
            Ok(value) => decoded == Ok::<T, String>(value),
            Err(TransportError::InvalidFrame(e)) => decoded == Err::<T, String>(e),
            Err(_) => false,
        },
{
}

} // verus!
