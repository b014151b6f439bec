//! Randomness from the operating system.

use crate::bytes::{read_u16_at, read_u32_at, u16_at, u32_at};
use vstd::prelude::*;

verus! {

/// `getrandom::Error`: why the operating system gave no random bytes.
#[verifier::external_type_specification]
#[verifier::external_body]
pub struct ExGetrandomError(getrandom::Error);

/// `getrandom::fill` overwrites the slice with random bytes or fails.  Nothing
/// is claimed of the bytes, only that the slice keeps its length.
pub assume_specification[ getrandom::fill ](dest: &mut [u8]) -> (result: Result<
    (),
    getrandom::Error,
>)
    ensures
        final(dest)@.len() == old(dest)@.len(),
;

/// The operating system gave no usable random bytes.
#[derive(Debug, PartialEq, Eq)]
pub struct RandomnessError {
    pub message: String,
}

/// What a draw comes to: the bytes that were filled in, unless the operating
/// system gave none.  The words of the error are those of `getrandom::Error`.
pub fn drawn<const N: usize>(filled: Result<(), getrandom::Error>, bytes: [u8; N]) -> (result:
    Result<[u8; N], RandomnessError>)
    ensures
        result is Ok <==> filled is Ok,
        result matches Ok(given) ==> given == bytes,
{
    match filled {
        Ok(()) => Ok(bytes),
        Err(error) => Err(RandomnessError { message: error.to_string() }),
    }
}

/// Thirty-two random bytes.
pub fn random_key() -> (result: Result<[u8; 32], RandomnessError>) {
    let mut bytes: [u8; 32] = [0u8; 32];
    let filled = getrandom::fill(&mut bytes);
    drawn(filled, bytes)
}

/// The number that eight bytes stand for, the most significant one first.
pub fn word_of(bytes: [u8; 8]) -> (word: u64)
    ensures
        word == u32_at(bytes@, 0) * 0x1_0000_0000 + u32_at(bytes@, 4),
{
    let high: u32 = read_u32_at(bytes.as_slice(), 0);
    let low: u32 = read_u32_at(bytes.as_slice(), 4);
    high as u64 * 0x1_0000_0000 + low as u64
}

/// A random 64-bit number: [`word_of`] the bytes of a draw.
pub fn random_u64() -> (result: Result<u64, RandomnessError>) {
    let mut bytes: [u8; 8] = [0u8; 8];
    let filled = getrandom::fill(&mut bytes);
    match drawn(filled, bytes) {
        Ok(bytes) => Ok(word_of(bytes)),
        Err(error) => Err(error),
    }
}

/// A number that was drawn, or another one where the draw failed.
pub fn drawn_or(word: Result<u64, RandomnessError>, otherwise: u64) -> (chosen: u64)
    ensures
        chosen == match word {
            Ok(word) => word,
            Err(_) => otherwise,
        },
{
    match word {
        Ok(word) => word,
        Err(_) => otherwise,
    }
}

/// The number that two bytes stand for, the most significant one first.
pub fn half_word_of(bytes: [u8; 2]) -> (word: u16)
    ensures
        word == u16_at(bytes@, 0),
{
    read_u16_at(bytes.as_slice(), 0)
}

/// A random 16-bit number: [`half_word_of`] the bytes of a draw.
pub fn random_u16() -> (result: Result<u16, RandomnessError>) {
    let mut bytes: [u8; 2] = [0u8; 2];
    let filled = getrandom::fill(&mut bytes);
    match drawn(filled, bytes) {
        Ok(bytes) => Ok(half_word_of(bytes)),
        Err(error) => Err(error),
    }
}

/// The nonce that four bytes stand for, the most significant one first; zero is
/// none.
pub fn nonce_of(bytes: [u8; 4]) -> (nonce: Option<u32>)
    ensures
        match nonce {
            Some(nonce) => nonce != 0 && nonce == u32_at(bytes@, 0),
            None => u32_at(bytes@, 0) == 0,
        },
{
    let nonce: u32 = read_u32_at(bytes.as_slice(), 0);
    if nonce != 0 {
        Some(nonce)
    } else {
        None
    }
}

/// A random number that is not zero: [`nonce_of`] the bytes of the first draw
/// that gives one.  It draws again for as long as there are only zeros, and gives
/// up when a 64-bit count of the draws runs out, which none lives to see.
pub fn random_nonce() -> (result: Result<u32, RandomnessError>)
    ensures
        result matches Ok(nonce) ==> nonce != 0,
{
    let mut draws: u64 = 0;
    while draws < u64::MAX
        decreases u64::MAX - draws,
    {
        let mut bytes: [u8; 4] = [0u8; 4];
        let filled = getrandom::fill(&mut bytes);
        match drawn(filled, bytes) {
            Ok(bytes) => {
                if let Some(nonce) = nonce_of(bytes) {
                    return Ok(nonce);
                }
            },
            Err(error) => {
                return Err(error);
            },
        }
        draws += 1;
    }
    let message: String = "the random number source gave only zeros".to_string();
    Err(RandomnessError { message })
}

/// A random nonce where one is wanted; else one, which then nothing reads.
pub fn nonce_if(wanted: bool) -> (result: Result<u32, RandomnessError>)
    ensures
        result matches Ok(nonce) ==> nonce != 0,
        !wanted ==> result == Ok::<u32, RandomnessError>(1),
{
    if wanted {
        random_nonce()
    } else {
        Ok(1)
    }
}

/// Why two draws did not both give a nonce, if they did not.
pub open spec fn failed_draw(
    discovery_nonce: Result<u32, RandomnessError>,
    request_nonce: Result<u32, RandomnessError>,
) -> Option<RandomnessError> {
    match (discovery_nonce, request_nonce) {
        (Err(error), _) => Some(error),
        (Ok(_), Err(error)) => Some(error),
        (Ok(_), Ok(_)) => None,
    }
}

/// The given nonce, or a random one in place of zero.
pub fn nonzero_or_random(nonce: u32) -> (result: Result<u32, RandomnessError>)
    ensures
        result matches Ok(chosen) ==> chosen != 0 && (nonce != 0 ==> chosen == nonce),
        nonce != 0 ==> result is Ok,
{
    if nonce != 0 {
        Ok(nonce)
    } else {
        random_nonce()
    }
}

} // verus!
