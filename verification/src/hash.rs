//! The FNV-1a hash of a byte sequence, and the `fnv` hasher that computes
//! it.

use vstd::prelude::*;
use vstd::utf8::{encode_utf8, encode_utf8_decode_utf8};
use fnv::FnvHasher;
use std::hash::Hasher;

verus! {

/// The state from which text is hashed.
pub const FNV_DEFAULT_KEY: u64 = 0xcbf2_9ce4_8422_2325;

/// What one byte makes of the hash state: the byte is xor-ed into the low
/// bits, and the result multiplied by the FNV prime, modulo 2^64.
pub open spec fn fnv1a_step(state: u64, byte: u8) -> u64 {
    (((state ^ (byte as u64)) * 0x100_0000_01b3) % 0x1_0000_0000_0000_0000) as u64
}

/// The FNV-1a hash state after `bytes`, starting from `state`.
pub open spec fn fnv1a(state: u64, bytes: Seq<u8>) -> u64 {
    bytes.fold_left(state, |so_far: u64, byte: u8| fnv1a_step(so_far, byte))
}

/// The signed 32-bit integer that has the low 32 bits of `hash`.
pub open spec fn low_bits_signed(hash: u64) -> int {
    let low = hash % 0x1_0000_0000;
    if low < 0x8000_0000 {
        low as int
    } else {
        low - 0x1_0000_0000
    }
}

/// The hash of a text with the UTF-8 encoding `bytes`.
pub open spec fn hash_of_bytes(bytes: Seq<u8>) -> int {
    low_bits_signed(fnv1a(FNV_DEFAULT_KEY, bytes))
}

/// The hash of `text`: that of its UTF-8 encoding.
pub open spec fn hash_of_text(text: Seq<char>) -> int {
    hash_of_bytes(encode_utf8(text))
}

/// The hash of a text is determined by its bytes: two texts with the same
/// encoding, which are then the same text, have the same hash.
pub proof fn lemma_hash_determined_by_bytes(a: Seq<char>, b: Seq<char>)
    requires
        encode_utf8(a) == encode_utf8(b),
    ensures
        hash_of_text(a) == hash_of_text(b),
        a == b,
{
    encode_utf8_decode_utf8(a);
    encode_utf8_decode_utf8(b);
}

/// `fnv::FnvHasher`, of which only the contracts below are known.
#[verifier::external_type_specification]
#[verifier::external_body]
pub struct ExFnvHasher(FnvHasher);

/// The state that a hasher holds.
pub uninterp spec fn hasher_state(hasher: FnvHasher) -> u64;

/// `FnvHasher::with_key` makes a hasher whose state is the key.
pub assume_specification[ FnvHasher::with_key ](key: u64) -> (hasher: FnvHasher)
    ensures
        hasher_state(hasher) == key,
;

/// `FnvHasher::write` feeds the bytes to the hasher one by one, each with
/// an FNV-1a step.
pub assume_specification[ FnvHasher::write ](hasher: &mut FnvHasher, bytes: &[u8])
    ensures
        hasher_state(*final(hasher)) == fnv1a(hasher_state(*old(hasher)), bytes@),
;

/// `FnvHasher::finish` returns the hasher's state.
pub assume_specification[ FnvHasher::finish ](hasher: &FnvHasher) -> (hash: u64)
    ensures
        hash == hasher_state(*hasher),
;

} // verus!
