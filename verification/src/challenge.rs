//! Challenges: field elements drawn from names.
//!
//! How an element is drawn from the generator is a rule of this library: as many bytes as
//! [`draw_length`] says are taken as a number modulo the order of the field. The elements are
//! not those that `random_v` of the crate `circ_fields` draws from the same generator.

use crate::bignat::BigNat;
use crate::bytes::le_bytes;
use crate::calls::f_to_pf;
use crate::field::{FieldT, FieldV};
use crate::outside::{chacha, fx_digest, fx_hash};
use crate::semantics::{can_challenge, challenge_length, challenge_value};
use vstd::prelude::*;

verus! {

/// The seed of the generator for a hash: its 8 bytes, least significant byte first, and zeros.
pub fn challenge_seed(hash: u64) -> (r: Vec<u8>)
    ensures
        r@ == le_bytes(hash as nat, 32),
        r@.len() == 32,
{
    BigNat::from_u128(hash as u128).to_le_bytes(32)
}

/// How many bytes a challenge in the field is drawn from, where that is a machine number.
pub fn draw_length(field: &FieldT) -> (r: Option<usize>)
    ensures
        match r {
            Some(n) => n == challenge_length(field@.modulus()),
            None => challenge_length(field@.modulus()) > usize::MAX,
        },
{
    let bits: u128 = field.modulus().significant_bits();
    let bytes: u128 = bits / 8 + (if bits % 8 == 0 {
        0u128
    } else {
        1u128
    });
    if bytes > (usize::MAX - 16) as u128 {
        None
    } else {
        Some(bytes as usize + 16)
    }
}

/// Whether a challenge can be drawn from the field.
pub fn challenge_ready(field: &FieldT) -> (r: bool)
    ensures
        r == can_challenge(field@),
{
    !field.modulus().is_zero() && draw_length(field).is_some()
}

/// The challenge for a name with the given hash, drawn by the rule of this library.
pub fn challenge_from_hash(hash: u64, field: &FieldT) -> (r: FieldV)
    requires
        can_challenge(field@),
    ensures
        r@ == challenge_value(hash, field@),
{
    let n: usize = draw_length(field).unwrap();
    let bytes: Vec<u8> = chacha(&challenge_seed(hash), n);
    f_to_pf(field, &bytes)
}

/// The challenge for a name.
///
/// The name is hashed, the hash seeds a generator, and the challenge is drawn from that by the
/// rule of this library. The same name and the same field always give the same challenge.
pub fn eval_pf_challenge(name: &str, field: &FieldT) -> (r: FieldV)
    requires
        can_challenge(field@),
    ensures
        r@ == challenge_value(fx_digest(name@, usize::BITS as nat), field@),
{
    let hash: u64 = fx_hash(name);
    challenge_from_hash(hash, field)
}

} // verus!
