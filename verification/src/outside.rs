//! The hash functions and the generator that the interpreter takes from other crates.
//!
//! Nothing in this file is proved: each function states what is relied on.

use crate::bytes::le_value;
use crate::field::bls12381_modulus;
use fxhash::FxHasher;
use midnight_circuits::hash::poseidon::PoseidonChip;
use midnight_circuits::instructions::hash::HashCPU;
use midnight_curves::Fq;
use rand::{RngCore, SeedableRng};
use rand_chacha::ChaChaRng;
use sha2::{Digest, Sha256};
use std::hash::{Hash, Hasher};
use vstd::prelude::*;

verus! {

/// The SHA-256 digest of a byte string.
pub uninterp spec fn sha256_digest(data: Seq<u8>) -> Seq<u8>;

/// The Poseidon hash over the scalar field of BLS12-381. Its inputs and its result are field
/// elements, each as the 32 bytes of its least representative, least significant byte first.
pub uninterp spec fn poseidon_digest(inputs: Seq<Seq<u8>>) -> Seq<u8>;

/// The first `n` bytes that the ChaCha generator with 20 rounds gives from a seed of 32 bytes.
pub uninterp spec fn chacha_stream(seed: Seq<u8>, n: nat) -> Seq<u8>;

/// The hash that `fxhash::FxHasher` gives a string, on a machine with words of the given size.
///
/// It also depends on the byte order, which is the same wherever this library is built: the
/// crate `midnight_curves` builds for little-endian machines only.
pub uninterp spec fn fx_digest(name: Seq<char>, word_bits: nat) -> u64;

/// The views of several byte strings.
pub open spec fn byte_views(s: Seq<Vec<u8>>) -> Seq<Seq<u8>> {
    Seq::new(s.len(), |i: int| s[i]@)
}

/// Whether a byte string is a field element of the scalar field of BLS12-381 in the form that
/// [`poseidon_digest`] takes.
pub open spec fn canonical(b: Seq<u8>) -> bool {
    b.len() == 32 && le_value(b) < bls12381_modulus()
}

/// Calls `sha2::Sha256` on the whole string.
///
/// The result is a function of the string, named [`sha256_digest`], and has 32 bytes. The bound
/// is the longest message that SHA-256 takes: its length in bits is a 64-bit number.
#[verifier::external_body]
pub(crate) fn sha256(data: &Vec<u8>) -> (r: Vec<u8>)
    requires
        data@.len() < 0x2000_0000_0000_0000,
    ensures
        r@ == sha256_digest(data@),
        r@.len() == 32,
{
    let mut hasher = Sha256::new();
    hasher.update(data);
    let out: [u8; 32] = hasher.finalize().into();
    out.to_vec()
}

/// Calls `midnight_circuits::hash::poseidon::PoseidonChip::hash` on elements of
/// `midnight_curves::Fq`.
///
/// The elements go in and out as bytes: `Fq::from_bytes_le` takes exactly the least
/// representatives, and `Fq::to_bytes_le` gives one, both in the byte order that their
/// documentation names. The result is a function of the elements, named [`poseidon_digest`].
#[verifier::external_body]
pub(crate) fn poseidon(inputs: &Vec<Vec<u8>>) -> (r: Vec<u8>)
    requires
        forall|i: int| 0 <= i < inputs@.len() ==> canonical((#[trigger] inputs@[i])@),
    ensures
        r@ == poseidon_digest(byte_views(inputs@)),
        canonical(r@),
{
    let mut elements: Vec<Fq> = Vec::new();
    for b in inputs.iter() {
        let bytes: [u8; 32] = b.as_slice().try_into().unwrap();
        elements.push(Fq::from_bytes_le(&bytes).unwrap());
    }
    let out: Fq = PoseidonChip::<Fq>::hash(&elements);
    out.to_bytes_le().to_vec()
}

/// Calls `rand_chacha::ChaChaRng::from_seed`, and `fill_bytes` on the generator once.
///
/// The bytes are a function of the seed and of how many are asked for, named
/// [`chacha_stream`].
#[verifier::external_body]
pub(crate) fn chacha(seed: &Vec<u8>, n: usize) -> (r: Vec<u8>)
    requires
        seed@.len() == 32,
    ensures
        r@ == chacha_stream(seed@, n as nat),
        r@.len() == n,
{
    let bytes: [u8; 32] = seed.as_slice().try_into().unwrap();
    let mut rng = ChaChaRng::from_seed(bytes);
    let mut out: Vec<u8> = vec![0u8; n];
    rng.fill_bytes(&mut out);
    out
}

/// Feeds a string to `fxhash::FxHasher` and calls `finish`.
///
/// The hash is a function of the string and the word size of the machine, named [`fx_digest`].
#[verifier::external_body]
pub(crate) fn fx_hash(name: &str) -> (r: u64)
    ensures
        r == fx_digest(name@, usize::BITS as nat),
{
    let mut hasher = FxHasher::default();
    name.hash(&mut hasher);
    hasher.finish()
}

} // verus!
