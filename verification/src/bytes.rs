//! The numbers that byte strings stand for.

use crate::limbs::lemma_pow2_32;
use vstd::arithmetic::power2::{lemma2_to64, lemma_pow2_adds, pow2};
use vstd::prelude::*;

verus! {

/// The value of a byte string, least significant byte first.
pub open spec fn le_value(s: Seq<u8>) -> nat
    decreases s.len(),
{
    if s.len() == 0 {
        0
    } else {
        s[0] as nat + 256 * le_value(s.drop_first())
    }
}

/// The value of a byte string, most significant byte first.
pub open spec fn be_value(s: Seq<u8>) -> nat
    decreases s.len(),
{
    if s.len() == 0 {
        0
    } else {
        256 * be_value(s.drop_last()) + s.last() as nat
    }
}

/// The lowest `len` bytes of a number, least significant byte first.
pub open spec fn le_bytes(n: nat, len: nat) -> Seq<u8>
    decreases len,
{
    if len == 0 {
        Seq::empty()
    } else {
        seq![(n % 256) as u8] + le_bytes(n / 256, (len - 1) as nat)
    }
}

/// The bytes of a number stand for it, where there are enough of them.
pub proof fn lemma_le_bytes(n: nat, len: nat)
    ensures
        le_bytes(n, len).len() == len,
        n < pow2(8 * len) ==> le_value(le_bytes(n, len)) == n,
    decreases len,
{
    lemma_pow2_32();
    lemma_pow2_8();
    if len > 0 {
        let rest = le_bytes(n / 256, (len - 1) as nat);
        lemma_le_bytes(n / 256, (len - 1) as nat);
        lemma_pow2_adds(8, 8 * (len - 1) as nat);
        assert(8 * len == 8 + 8 * (len - 1) as nat);
        assert(le_bytes(n, len).drop_first() =~= rest);
    }
}

/// A byte string is the bytes of the number that it stands for.
pub proof fn lemma_le_bytes_of_value(s: Seq<u8>)
    ensures
        le_bytes(le_value(s), s.len()) == s,
    decreases s.len(),
{
    if s.len() == 0 {
        assert(s =~= Seq::empty());
    } else {
        let rest = s.drop_first();
        lemma_le_bytes_of_value(rest);
        assert(s =~= seq![s[0]] + rest);
    }
}

/// `pow2(8)` as a literal.
pub proof fn lemma_pow2_8()
    ensures
        pow2(8) == 256,
{
    lemma2_to64();
}

/// Taking one byte off the front of a suffix.
pub proof fn lemma_le_skip(s: Seq<u8>, i: int)
    requires
        0 <= i < s.len(),
    ensures
        le_value(s.skip(i)) == s[i] + 256 * le_value(s.skip(i + 1)),
{
    assert(s.skip(i).drop_first() =~= s.skip(i + 1));
    assert(s.skip(i)[0] == s[i]);
}

} // verus!
