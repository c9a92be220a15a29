//! Bit-vectors.

use crate::bigint::BigInt;
use crate::bignat::{int_rank, BigNat, Rank};
use crate::bits::{bit, bitwise, lemma_bit_length_le, lemma_bitwise_bound, BitOp};
use crate::limbs::{lemma_div_mod_parts, lemma_pow2_monotone};
use vstd::arithmetic::div_mod::{
    lemma_fundamental_div_mod, lemma_fundamental_div_mod_converse, lemma_mod_bound, lemma_small_mod,
};
use vstd::arithmetic::mul::lemma_mul_is_commutative;
use vstd::arithmetic::power2::{lemma_pow2_adds, lemma_pow2_pos, lemma_pow2_unfold, pow2};
use vstd::prelude::*;

verus! {

/// A bit-vector: a number below `2^width`.
#[derive(Debug)]
pub struct BitVector {
    uint: BigNat,
    width: usize,
}

/// What a [`BitVector`] stands for.
pub struct BvView {
    pub uint: nat,
    pub width: nat,
}

impl View for BitVector {
    type V = BvView;

    closed spec fn view(&self) -> BvView {
        BvView { uint: self.uint@, width: self.width as nat }
    }
}

impl BvView {
    /// The number fits the width.
    pub open spec fn wf(self) -> bool {
        self.uint < pow2(self.width)
    }

    /// The sign, which is the top digit.
    pub open spec fn sign(self) -> bool {
        self.width > 0 && self.uint >= pow2((self.width - 1) as nat)
    }

    /// The number that the digits stand for in two's complement.
    pub open spec fn sint(self) -> int {
        if self.sign() {
            self.uint - pow2(self.width)
        } else {
            self.uint as int
        }
    }
}

/// The bit-vector of the given width that is congruent to `n`.
pub open spec fn bv_wrap(n: int, width: nat) -> BvView {
    BvView { uint: (n % (pow2(width) as int)) as nat, width }
}

/// The digits of `a`, followed by those of `b`.
pub open spec fn bv_concat(a: BvView, b: BvView) -> BvView {
    BvView { uint: a.uint * pow2(b.width) + b.uint, width: a.width + b.width }
}

/// The digits of `a` from `low` up to and including `high`.
pub open spec fn bv_extract(a: BvView, high: nat, low: nat) -> BvView {
    bv_wrap((a.uint / pow2(low)) as int, (high - low + 1) as nat)
}

/// Unsigned division; by zero it gives the greatest number.
pub open spec fn bv_udiv(a: BvView, b: BvView) -> BvView {
    BvView {
        uint: if b.uint == 0 {
            (pow2(a.width) - 1) as nat
        } else {
            a.uint / b.uint
        },
        width: a.width,
    }
}

/// Unsigned remainder; by zero it gives the number itself.
pub open spec fn bv_urem(a: BvView, b: BvView) -> BvView {
    BvView {
        uint: if b.uint == 0 {
            a.uint
        } else {
            a.uint % b.uint
        },
        width: a.width,
    }
}

/// Left shift.
pub open spec fn bv_shl(a: BvView, b: BvView) -> BvView {
    bv_wrap((a.uint * pow2(b.uint)) as int, a.width)
}

/// Right shift that fills up with zeros.
pub open spec fn bv_lshr(a: BvView, b: BvView) -> BvView {
    BvView { uint: a.uint / pow2(b.uint), width: a.width }
}

/// Right shift that fills up with the sign.
pub open spec fn bv_ashr(a: BvView, b: BvView) -> BvView {
    bv_wrap(a.sint() / (pow2(b.uint) as int), a.width)
}

/// More digits at the top, each equal to the sign. The width and the number of new digits count
/// by their low 32 bits; what is left of the new digits is zero.
pub open spec fn bv_sext(a: BvView, extra: nat) -> BvView {
    let w = a.width % 0x1_0000_0000;
    let n = extra % 0x1_0000_0000;
    BvView {
        uint: if bit(a.uint, (w - 1) as nat) {
            bitwise(BitOp::Or, a.uint, ((pow2(n) - 1) * pow2(w)) as nat)
        } else {
            a.uint
        },
        width: a.width + extra,
    }
}

/// What sign extension gives fits its width.
pub proof fn lemma_sext_fits(a: BvView, extra: nat)
    requires
        a.wf(),
    ensures
        bv_sext(a, extra).wf(),
{
    let w = a.width % 0x1_0000_0000;
    let n = extra % 0x1_0000_0000;
    lemma_pow2_monotone(a.width, a.width + extra);
    lemma_pow2_pos(n);
    lemma_pow2_pos(w);
    lemma_pow2_adds(n, w);
    lemma_pow2_monotone(n + w, a.width + extra);
    let (p, q) = (pow2(n) as int, pow2(w) as int);
    assert(0 <= (p - 1) * q < p * q) by (nonlinear_arith)
        requires
            p >= 1,
            q >= 1,
    ;
    lemma_bitwise_bound(
        BitOp::Or,
        a.uint,
        ((pow2(n) - 1) * pow2(w)) as nat,
        a.width + extra,
    );
}

impl Clone for BitVector {
    fn clone(&self) -> (r: Self)
        ensures
            r@ == self@,
    {
        proof {
            use_type_invariant(self);
        }
        BitVector { uint: self.uint.clone(), width: self.width }
    }
}

impl BitVector {
    #[verifier::type_invariant]
    spec fn inv(self) -> bool {
        self.uint@ < pow2(self.width as nat)
    }

    /// A bit-vector, if the number fits the width.
    pub fn new(uint: BigNat, width: usize) -> (r: Option<BitVector>)
        ensures
            match r {
                Some(v) => uint@ < pow2(width as nat) && v@ == (BvView {
                    uint: uint@,
                    width: width as nat,
                }),
                None => uint@ >= pow2(width as nat),
            },
    {
        proof {
            lemma_bit_length_le(uint@, width as nat);
        }
        if uint.significant_bits() <= width as u128 {
            Some(BitVector { uint, width })
        } else {
            None
        }
    }

    /// The low digits of a number.
    pub fn wrap(uint: &BigNat, width: usize) -> (r: BitVector)
        ensures
            r@ == bv_wrap(uint@ as int, width as nat),
    {
        proof {
            lemma_pow2_pos(width as nat);
        }
        BitVector { uint: uint.low_bits(width), width }
    }

    /// How many digits there are.
    pub fn width(&self) -> (r: usize)
        ensures
            r == self@.width,
    {
        self.width
    }

    /// The digits as a number.
    pub fn uint(&self) -> (r: &BigNat)
        ensures
            r@ == self@.uint,
            r@ < pow2(self@.width),
    {
        proof {
            use_type_invariant(self);
        }
        &self.uint
    }

    /// The top digit.
    pub fn sign(&self) -> (r: bool)
        ensures
            r == self@.sign(),
    {
        if self.width == 0 {
            return false;
        }
        proof {
            use_type_invariant(self);
            let k = (self.width - 1) as nat;
            lemma_pow2_pos(k);
            lemma_pow2_unfold(self.width as nat);
            lemma_top_digit(self.uint@, k);
        }
        self.uint.get_bit((self.width - 1) as u128)
    }

    /// The digits as a number in two's complement.
    pub fn as_sint(&self) -> (r: BigInt)
        ensures
            r@ == self@.sint(),
    {
        let u: BigInt = BigInt::from_nat(self.uint.clone());
        if self.sign() {
            u.minus(&BigInt::from_nat(power_of_two(self.width)))
        } else {
            u
        }
    }

    /// The digits of `self`, followed by those of `other`.
    pub fn concat(&self, other: &BitVector) -> (r: BitVector)
        requires
            self@.width + other@.width <= usize::MAX,
        ensures
            r@ == bv_concat(self@, other@),
    {
        proof {
            use_type_invariant(self);
            use_type_invariant(other);
            lemma_pow2_adds(self.width as nat, other.width as nat);
            let (a, p, q) = (
                self.uint@ as int,
                pow2(self.width as nat) as int,
                pow2(other.width as nat) as int,
            );
            assert(a * q + q <= p * q) by (nonlinear_arith)
                requires
                    a + 1 <= p,
                    q >= 0,
            ;
        }
        BitVector {
            uint: self.uint.shift_left(other.width).plus(&other.uint),
            width: self.width + other.width,
        }
    }

    /// The digits from `low` up to and including `high`.
    pub fn extract(&self, high: usize, low: usize) -> (r: BitVector)
        requires
            low <= high < self@.width,
        ensures
            r@ == bv_extract(self@, high as nat, low as nat),
    {
        BitVector::wrap(&self.uint.shift_right(low), high - low + 1)
    }

    /// The sum, wrapped around.
    pub fn plus(&self, other: &BitVector) -> (r: BitVector)
        ensures
            r@ == bv_wrap((self@.uint + other@.uint) as int, self@.width),
    {
        BitVector::wrap(&self.uint.plus(&other.uint), self.width)
    }

    /// The product, wrapped around.
    pub fn times(&self, other: &BitVector) -> (r: BitVector)
        ensures
            r@ == bv_wrap((self@.uint * other@.uint) as int, self@.width),
    {
        BitVector::wrap(&self.uint.times(&other.uint), self.width)
    }

    /// The difference, wrapped around.
    pub fn minus(&self, other: &BitVector) -> (r: BitVector)
        ensures
            r@ == bv_wrap(self@.uint - other@.uint, self@.width),
    {
        let d: BigInt = BigInt::from_nat(self.uint.clone()).minus(
            &BigInt::from_nat(other.uint.clone()),
        );
        proof {
            lemma_pow2_pos(self.width as nat);
        }
        BitVector { uint: d.residue(&power_of_two(self.width)), width: self.width }
    }

    /// The opposite, wrapped around.
    pub fn negate(&self) -> (r: BitVector)
        ensures
            r@ == bv_wrap(-(self@.uint as int), self@.width),
    {
        let d: BigInt = BigInt::from_nat(self.uint.clone()).negate();
        proof {
            lemma_pow2_pos(self.width as nat);
        }
        BitVector { uint: d.residue(&power_of_two(self.width)), width: self.width }
    }

    /// Every digit turned over.
    pub fn complement(&self) -> (r: BitVector)
        ensures
            r@ == (BvView {
                uint: (pow2(self@.width) - 1 - self@.uint) as nat,
                width: self@.width,
            }),
    {
        proof {
            use_type_invariant(self);
            lemma_pow2_pos(self.width as nat);
        }
        BitVector { uint: all_ones(self.width).minus(&self.uint), width: self.width }
    }

    /// A digit-wise operation on two bit-vectors of one width.
    pub fn bitwise(&self, op: BitOp, other: &BitVector) -> (r: BitVector)
        requires
            self@.width == other@.width,
        ensures
            r@ == (BvView {
                uint: bitwise(op, self@.uint, other@.uint),
                width: self@.width,
            }),
    {
        proof {
            use_type_invariant(self);
            use_type_invariant(other);
            lemma_bitwise_bound(op, self.uint@, other.uint@, self.width as nat);
        }
        BitVector { uint: self.uint.bitwise(op, &other.uint), width: self.width }
    }

    /// Unsigned division.
    pub fn udiv(&self, other: &BitVector) -> (r: BitVector)
        ensures
            r@ == bv_udiv(self@, other@),
    {
        proof {
            use_type_invariant(self);
            lemma_pow2_pos(self.width as nat);
        }
        if other.uint.is_zero() {
            BitVector { uint: all_ones(self.width), width: self.width }
        } else {
            proof {
                lemma_quotient_small(self.uint@, other.uint@);
            }
            BitVector { uint: self.uint.div_rem(&other.uint).0, width: self.width }
        }
    }

    /// Unsigned remainder.
    pub fn urem(&self, other: &BitVector) -> (r: BitVector)
        ensures
            r@ == bv_urem(self@, other@),
    {
        proof {
            use_type_invariant(self);
        }
        if other.uint.is_zero() {
            self.clone()
        } else {
            proof {
                lemma_quotient_small(self.uint@, other.uint@);
            }
            BitVector { uint: self.uint.div_rem(&other.uint).1, width: self.width }
        }
    }

    /// Left shift.
    pub fn shl(&self, other: &BitVector) -> (r: BitVector)
        ensures
            r@ == bv_shl(self@, other@),
    {
        proof {
            lemma_pow2_pos(self.width as nat);
        }
        match other.uint.to_usize() {
            Some(n) if n < self.width => BitVector::wrap(&self.uint.shift_left(n), self.width),
            _ => {
                proof {
                    lemma_shifted_out(self.uint@, other.uint@, self.width as nat);
                }
                BitVector { uint: BigNat::zero(), width: self.width }
            },
        }
    }

    /// Right shift that fills up with zeros.
    pub fn lshr(&self, other: &BitVector) -> (r: BitVector)
        ensures
            r@ == bv_lshr(self@, other@),
    {
        proof {
            use_type_invariant(self);
            lemma_pow2_pos(other.uint@);
        }
        match other.uint.to_usize() {
            Some(n) if n < self.width => {
                proof {
                    lemma_quotient_small(self.uint@, pow2(n as nat));
                }
                BitVector { uint: self.uint.shift_right(n), width: self.width }
            },
            _ => {
                proof {
                    lemma_pow2_monotone(self.width as nat, other.uint@);
                    lemma_pow2_pos(self.width as nat);
                    lemma_fundamental_div_mod_converse(
                        self.uint@ as int,
                        pow2(other.uint@) as int,
                        0,
                        self.uint@ as int,
                    );
                }
                BitVector { uint: BigNat::zero(), width: self.width }
            },
        }
    }

    /// Right shift that fills up with the sign.
    pub fn ashr(&self, other: &BitVector) -> (r: BitVector)
        ensures
            r@ == bv_ashr(self@, other@),
    {
        proof {
            use_type_invariant(self);
            lemma_pow2_pos(self.width as nat);
            lemma_pow2_pos(other.uint@);
        }
        if self.sign() {
            let flipped: BitVector = self.complement().lshr(other);
            proof {
                lemma_floor_of_negative(self.uint@ as int, pow2(self.width as nat) as int, pow2(
                    other.uint@,
                ) as int);
                use_type_invariant(&flipped);
                let p = pow2(self.width as nat) as int;
                let q = flipped.uint@ as int;
                lemma_fundamental_div_mod_converse(-1 - q, p, -1, p - 1 - q);
            }
            flipped.complement()
        } else {
            let r: BitVector = self.lshr(other);
            proof {
                use_type_invariant(&r);
                lemma_small_mod(r.uint@, pow2(self.width as nat));
            }
            r
        }
    }

    /// More digits at the top, each equal to the sign. The width and the number of new digits
    /// count by their low 32 bits; what is left of the new digits is zero.
    pub fn sext(&self, extra: usize) -> (r: BitVector)
        requires
            self@.width % 0x1_0000_0000 > 0,
            self@.width + extra <= usize::MAX,
        ensures
            r@ == bv_sext(self@, extra as nat),
    {
        proof {
            use_type_invariant(self);
            lemma_sext_fits(self@, extra as nat);
        }
        let w: usize = (self.width as u64 % 0x1_0000_0000) as usize;
        let n: usize = (extra as u64 % 0x1_0000_0000) as usize;
        if self.uint.get_bit((w - 1) as u128) {
            let ones: BigNat = all_ones(n).shift_left(w);
            BitVector { uint: self.uint.bitwise(BitOp::Or, &ones), width: self.width + extra }
        } else {
            BitVector { uint: self.uint.clone(), width: self.width + extra }
        }
    }

    /// More digits at the top, all zero.
    pub fn uext(&self, extra: usize) -> (r: BitVector)
        requires
            self@.width + extra <= usize::MAX,
        ensures
            r@ == (BvView { uint: self@.uint, width: self@.width + extra as nat }),
    {
        proof {
            use_type_invariant(self);
            lemma_pow2_monotone(self.width as nat, (self.width + extra) as nat);
        }
        BitVector { uint: self.uint.clone(), width: self.width + extra }
    }

    /// How two bit-vectors compare: by their widths, then by their numbers.
    pub fn compare(&self, other: &BitVector) -> (r: Rank)
        ensures
            r == bv_rank(self@, other@),
    {
        if self.width < other.width {
            Rank::Below
        } else if self.width > other.width {
            Rank::Above
        } else {
            self.uint.compare(&other.uint)
        }
    }
}

/// An order on bit-vectors.
pub open spec fn bv_rank(a: BvView, b: BvView) -> Rank {
    match int_rank(a.width as int, b.width as int) {
        Rank::Same => int_rank(a.uint as int, b.uint as int),
        r => r,
    }
}

/// `2^n`.
pub fn power_of_two(n: usize) -> (r: BigNat)
    ensures
        r@ == pow2(n as nat),
{
    assert(1 * pow2(n as nat) == pow2(n as nat));
    BigNat::from_u128(1).shift_left(n)
}

/// The greatest number of `n` digits.
fn all_ones(n: usize) -> (r: BigNat)
    ensures
        r@ == pow2(n as nat) - 1,
{
    proof {
        lemma_pow2_pos(n as nat);
    }
    power_of_two(n).minus(&BigNat::from_u128(1))
}

/// The digit with weight `2^k` of a number below `2^(k + 1)`.
pub proof fn lemma_top_digit(n: nat, k: nat)
    requires
        n < 2 * pow2(k),
    ensures
        bit(n, k) == (n >= pow2(k)),
{
    lemma_pow2_pos(k);
    let p = pow2(k) as int;
    if n >= p {
        lemma_fundamental_div_mod_converse(n as int, p, 1, n - p);
    } else {
        lemma_fundamental_div_mod_converse(n as int, p, 0, n as int);
    }
}

/// Neither the quotient nor the remainder exceeds the dividend.
proof fn lemma_quotient_small(a: nat, b: nat)
    requires
        b > 0,
    ensures
        a / b <= a,
        a % b <= a,
{
    lemma_div_mod_parts(a, b);
    let (q, d) = ((a / b) as int, b as int);
    assert(q * d >= q) by (nonlinear_arith)
        requires
            q >= 0,
            d >= 1,
    ;
}

/// A shift by the width or more leaves no digit.
proof fn lemma_shifted_out(a: nat, n: nat, w: nat)
    requires
        n >= w,
    ensures
        (a * pow2(n)) as int % (pow2(w) as int) == 0,
{
    lemma_pow2_pos(w);
    lemma_pow2_adds(w, (n - w) as nat);
    let (p, q) = (pow2(w) as int, pow2((n - w) as nat) as int);
    assert(a * (p * q) == (a * q) * p) by (nonlinear_arith);
    vstd::arithmetic::div_mod::lemma_mod_multiples_basic(a * q, p);
}

/// Dividing a negative number by way of its complement.
pub proof fn lemma_floor_of_negative(u: int, p: int, d: int)
    requires
        0 <= u < p,
        d > 0,
    ensures
        (u - p) / d == -1 - (p - 1 - u) / d,
{
    let c = p - 1 - u;
    lemma_fundamental_div_mod(c, d);
    lemma_mod_bound(c, d);
    let (q, m) = (c / d, c % d);
    assert(u - p == d * (-1 - q) + (d - 1 - m)) by (nonlinear_arith)
        requires
            p - 1 - u == d * q + m,
    ;
    lemma_mul_is_commutative(d, -1 - q);
    lemma_fundamental_div_mod_converse(u - p, d, -1 - q, d - 1 - m);
}

} // verus!
