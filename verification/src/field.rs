//! Prime fields and their elements.

use crate::bigint::BigInt;
use crate::bignat::{int_rank, BigNat, Rank};
use crate::modular::{is_inverse, mod_inverse};
use vstd::arithmetic::power2::{lemma2_to64, lemma_pow2_adds};
use vstd::prelude::*;

verus! {

/// A field: the integers modulo a number, which is meant to be prime.
#[derive(Debug)]
pub enum FieldT {
    /// The scalar field of the curve BLS12-381.
    FBls12381,
    /// The integers modulo the given number.
    IntField(BigNat),
}

/// What a [`FieldT`] stands for.
pub enum FieldTView {
    FBls12381,
    IntField(nat),
}

impl FieldTView {
    /// How many elements the field has.
    pub open spec fn modulus(self) -> nat {
        match self {
            FieldTView::FBls12381 => bls12381_modulus(),
            FieldTView::IntField(m) => m,
        }
    }
}

/// The order of the scalar field of BLS12-381.
pub open spec fn bls12381_modulus() -> nat {
    0x73eda753299d7d483339d80809a1d80553bda402fffe5bfeffffffff00000001nat
}

impl View for FieldT {
    type V = FieldTView;

    open spec fn view(&self) -> FieldTView {
        match self {
            FieldT::FBls12381 => FieldTView::FBls12381,
            FieldT::IntField(m) => FieldTView::IntField(m@),
        }
    }
}

impl Clone for FieldT {
    fn clone(&self) -> (r: Self)
        ensures
            r@ == self@,
    {
        match self {
            FieldT::FBls12381 => FieldT::FBls12381,
            FieldT::IntField(m) => FieldT::IntField(m.clone()),
        }
    }
}

/// An order on fields.
pub open spec fn field_rank(a: FieldTView, b: FieldTView) -> Rank {
    match (a, b) {
        (FieldTView::FBls12381, FieldTView::FBls12381) => Rank::Same,
        (FieldTView::FBls12381, FieldTView::IntField(_)) => Rank::Below,
        (FieldTView::IntField(_), FieldTView::FBls12381) => Rank::Above,
        (FieldTView::IntField(m), FieldTView::IntField(n)) => int_rank(m as int, n as int),
    }
}

/// An element of a field, held as its representative below the modulus.
#[derive(Debug)]
pub struct FieldV {
    ty: FieldT,
    i: BigNat,
}

/// What a [`FieldV`] stands for.
pub struct FieldVView {
    pub ty: FieldTView,
    pub i: nat,
}

impl FieldVView {
    /// The representative is the least one.
    pub open spec fn wf(self) -> bool {
        self.i < self.ty.modulus()
    }
}

impl View for FieldV {
    type V = FieldVView;

    closed spec fn view(&self) -> FieldVView {
        FieldVView { ty: self.ty@, i: self.i@ }
    }
}

impl Clone for FieldV {
    fn clone(&self) -> (r: Self)
        ensures
            r@ == self@,
    {
        proof {
            use_type_invariant(self);
        }
        FieldV { ty: self.ty.clone(), i: self.i.clone() }
    }
}

/// The element of the field `ty` that the integer `n` stands for.
pub open spec fn field_new(ty: FieldTView, n: int) -> FieldVView {
    FieldVView { ty, i: (n % (ty.modulus() as int)) as nat }
}

impl FieldT {
    /// How many elements the field has.
    pub fn modulus(&self) -> (r: BigNat)
        ensures
            r@ == self@.modulus(),
    {
        match self {
            FieldT::FBls12381 => {
                proof {
                    lemma2_to64();
                    lemma_pow2_adds(64, 64);
                    assert(0x73eda753299d7d483339d80809a1d805nat
                        * 0x1_0000_0000_0000_0000_0000_0000_0000_0000nat
                        + 0x53bda402fffe5bfeffffffff00000001nat == bls12381_modulus());
                }
                BigNat::from_u128(0x73eda753299d7d483339d80809a1d805).shift_left(128).plus(
                    &BigNat::from_u128(0x53bda402fffe5bfeffffffff00000001),
                )
            },
            FieldT::IntField(m) => m.clone(),
        }
    }

    /// How two fields compare.
    pub fn compare(&self, other: &FieldT) -> (r: Rank)
        ensures
            r == field_rank(self@, other@),
    {
        match (self, other) {
            (FieldT::FBls12381, FieldT::FBls12381) => Rank::Same,
            (FieldT::FBls12381, FieldT::IntField(_)) => Rank::Below,
            (FieldT::IntField(_), FieldT::FBls12381) => Rank::Above,
            (FieldT::IntField(m), FieldT::IntField(n)) => m.compare(n),
        }
    }

    /// Whether two fields are the same.
    pub fn same(&self, other: &FieldT) -> (r: bool)
        ensures
            r == (self@ == other@),
    {
        match self.compare(other) {
            Rank::Same => true,
            _ => false,
        }
    }

    /// The element that an integer stands for.
    pub fn new_v(&self, n: &BigInt) -> (r: FieldV)
        requires
            self@.modulus() > 0,
        ensures
            r@ == field_new(self@, n@),
    {
        let m: BigNat = self.modulus();
        FieldV { ty: self.clone(), i: n.residue(&m) }
    }
}

/// The sum of two elements of one field.
pub open spec fn field_plus(a: FieldVView, b: FieldVView) -> FieldVView {
    field_new(a.ty, (a.i + b.i) as int)
}

/// The product of two elements of one field.
pub open spec fn field_times(a: FieldVView, b: FieldVView) -> FieldVView {
    field_new(a.ty, (a.i * b.i) as int)
}

/// The opposite of an element.
pub open spec fn field_negate(a: FieldVView) -> FieldVView {
    field_new(a.ty, -(a.i as int))
}

/// The inverse of an element, where there is one.
pub open spec fn field_recip(a: FieldVView) -> Option<FieldVView> {
    match mod_inverse(a.i as int, a.ty.modulus() as int) {
        Some(w) => Some(FieldVView { ty: a.ty, i: w as nat }),
        None => None,
    }
}

impl FieldV {
    #[verifier::type_invariant]
    spec fn inv(self) -> bool {
        self.i@ < self.ty@.modulus()
    }

    /// The field of this element.
    pub fn ty(&self) -> (r: &FieldT)
        ensures
            r@ == self@.ty,
    {
        &self.ty
    }

    /// The least natural number that stands for this element.
    pub fn i(&self) -> (r: &BigNat)
        ensures
            r@ == self@.i,
            r@ < self@.ty.modulus(),
    {
        proof {
            use_type_invariant(self);
        }
        &self.i
    }

    /// Whether this is the zero of its field.
    pub fn is_zero(&self) -> (r: bool)
        ensures
            r == (self@.i == 0),
    {
        self.i.is_zero()
    }

    /// The opposite.
    pub fn negate(&self) -> (r: FieldV)
        ensures
            r@ == field_negate(self@),
    {
        proof {
            use_type_invariant(self);
        }
        self.ty.new_v(&BigInt::from_nat(self.i.clone()).negate())
    }

    /// The sum.
    pub fn plus(&self, other: &FieldV) -> (r: FieldV)
        ensures
            r@ == field_plus(self@, other@),
    {
        proof {
            use_type_invariant(self);
        }
        self.ty.new_v(&BigInt::from_nat(self.i.plus(&other.i)))
    }

    /// The product.
    pub fn times(&self, other: &FieldV) -> (r: FieldV)
        ensures
            r@ == field_times(self@, other@),
    {
        proof {
            use_type_invariant(self);
        }
        self.ty.new_v(&BigInt::from_nat(self.i.times(&other.i)))
    }

    /// The inverse, where there is one.
    pub fn recip(&self) -> (r: Option<FieldV>)
        ensures
            match r {
                Some(w) => field_recip(self@) == Some(w@),
                None => field_recip(self@) is None,
            },
    {
        let m: BigNat = self.ty.modulus();
        match BigInt::from_nat(self.i.clone()).invert(&m) {
            Some(w) => {
                proof {
                    let a = self.i@ as int;
                    let v = choose|v: int| is_inverse(a, m@ as int, v);
                    assert(is_inverse(a, m@ as int, v));
                }
                Some(FieldV { ty: self.ty.clone(), i: w })
            },
            None => None,
        }
    }

    /// How two elements compare: by their fields, then by their representatives.
    pub fn compare(&self, other: &FieldV) -> (r: Rank)
        ensures
            r == element_rank(self@, other@),
    {
        match self.ty.compare(&other.ty) {
            Rank::Same => self.i.compare(&other.i),
            r => r,
        }
    }
}

/// An order on field elements.
pub open spec fn element_rank(a: FieldVView, b: FieldVView) -> Rank {
    match field_rank(a.ty, b.ty) {
        Rank::Same => int_rank(a.i as int, b.i as int),
        r => r,
    }
}

} // verus!
