//! Operators: what the terms of the IR apply to their arguments.

use crate::field::{FieldT, FieldTView};
use crate::outside::{fx_digest, fx_hash};
use crate::sort::Sort;
use crate::value::Value;
use vstd::prelude::*;

verus! {

/// An operator.
#[derive(Debug)]
pub enum Op {
    /// A variable.
    Var(Box<Var>),
    /// A constant.
    Const(Box<Value>),
    /// Whether two values are equal.
    Eq,
    /// If-then-else.
    Ite,
    Not,
    Implies,
    BoolNaryOp(BoolNaryOp),
    /// Whether at least two of three booleans hold.
    BoolMaj,
    /// One bit of a bit-vector.
    BvBit(usize),
    BvConcat,
    /// The bits from the second index up to the first one.
    BvExtract(usize, usize),
    BvBinOp(BvBinOp),
    BvUnOp(BvUnOp),
    BvNaryOp(BvNaryOp),
    BvBinPred(BvBinPred),
    /// Widens by copies of the sign bit.
    BvSext(usize),
    /// Widens by zeros.
    BvUext(usize),
    BoolToBv,
    PfUnOp(PfUnOp),
    PfDiv,
    PfNaryOp(PfNaryOp),
    /// A field element as a bit-vector of the given width.
    PfToBv(usize),
    PfToInt,
    /// A field element that is zero or one, as a boolean.
    PfToBoolTrusted,
    /// Whether a field element fits in so many bits as a signed number.
    PfFitsInBits(usize),
    PfChallenge(Box<ChallengeOp>),
    UbvToPf(FieldT),
    IntNaryOp(IntNaryOp),
    IntBinOp(IntBinOp),
    IntBinPred(IntBinPred),
    IntUnOp(IntUnOp),
    /// How many bits the magnitude of an integer has.
    IntSize,
    IntToBv(usize),
    IntToPf(FieldT),
    /// A value that the prover chooses.
    Witness(String),
    Tuple,
    /// One field of a tuple.
    Field(usize),
    /// A tuple with another value for one field.
    Update(usize),
    /// An array from its elements.
    Array(Box<ArrayOp>),
    Select,
    Store,
    /// A store that happens where a boolean holds.
    CStore,
    /// An array with the same value everywhere.
    Fill(Box<FillOp>),
    /// An operator applied to arrays element by element.
    ArrayMap(Box<Op>),
    /// An array with its elements moved up, the last ones to the front.
    Rot(usize),
    /// A call of a function that the interpreter knows by its name.
    UndefinedFnCall(Box<CallOp>),
}

/// A variable: its name and its sort.
#[derive(Debug)]
pub struct Var {
    pub name: String,
    pub sort: Sort,
}

/// A challenge: its name, the field that it is drawn from, and the hash of its name.
#[derive(Debug)]
pub struct ChallengeOp {
    name: String,
    field: FieldT,
    hash: u64,
}

/// What a [`ChallengeOp`] stands for.
pub struct ChallengeView {
    pub name: Seq<char>,
    pub field: FieldTView,
    pub hash: u64,
}

impl View for ChallengeOp {
    type V = ChallengeView;

    closed spec fn view(&self) -> ChallengeView {
        ChallengeView { name: self.name@, field: self.field@, hash: self.hash }
    }
}

impl ChallengeView {
    /// Whether the hash is that of the name.
    pub open spec fn wf(self) -> bool {
        self.hash == fx_digest(self.name, usize::BITS as nat)
    }
}

impl ChallengeOp {
    #[verifier::type_invariant]
    spec fn inv(self) -> bool {
        self@.wf()
    }

    /// The challenge of the given name. The name is hashed here, once.
    pub fn new(name: String, field: FieldT) -> (r: ChallengeOp)
        ensures
            r@.name == name@,
            r@.field == field@,
            r@.hash == fx_digest(name@, usize::BITS as nat),
    {
        let hash: u64 = fx_hash(name.as_str());
        ChallengeOp { name, field, hash }
    }

    /// The name.
    pub fn name(&self) -> (r: &str)
        ensures
            r@ == self@.name,
    {
        self.name.as_str()
    }

    /// The field that the challenge is drawn from.
    pub fn field(&self) -> (r: &FieldT)
        ensures
            r@ == self@.field,
    {
        &self.field
    }

    /// The hash of the name.
    pub fn hash(&self) -> (r: u64)
        ensures
            r == self@.hash,
            self@.wf(),
    {
        proof {
            use_type_invariant(self);
        }
        self.hash
    }
}

/// What an array is made of: the sorts of its keys and values.
#[derive(Debug)]
pub struct ArrayOp {
    pub key: Sort,
    pub val: Sort,
}

/// What an array is filled over: the sort of its keys and its size.
#[derive(Debug)]
pub struct FillOp {
    pub key_sort: Sort,
    pub size: usize,
}

/// A call: the name of the function, the sorts of its arguments, and that of its result.
#[derive(Debug)]
pub struct CallOp {
    pub name: String,
    pub arg_sorts: Vec<Sort>,
    pub ret_sort: Sort,
}

/// Boolean operators on any number of arguments.
#[derive(Clone, Copy, Debug, PartialEq, Eq, Structural)]
pub enum BoolNaryOp {
    And,
    Or,
    Xor,
}

/// Bit-vector operators on two arguments.
#[derive(Clone, Copy, Debug, PartialEq, Eq, Structural)]
pub enum BvBinOp {
    Sub,
    /// Division; all ones where the divisor is zero.
    Udiv,
    /// Remainder; the dividend where the divisor is zero.
    Urem,
    Shl,
    /// The shift that keeps the sign.
    Ashr,
    Lshr,
}

/// Bit-vector operators on one argument.
#[derive(Clone, Copy, Debug, PartialEq, Eq, Structural)]
pub enum BvUnOp {
    Not,
    Neg,
}

/// Bit-vector operators on any number of arguments.
#[derive(Clone, Copy, Debug, PartialEq, Eq, Structural)]
pub enum BvNaryOp {
    Add,
    Mul,
    Or,
    And,
    Xor,
}

/// Bit-vector comparisons, signed and unsigned.
#[derive(Clone, Copy, Debug, PartialEq, Eq, Structural)]
pub enum BvBinPred {
    Ult,
    Ugt,
    Ule,
    Uge,
    Slt,
    Sgt,
    Sle,
    Sge,
}

/// Field operators on one argument.
#[derive(Clone, Copy, Debug, PartialEq, Eq, Structural)]
pub enum PfUnOp {
    Neg,
    /// The inverse; zero for zero.
    Recip,
}

/// Field operators on any number of arguments.
#[derive(Clone, Copy, Debug, PartialEq, Eq, Structural)]
pub enum PfNaryOp {
    Add,
    Mul,
}

/// Integer operators on any number of arguments.
#[derive(Clone, Copy, Debug, PartialEq, Eq, Structural)]
pub enum IntNaryOp {
    Add,
    Mul,
}

/// Integer operators on two arguments.
#[derive(Clone, Copy, Debug, PartialEq, Eq, Structural)]
pub enum IntBinOp {
    Sub,
    /// Division, rounded towards zero.
    Div,
    /// What that division leaves.
    Rem,
    /// The inverse of the first argument modulo the second.
    ModInv,
}

/// Integer comparisons.
#[derive(Clone, Copy, Debug, PartialEq, Eq, Structural)]
pub enum IntBinPred {
    Lt,
    Gt,
    Le,
    Ge,
}

/// Integer operators on one argument.
#[derive(Clone, Copy, Debug, PartialEq, Eq, Structural)]
pub enum IntUnOp {
    Neg,
}

/// What to do with a field element that does not fit the bit-vector it is to become.
#[derive(Clone, Copy, Debug, PartialEq, Eq, Structural)]
pub enum FieldToBv {
    /// Keep its low bits.
    Wrap,
    /// Refuse it.
    Panic,
}

} // verus!
