//! The numbers that the kernels compute with.
//!
//! Every kernel is written once, over any type that offers the operations of
//! `Scalar`.  Each operation comes with a specification function of the same
//! name, and the kernels' contracts say which operations are applied to which
//! elements in which order, so that they hold for rounded arithmetic too.
//! Types whose addition is associative implement `ExactScalar`; for them the
//! order of accumulation does not matter.  Types whose arithmetic is that of
//! a commutative ring implement `RingScalar`; for them a gradient is the
//! slope of what it is the gradient of.
use vstd::prelude::*;
use vstd::arithmetic::div_mod::{
    lemma_add_mod_noop, lemma_mul_mod_noop_left, lemma_mul_mod_noop_right,
};
use vstd::wrapping::i64_specs::{signed_crop, wrapping_add, wrapping_mul, wrapping_sub};

verus! {

/// A number type with the arithmetic that the kernels need.
///
/// Every operation has a specification function, named after it with `_spec`
/// appended, that says what the operation returns.  An implementation gives
/// both, and the operation has to return what its specification function says.
pub trait Scalar: Copy {
    /// The additive identity.
    spec fn zero_spec() -> Self;

    /// The multiplicative identity.
    spec fn one_spec() -> Self;

    /// `self + rhs`.
    spec fn add_spec(self, rhs: Self) -> Self;

    /// `self - rhs`.
    spec fn sub_spec(self, rhs: Self) -> Self;

    /// `self * rhs`.
    spec fn mul_spec(self, rhs: Self) -> Self;

    /// `self * a + b`, computed as one fused operation.
    spec fn mul_add_spec(self, a: Self, b: Self) -> Self;

    /// `self` divided by the count `n`.  What a zero count gives is for the
    /// type to say: a type without such a quotient names a value for it.
    spec fn div_count_spec(self, n: usize) -> Self;

    /// Zero.
    fn zero() -> (r: Self)
        ensures
            r == Self::zero_spec(),
    ;

    /// One.
    fn one() -> (r: Self)
        ensures
            r == Self::one_spec(),
    ;

    /// The sum of `self` and `rhs`.
    fn add(self, rhs: Self) -> (r: Self)
        ensures
            r == self.add_spec(rhs),
    ;

    /// The difference of `self` and `rhs`.
    fn sub(self, rhs: Self) -> (r: Self)
        ensures
            r == self.sub_spec(rhs),
    ;

    /// The product of `self` and `rhs`.
    fn mul(self, rhs: Self) -> (r: Self)
        ensures
            r == self.mul_spec(rhs),
    ;

    /// The fused multiply-add `self * a + b`.
    fn mul_add(self, a: Self, b: Self) -> (r: Self)
        ensures
            r == self.mul_add_spec(a, b),
    ;

    /// `self` divided by the count `n`.
    fn div_count(self, n: usize) -> (r: Self)
        ensures
            r == self.div_count_spec(n),
    ;
}

/// A scalar with a logistic function, `1 / (1 + e^-x)`.
///
/// The function is transcendental, so an implementation may round it as it
/// sees fit, and differently from call to call: it says which values it
/// accepts as the function's value, and returns one of them.
pub trait Activation: Scalar {
    /// `y` is an acceptable value of the logistic function at `self`.
    spec fn sigmoid_accepts(self, y: Self) -> bool;

    /// A value of the logistic function at `self`.
    fn sigmoid(self) -> (y: Self)
        ensures
            self.sigmoid_accepts(y),
    ;
}

/// A scalar whose arithmetic is exact enough for sums to be regrouped.
pub trait ExactScalar: Scalar {
    /// Addition is associative.
    proof fn lemma_add_assoc(a: Self, b: Self, c: Self)
        ensures
            a.add_spec(b).add_spec(c) == a.add_spec(b.add_spec(c)),
    ;

    /// Adding zero on the right changes nothing.
    proof fn lemma_add_zero(a: Self)
        ensures
            a.add_spec(Self::zero_spec()) == a,
    ;

    /// The fused operation is a product followed by a sum.
    proof fn lemma_mul_add(a: Self, b: Self, c: Self)
        ensures
            a.mul_add_spec(b, c) == c.add_spec(a.mul_spec(b)),
    ;
}

/// A scalar whose sums and products obey the laws of a commutative ring.
pub trait RingScalar: ExactScalar {
    /// Addition is commutative.
    proof fn lemma_add_comm(a: Self, b: Self)
        ensures
            a.add_spec(b) == b.add_spec(a),
    ;

    /// Multiplication is commutative.
    proof fn lemma_mul_comm(a: Self, b: Self)
        ensures
            a.mul_spec(b) == b.mul_spec(a),
    ;

    /// Multiplication is associative.
    proof fn lemma_mul_assoc(a: Self, b: Self, c: Self)
        ensures
            a.mul_spec(b).mul_spec(c) == a.mul_spec(b.mul_spec(c)),
    ;

    /// Multiplication distributes over addition.
    proof fn lemma_mul_distributes(a: Self, b: Self, c: Self)
        ensures
            a.mul_spec(b.add_spec(c)) == a.mul_spec(b).add_spec(a.mul_spec(c)),
    ;

    /// A product with zero is zero.
    proof fn lemma_mul_zero(a: Self)
        ensures
            a.mul_spec(Self::zero_spec()) == Self::zero_spec(),
    ;

    /// A product with one is the other factor.
    proof fn lemma_mul_one(a: Self)
        ensures
            a.mul_spec(Self::one_spec()) == a,
    ;

    /// Subtraction undoes addition, and addition undoes subtraction.
    proof fn lemma_sub_inverts_add(a: Self, b: Self)
        ensures
            a.add_spec(b).sub_spec(a) == b,
            a.sub_spec(b).add_spec(b) == a,
    ;
}

/// A buffer of `len` zeros.
pub open spec fn zeros<T: Scalar>(len: nat) -> Seq<T> {
    Seq::new(len, |idx: int| T::zero_spec())
}

/// The quotient of `x` by a positive `d`, rounded towards zero.
pub open spec fn trunc_div(x: int, d: int) -> int {
    if x >= 0 {
        x / d
    } else {
        -((-x) / d)
    }
}

/// Two's-complement integers: every operation wraps around, division by a
/// count rounds towards zero, and division by a zero count gives zero.
impl Scalar for i64 {
    open spec fn zero_spec() -> Self {
        0
    }

    open spec fn one_spec() -> Self {
        1
    }

    open spec fn add_spec(self, rhs: Self) -> Self {
        wrapping_add(self, rhs)
    }

    open spec fn sub_spec(self, rhs: Self) -> Self {
        wrapping_sub(self, rhs)
    }

    open spec fn mul_spec(self, rhs: Self) -> Self {
        wrapping_mul(self, rhs)
    }

    open spec fn mul_add_spec(self, a: Self, b: Self) -> Self {
        wrapping_add(wrapping_mul(self, a), b)
    }

    open spec fn div_count_spec(self, n: usize) -> Self {
        if n == 0 {
            0
        } else {
            trunc_div(self as int, n as int) as i64
        }
    }

    fn zero() -> (r: Self) {
        0
    }

    fn one() -> (r: Self) {
        1
    }

    fn add(self, rhs: Self) -> (r: Self) {
        self.wrapping_add(rhs)
    }

    fn sub(self, rhs: Self) -> (r: Self) {
        self.wrapping_sub(rhs)
    }

    fn mul(self, rhs: Self) -> (r: Self) {
        self.wrapping_mul(rhs)
    }

    fn mul_add(self, a: Self, b: Self) -> (r: Self) {
        self.wrapping_mul(a).wrapping_add(b)
    }

    fn div_count(self, n: usize) -> (r: Self) {
        let wide: u64 = n as u64;
        if wide == 0 {
            0
        } else if wide > 0x7fff_ffff_ffff_ffffu64 {
            if self == i64::MIN && wide == 0x8000_0000_0000_0000u64 {
                assert(trunc_div(self as int, n as int) == -1) by {
                    vstd::arithmetic::div_mod::lemma_div_by_self(n as int);
                }
                -1
            } else {
                assert(trunc_div(self as int, n as int) == 0) by {
                    if self >= 0 {
                        vstd::arithmetic::div_mod::lemma_basic_div(self as int, n as int);
                    } else {
                        vstd::arithmetic::div_mod::lemma_basic_div(-(self as int), n as int);
                    }
                }
                0
            }
        } else {
            let d: i64 = wide as i64;
            self / d
        }
    }
}

/// On integers the logistic function is rounded to the nearest integer, the
/// tie at zero to the even one.
impl Activation for i64 {
    open spec fn sigmoid_accepts(self, y: Self) -> bool {
        y == if self > 0 {
            1i64
        } else {
            0i64
        }
    }

    fn sigmoid(self) -> (y: Self) {
        if self > 0 {
            1
        } else {
            0
        }
    }
}

impl ExactScalar for i64 {
    proof fn lemma_add_assoc(a: Self, b: Self, c: Self) {
    }

    proof fn lemma_add_zero(a: Self) {
    }

    proof fn lemma_mul_add(a: Self, b: Self, c: Self) {
    }
}

/// The number of values of an `i64`.
pub open spec fn i64_range() -> int {
    0x1_0000_0000_0000_0000
}

/// Wrapping a number leaves its remainder.
proof fn lemma_crop_keeps_remainder(v: int)
    ensures
        (signed_crop(v) as int) % i64_range() == v % i64_range(),
{
}

/// A wrapping sum is the wrapped sum.
proof fn lemma_wrapping_add_is_crop(a: i64, b: i64)
    ensures
        wrapping_add(a, b) == signed_crop(a + b),
{
}

impl RingScalar for i64 {
    proof fn lemma_add_comm(a: Self, b: Self) {
    }

    proof fn lemma_mul_comm(a: Self, b: Self) {
        assert(a * b == b * a) by (nonlinear_arith);
    }

    proof fn lemma_mul_assoc(a: Self, b: Self, c: Self) {
        let r = i64_range();
        let ab = signed_crop(a * b) as int;
        let bc = signed_crop(b * c) as int;
        lemma_crop_keeps_remainder(a * b);
        lemma_crop_keeps_remainder(b * c);
        lemma_mul_mod_noop_left(ab, c as int, r);
        lemma_mul_mod_noop_left(a * b, c as int, r);
        lemma_mul_mod_noop_right(a as int, bc, r);
        lemma_mul_mod_noop_right(a as int, b * c, r);
        assert((a * b) * c == a * (b * c)) by (nonlinear_arith);
        assert((ab * c) % r == (a * bc) % r);
    }

    proof fn lemma_mul_distributes(a: Self, b: Self, c: Self) {
        let r = i64_range();
        let sum = signed_crop(b + c) as int;
        let ab = signed_crop(a * b) as int;
        let ac = signed_crop(a * c) as int;
        lemma_wrapping_add_is_crop(b, c);
        lemma_wrapping_add_is_crop(signed_crop(a * b), signed_crop(a * c));
        lemma_crop_keeps_remainder(b + c);
        lemma_crop_keeps_remainder(a * b);
        lemma_crop_keeps_remainder(a * c);
        lemma_mul_mod_noop_right(a as int, sum, r);
        lemma_mul_mod_noop_right(a as int, b + c, r);
        lemma_add_mod_noop(ab, ac, r);
        lemma_add_mod_noop(a * b, a * c, r);
        assert(a * (b + c) == a * b + a * c) by (nonlinear_arith);
        assert((a * sum) % r == (ab + ac) % r);
    }

    proof fn lemma_mul_zero(a: Self) {
        assert(a * 0 == 0);
    }

    proof fn lemma_mul_one(a: Self) {
        assert(a * 1 == a);
    }

    proof fn lemma_sub_inverts_add(a: Self, b: Self) {
    }
}

} // verus!
