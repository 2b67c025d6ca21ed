use cosmwasm_std::Uint256 as CwUint256;
use vstd::prelude::*;

verus! {

/// 2^128.
pub open spec fn pow2_128() -> int {
    0x1_0000_0000_0000_0000_0000_0000_0000_0000int
}

/// 2^256, one more than the largest 256-bit value.
pub open spec fn pow2_256() -> int {
    pow2_128() * pow2_128()
}

/// 2^512, one more than the largest 512-bit value.
pub open spec fn pow2_512() -> int {
    pow2_256() * pow2_256()
}

/// The operation that overflowed.
#[derive(Debug, Clone, Copy, PartialEq, Eq, Structural)]
pub enum OverflowOperation {
    Add,
    Sub,
    Mul,
    Pow,
    Shr,
    Shl,
}

/// An arithmetic operation whose result does not fit the type.
#[derive(Debug, Clone, Copy, PartialEq, Eq, Structural)]
pub struct OverflowError {
    pub operation: OverflowOperation,
}

/// A division or remainder by zero.
#[derive(Debug, Clone, Copy, PartialEq, Eq, Structural)]
pub struct DivideByZeroError {}

/// A conversion into a narrower integer type that does not fit.
#[derive(Debug, Clone, Copy, PartialEq, Eq, Structural)]
pub struct ConversionOverflowError {}

/// Failure of `a * numerator / denominator`.
#[derive(Debug, Clone, Copy, PartialEq, Eq, Structural)]
pub enum CheckedMultiplyRatioError {
    DivideByZero,
    Overflow,
}

/// Failure of building a decimal from a ratio.
#[derive(Debug, Clone, Copy, PartialEq, Eq, Structural)]
pub enum CheckedFromRatioError {
    DivideByZero,
    Overflow,
}

/// The outcome of `a * n / d` rounded down, with the errors of
/// `checked_multiply_ratio` for a result below `bound`.
pub open spec fn spec_mul_ratio(a: int, n: int, d: int, bound: int) -> Result<int, CheckedMultiplyRatioError> {
    if d == 0 {
        Err(CheckedMultiplyRatioError::DivideByZero)
    } else if a * n / d >= bound {
        Err(CheckedMultiplyRatioError::Overflow)
    } else {
        Ok(a * n / d)
    }
}

/// Uint128 `checked_multiply_ratio`: `a * n / d` rounded down, computed with a
/// 256-bit intermediate product.
#[verifier::external_body]
pub(crate) fn u128_checked_multiply_ratio(a: u128, n: u128, d: u128) -> (r: Result<u128, CheckedMultiplyRatioError>)
    ensures
        match r {
            Ok(v) => spec_mul_ratio(a as int, n as int, d as int, pow2_128()) == Ok::<int, CheckedMultiplyRatioError>(v as int),
            Err(e) => spec_mul_ratio(a as int, n as int, d as int, pow2_128()) == Err::<int, CheckedMultiplyRatioError>(e),
        },
{
    match cosmwasm_std::Uint128::new(a).checked_multiply_ratio(n, d) {
        Ok(v) => Ok(v.u128()),
        Err(cosmwasm_std::CheckedMultiplyRatioError::DivideByZero) => Err(CheckedMultiplyRatioError::DivideByZero),
        Err(cosmwasm_std::CheckedMultiplyRatioError::Overflow) => Err(CheckedMultiplyRatioError::Overflow),
    }
}

/// Uint128 `multiply_ratio`: `a * n / d` rounded down; it panics on a zero
/// denominator or a result above the 128-bit range, which `requires` excludes.
#[verifier::external_body]
pub(crate) fn u128_multiply_ratio(a: u128, n: u128, d: u128) -> (r: u128)
    requires
        d != 0,
        (a as int) * (n as int) / (d as int) < pow2_128(),
    ensures
        r as int == (a as int) * (n as int) / (d as int),
{
    cosmwasm_std::Uint128::new(a).multiply_ratio(n, d).u128()
}

/// A 256-bit unsigned integer, held as its high and low 128-bit halves.
#[derive(Debug, Clone, Copy, PartialEq, Eq, Structural)]
pub struct Uint256 {
    pub hi: u128,
    pub lo: u128,
}

impl View for Uint256 {
    type V = int;

    open spec fn view(&self) -> int {
        self.hi as int * pow2_128() + self.lo as int
    }
}

/// Facts about the value of a 256-bit integer.
pub proof fn lemma_uint256_range(x: Uint256)
    ensures
        0 <= x@ < pow2_256(),
        x.hi == 0 ==> x@ == x.lo,
        x@ < pow2_128() ==> x.hi == 0,
{
    assert(x.hi as int * pow2_128() <= (pow2_128() - 1) * pow2_128()) by (nonlinear_arith)
        requires x.hi < pow2_128();
    assert(x.hi >= 1 ==> x.hi as int * pow2_128() >= pow2_128()) by (nonlinear_arith);
    assert(x.hi as int * pow2_128() >= 0) by (nonlinear_arith);
}

/// Two 256-bit integers with the same value are the same.
pub proof fn lemma_uint256_view_injective(x: Uint256, y: Uint256)
    requires
        x@ == y@,
    ensures
        x == y,
{
    assert(x.hi == y.hi) by (nonlinear_arith)
        requires
            x.hi as int * pow2_128() + x.lo as int == y.hi as int * pow2_128() + y.lo as int,
            0 <= x.lo < pow2_128(),
            0 <= y.lo < pow2_128(),
    {
        if x.hi < y.hi {
            assert(y.hi as int * pow2_128() >= (x.hi + 1) * pow2_128());
        } else if x.hi > y.hi {
            assert(x.hi as int * pow2_128() >= (y.hi + 1) * pow2_128());
        }
    }
}

impl Uint256 {
    pub fn zero() -> (r: Uint256)
        ensures
            r@ == 0,
    {
        Uint256 { hi: 0, lo: 0 }
    }

    pub fn one() -> (r: Uint256)
        ensures
            r@ == 1,
    {
        Uint256 { hi: 0, lo: 1 }
    }

    pub fn from_u128(x: u128) -> (r: Uint256)
        ensures
            r@ == x,
    {
        Uint256 { hi: 0, lo: x }
    }

    pub fn is_zero(&self) -> (r: bool)
        ensures
            r == (self@ == 0),
    {
        proof { lemma_uint256_range(*self); }
        self.hi == 0 && self.lo == 0
    }

    /// `self < other`.
    pub fn lt(&self, other: &Uint256) -> (r: bool)
        ensures
            r == (self@ < other@),
    {
        proof {
            lemma_uint256_range(*self);
            lemma_uint256_range(*other);
            assert(self.hi < other.hi ==> self@ < other@) by (nonlinear_arith)
                requires
                    self@ == self.hi as int * pow2_128() + self.lo as int,
                    other@ == other.hi as int * pow2_128() + other.lo as int,
                    0 <= self.lo < pow2_128(),
                    0 <= other.lo,
            {
                if self.hi < other.hi {
                    assert(other.hi as int * pow2_128() >= (self.hi + 1) * pow2_128());
                }
            }
            assert(self.hi > other.hi ==> self@ > other@) by (nonlinear_arith)
                requires
                    self@ == self.hi as int * pow2_128() + self.lo as int,
                    other@ == other.hi as int * pow2_128() + other.lo as int,
                    0 <= other.lo < pow2_128(),
                    0 <= self.lo,
            {
                if self.hi > other.hi {
                    assert(self.hi as int * pow2_128() >= (other.hi + 1) * pow2_128());
                }
            }
        }
        self.hi < other.hi || (self.hi == other.hi && self.lo < other.lo)
    }

    /// `self <= other`.
    pub fn le(&self, other: &Uint256) -> (r: bool)
        ensures
            r == (self@ <= other@),
    {
        !other.lt(self)
    }

    /// `self == other` by value.
    pub fn eq_value(&self, other: &Uint256) -> (r: bool)
        ensures
            r == (self@ == other@),
    {
        proof {
            if self@ == other@ {
                lemma_uint256_view_injective(*self, *other);
            }
        }
        self.hi == other.hi && self.lo == other.lo
    }

    /// Checked addition; fails when the sum does not fit in 256 bits.
    pub fn checked_add(&self, other: &Uint256) -> (r: Result<Uint256, OverflowError>)
        ensures
            match r {
                Ok(v) => v@ == self@ + other@,
                Err(e) => self@ + other@ >= pow2_256() && e.operation == OverflowOperation::Add,
            },
    {
        proof {
            lemma_uint256_range(*self);
            lemma_uint256_range(*other);
        }
        let carry: u128;
        let lo: u128;
        if self.lo > u128::MAX - other.lo {
            lo = self.lo - (u128::MAX - other.lo) - 1;
            carry = 1;
        } else {
            lo = self.lo + other.lo;
            carry = 0;
        }
        if self.hi > u128::MAX - other.hi || self.hi + other.hi > u128::MAX - carry {
            proof {
                assert(self@ + other@ >= pow2_256()) by (nonlinear_arith)
                    requires
                        self@ == self.hi as int * pow2_128() + self.lo as int,
                        other@ == other.hi as int * pow2_128() + other.lo as int,
                        self.hi + other.hi + carry >= pow2_128(),
                        carry == 1 ==> self.lo + other.lo >= pow2_128(),
                        carry == 0 || carry == 1,
                        0 <= self.lo, 0 <= other.lo,
                        pow2_256() == pow2_128() * pow2_128(),
                {
                    assert((self.hi + other.hi + carry) * pow2_128() >= pow2_128() * pow2_128());
                }
            }
            return Err(OverflowError { operation: OverflowOperation::Add });
        }
        let r = Uint256 { hi: self.hi + other.hi + carry, lo };
        proof {
            assert(r@ == self@ + other@) by (nonlinear_arith)
                requires
                    self@ == self.hi as int * pow2_128() + self.lo as int,
                    other@ == other.hi as int * pow2_128() + other.lo as int,
                    r@ == (self.hi + other.hi + carry) * pow2_128() + lo,
                    lo + carry * pow2_128() == self.lo + other.lo;
        }
        Ok(r)
    }

    /// Checked subtraction; fails when `other > self`.
    pub fn checked_sub(&self, other: &Uint256) -> (r: Result<Uint256, OverflowError>)
        ensures
            match r {
                Ok(v) => v@ == self@ - other@,
                Err(e) => self@ < other@ && e.operation == OverflowOperation::Sub,
            },
    {
        if self.lt(other) {
            return Err(OverflowError { operation: OverflowOperation::Sub });
        }
        proof {
            lemma_uint256_range(*self);
            lemma_uint256_range(*other);
            assert(self.hi >= other.hi) by (nonlinear_arith)
                requires
                    self@ >= other@,
                    self@ == self.hi as int * pow2_128() + self.lo as int,
                    other@ == other.hi as int * pow2_128() + other.lo as int,
                    0 <= self.lo < pow2_128(),
                    0 <= other.lo,
            {
                if self.hi < other.hi {
                    assert(other.hi as int * pow2_128() >= (self.hi + 1) * pow2_128());
                }
            };
        }
        let borrow: u128;
        let lo: u128;
        if self.lo < other.lo {
            lo = u128::MAX - (other.lo - self.lo) + 1;
            borrow = 1;
        } else {
            lo = self.lo - other.lo;
            borrow = 0;
        }
        proof {
            assert(self.hi - other.hi - borrow >= 0) by (nonlinear_arith)
                requires
                    self@ >= other@,
                    self@ == self.hi as int * pow2_128() + self.lo as int,
                    other@ == other.hi as int * pow2_128() + other.lo as int,
                    borrow == 1 ==> self.lo < other.lo,
                    borrow == 0 || borrow == 1,
                    self.hi >= other.hi,
                    0 <= self.lo, 0 <= other.lo < pow2_128(),
            {
                if borrow == 1 && self.hi == other.hi {
                    assert(self@ < other@);
                }
            };
        }
        let r = Uint256 { hi: self.hi - other.hi - borrow, lo };
        proof {
            assert(r@ == self@ - other@) by (nonlinear_arith)
                requires
                    self@ == self.hi as int * pow2_128() + self.lo as int,
                    other@ == other.hi as int * pow2_128() + other.lo as int,
                    r@ == (self.hi - other.hi - borrow) * pow2_128() + lo,
                    lo - borrow * pow2_128() == self.lo - other.lo;
        }
        Ok(r)
    }

    /// Conversion into a `u128`; fails when the value needs more than 128 bits.
    pub fn to_u128(&self) -> (r: Result<u128, ConversionOverflowError>)
        ensures
            match r {
                Ok(v) => v as int == self@,
                Err(_) => self@ >= pow2_128(),
            },
    {
        proof { lemma_uint256_range(*self); }
        if self.hi == 0 {
            Ok(self.lo)
        } else {
            proof {
                assert(self@ >= pow2_128()) by (nonlinear_arith)
                    requires
                        self.hi >= 1,
                        self@ == self.hi as int * pow2_128() + self.lo as int,
                        self.lo >= 0,
                {
                    assert(self.hi as int * pow2_128() >= pow2_128());
                }
            }
            Err(ConversionOverflowError {})
        }
    }
}

/// Uint256 `checked_mul`.
#[verifier::external_body]
pub(crate) fn u256_checked_mul(a: Uint256, b: Uint256) -> (r: Result<Uint256, OverflowError>)
    ensures
        match r {
            Ok(v) => v@ == a@ * b@,
            Err(e) => a@ * b@ >= pow2_256() && e.operation == OverflowOperation::Mul,
        },
{
    let [x, y] = [a, b].map(|u| CwUint256::from_be_bytes([u.hi, u.lo].map(u128::to_be_bytes).concat().try_into().unwrap()));
    match x.checked_mul(y) {
        Ok(v) => {
            let w: Vec<u128> = v.to_be_bytes().chunks(16).map(|c| u128::from_be_bytes(c.try_into().unwrap())).collect();
            Ok(Uint256 { hi: w[0], lo: w[1] })
        },
        Err(_) => Err(OverflowError { operation: OverflowOperation::Mul }),
    }
}

/// Uint256 `checked_div`: `a / b` rounded down.
#[verifier::external_body]
pub(crate) fn u256_checked_div(a: Uint256, b: Uint256) -> (r: Result<Uint256, DivideByZeroError>)
    ensures
        match r {
            Ok(v) => b@ != 0 && v@ == a@ / b@,
            Err(_) => b@ == 0,
        },
{
    let [x, y] = [a, b].map(|u| CwUint256::from_be_bytes([u.hi, u.lo].map(u128::to_be_bytes).concat().try_into().unwrap()));
    match x.checked_div(y) {
        Ok(v) => {
            let w: Vec<u128> = v.to_be_bytes().chunks(16).map(|c| u128::from_be_bytes(c.try_into().unwrap())).collect();
            Ok(Uint256 { hi: w[0], lo: w[1] })
        },
        Err(_) => Err(DivideByZeroError {}),
    }
}

/// Uint256 `checked_multiply_ratio`: `a * n / d` rounded down, computed with a
/// 512-bit intermediate product.
#[verifier::external_body]
pub(crate) fn u256_checked_multiply_ratio(a: Uint256, n: Uint256, d: Uint256) -> (r: Result<Uint256, CheckedMultiplyRatioError>)
    ensures
        match r {
            Ok(v) => spec_mul_ratio(a@, n@, d@, pow2_256()) == Ok::<int, CheckedMultiplyRatioError>(v@),
            Err(e) => spec_mul_ratio(a@, n@, d@, pow2_256()) == Err::<int, CheckedMultiplyRatioError>(e),
        },
{
    let [x, y, z] = [a, n, d].map(|u| CwUint256::from_be_bytes([u.hi, u.lo].map(u128::to_be_bytes).concat().try_into().unwrap()));
    match x.checked_multiply_ratio(y, z) {
        Ok(v) => {
            let w: Vec<u128> = v.to_be_bytes().chunks(16).map(|c| u128::from_be_bytes(c.try_into().unwrap())).collect();
            Ok(Uint256 { hi: w[0], lo: w[1] })
        },
        Err(cosmwasm_std::CheckedMultiplyRatioError::DivideByZero) => Err(CheckedMultiplyRatioError::DivideByZero),
        Err(cosmwasm_std::CheckedMultiplyRatioError::Overflow) => Err(CheckedMultiplyRatioError::Overflow),
    }
}

/// Uint256 `multiply_ratio`: `a * n / d` rounded down; it panics on a zero
/// denominator or a result above the 256-bit range, which `requires` excludes.
#[verifier::external_body]
pub(crate) fn u256_multiply_ratio(a: Uint256, n: Uint256, d: Uint256) -> (r: Uint256)
    requires
        d@ != 0,
        a@ * n@ / d@ < pow2_256(),
    ensures
        r@ == a@ * n@ / d@,
{
    let [x, y, z] = [a, n, d].map(|u| CwUint256::from_be_bytes([u.hi, u.lo].map(u128::to_be_bytes).concat().try_into().unwrap()));
    let w: Vec<u128> = x.multiply_ratio(y, z).to_be_bytes().chunks(16).map(|c| u128::from_be_bytes(c.try_into().unwrap())).collect();
    Uint256 { hi: w[0], lo: w[1] }
}

/// A 512-bit unsigned integer, held as four 128-bit limbs, most significant first.
#[derive(Debug, Clone, Copy, PartialEq, Eq)]
pub struct Uint512 {
    pub limbs: [u128; 4],
}

impl View for Uint512 {
    type V = int;

    open spec fn view(&self) -> int {
        ((self.limbs[0] as int * pow2_128() + self.limbs[1] as int) * pow2_128() + self.limbs[2] as int) * pow2_128()
            + self.limbs[3] as int
    }
}

/// The value of a 512-bit integer is below 2^512.
pub proof fn lemma_uint512_range(x: Uint512)
    ensures
        0 <= x@ < pow2_512(),
{
    let p = pow2_128();
    let (a, b, c, d) = (x.limbs[0] as int, x.limbs[1] as int, x.limbs[2] as int, x.limbs[3] as int);
    assert(0 <= a * p + b < p * p) by (nonlinear_arith)
        requires 0 <= a < p, 0 <= b < p;
    assert(0 <= (a * p + b) * p + c < p * p * p) by (nonlinear_arith)
        requires 0 <= a * p + b < p * p, 0 <= c < p;
    assert(0 <= ((a * p + b) * p + c) * p + d < p * p * p * p) by (nonlinear_arith)
        requires 0 <= (a * p + b) * p + c < p * p * p, 0 <= d < p;
    assert(p * p * p * p == pow2_512()) by (nonlinear_arith)
        requires p == pow2_128(), pow2_256() == p * p, pow2_512() == pow2_256() * pow2_256();
}

impl Uint512 {
    pub fn from_uint256(x: Uint256) -> (r: Uint512)
        ensures
            r@ == x@,
    {
        Uint512 { limbs: [0, 0, x.hi, x.lo] }
    }

    /// The low 256 bits, when the value fits in them.
    pub fn to_uint256(&self) -> (r: Result<Uint256, ConversionOverflowError>)
        ensures
            match r {
                Ok(v) => v@ == self@,
                Err(_) => self@ >= pow2_256(),
            },
    {
        let r = Uint256 { hi: self.limbs[2], lo: self.limbs[3] };
        proof { lemma_uint256_range(r); }
        if self.limbs[0] == 0 && self.limbs[1] == 0 {
            Ok(r)
        } else {
            proof {
                let a = self.limbs[0] as int;
                let b = self.limbs[1] as int;
                assert(self@ == (a * pow2_128() + b) * pow2_256() + r@) by (nonlinear_arith)
                    requires
                        self@ == ((a * pow2_128() + b) * pow2_128() + self.limbs[2] as int) * pow2_128() + self.limbs[3] as int,
                        r@ == self.limbs[2] as int * pow2_128() + self.limbs[3] as int,
                        pow2_256() == pow2_128() * pow2_128();
                assert((a * pow2_128() + b) >= 1) by (nonlinear_arith)
                    requires a >= 0, b >= 0, a >= 1 || b >= 1, pow2_128() >= 1;
                assert((a * pow2_128() + b) * pow2_256() >= pow2_256()) by (nonlinear_arith)
                    requires (a * pow2_128() + b) >= 1, pow2_256() >= 0;
            }
            Err(ConversionOverflowError {})
        }
    }
}

/// Uint512 `checked_mul`.
#[verifier::external_body]
pub(crate) fn u512_checked_mul(a: Uint512, b: Uint512) -> (r: Result<Uint512, OverflowError>)
    ensures
        match r {
            Ok(v) => v@ == a@ * b@,
            Err(e) => a@ * b@ >= pow2_512() && e.operation == OverflowOperation::Mul,
        },
{
    let x = cosmwasm_std::Uint512::from_be_bytes(a.limbs.map(u128::to_be_bytes).concat().try_into().unwrap());
    let y = cosmwasm_std::Uint512::from_be_bytes(b.limbs.map(u128::to_be_bytes).concat().try_into().unwrap());
    match x.checked_mul(y) {
        Ok(v) => {
            let w: Vec<u128> = v.to_be_bytes().chunks(16).map(|c| u128::from_be_bytes(c.try_into().unwrap())).collect();
            Ok(Uint512 { limbs: w.try_into().unwrap() })
        },
        Err(_) => Err(OverflowError { operation: OverflowOperation::Mul }),
    }
}

/// Uint512 `checked_div`: `a / b` rounded down.
#[verifier::external_body]
pub(crate) fn u512_checked_div(a: Uint512, b: Uint512) -> (r: Result<Uint512, DivideByZeroError>)
    ensures
        match r {
            Ok(v) => b@ != 0 && v@ == a@ / b@,
            Err(_) => b@ == 0,
        },
{
    let x = cosmwasm_std::Uint512::from_be_bytes(a.limbs.map(u128::to_be_bytes).concat().try_into().unwrap());
    let y = cosmwasm_std::Uint512::from_be_bytes(b.limbs.map(u128::to_be_bytes).concat().try_into().unwrap());
    match x.checked_div(y) {
        Ok(v) => {
            let w: Vec<u128> = v.to_be_bytes().chunks(16).map(|c| u128::from_be_bytes(c.try_into().unwrap())).collect();
            Ok(Uint512 { limbs: w.try_into().unwrap() })
        },
        Err(_) => Err(DivideByZeroError {}),
    }
}

} // verus!
