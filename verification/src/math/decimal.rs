use cosmwasm_std::{Decimal256 as CwDecimal256, Uint256 as CwUint256};
use vstd::prelude::*;
use crate::math::uint::{
    pow2_128, pow2_256, u256_checked_div, CheckedFromRatioError, ConversionOverflowError,
    OverflowError, OverflowOperation, Uint256,
};
use crate::text::decimal_text;

verus! {

/// 10^18, the number of atomic units in one whole decimal.
pub open spec fn dec_frac() -> int {
    1_000_000_000_000_000_000int
}

pub const DECIMAL_FRACTIONAL: u128 = 1_000_000_000_000_000_000u128;

/// A non-negative fixed-point number with 18 decimal places, held as its
/// number of atomic units (`value * 10^18`) in 128 bits.
#[derive(Debug, Clone, Copy, PartialEq, Eq, Structural)]
pub struct Decimal {
    pub atomics: u128,
}

impl View for Decimal {
    type V = int;

    open spec fn view(&self) -> int {
        self.atomics as int
    }
}

/// The atomic units of the (approximate) square root that CosmWasm's
/// `Decimal::sqrt` returns for a decimal with `atomics` atomic units.
pub uninterp spec fn decimal_sqrt_atomics(atomics: int) -> int;

/// The atomic units of the (approximate) square root that CosmWasm's
/// `Decimal256::sqrt` returns for a decimal with `atomics` atomic units.
pub uninterp spec fn decimal256_sqrt_atomics(atomics: int) -> int;

/// CosmWasm `Decimal::checked_from_ratio`: `n * 10^18 / d` atomic units, rounded down.
#[verifier::external_body]
fn cw_decimal_checked_from_ratio(n: u128, d: u128) -> (r: Result<Decimal, CheckedFromRatioError>)
    ensures
        match r {
            Ok(v) => d != 0 && v@ == n * dec_frac() / (d as int),
            Err(CheckedFromRatioError::DivideByZero) => d == 0,
            Err(CheckedFromRatioError::Overflow) => d != 0 && n * dec_frac() / (d as int) >= pow2_128(),
        },
{
    match cosmwasm_std::Decimal::checked_from_ratio(n, d) {
        Ok(v) => Ok(Decimal { atomics: v.atomics().u128() }),
        Err(cosmwasm_std::CheckedFromRatioError::DivideByZero) => Err(CheckedFromRatioError::DivideByZero),
        Err(cosmwasm_std::CheckedFromRatioError::Overflow) => Err(CheckedFromRatioError::Overflow),
    }
}

/// CosmWasm `Decimal::checked_mul`: `a * b / 10^18` atomic units, rounded down.
#[verifier::external_body]
fn cw_decimal_checked_mul(a: Decimal, b: Decimal) -> (r: Result<Decimal, OverflowError>)
    ensures
        match r {
            Ok(v) => v@ == a@ * b@ / dec_frac(),
            Err(e) => a@ * b@ / dec_frac() >= pow2_128() && e.operation == OverflowOperation::Mul,
        },
{
    match cosmwasm_std::Decimal::raw(a.atomics).checked_mul(cosmwasm_std::Decimal::raw(b.atomics)) {
        Ok(v) => Ok(Decimal { atomics: v.atomics().u128() }),
        Err(_) => Err(OverflowError { operation: OverflowOperation::Mul }),
    }
}

/// CosmWasm `Decimal::checked_div`: `a * 10^18 / b` atomic units, rounded down.
#[verifier::external_body]
fn cw_decimal_checked_div(a: Decimal, b: Decimal) -> (r: Result<Decimal, CheckedFromRatioError>)
    ensures
        match r {
            Ok(v) => b@ != 0 && v@ == a@ * dec_frac() / b@,
            Err(CheckedFromRatioError::DivideByZero) => b@ == 0,
            Err(CheckedFromRatioError::Overflow) => b@ != 0 && a@ * dec_frac() / b@ >= pow2_128(),
        },
{
    match cosmwasm_std::Decimal::raw(a.atomics).checked_div(cosmwasm_std::Decimal::raw(b.atomics)) {
        Ok(v) => Ok(Decimal { atomics: v.atomics().u128() }),
        Err(cosmwasm_std::CheckedFromRatioError::DivideByZero) => Err(CheckedFromRatioError::DivideByZero),
        Err(cosmwasm_std::CheckedFromRatioError::Overflow) => Err(CheckedFromRatioError::Overflow),
    }
}

/// CosmWasm `Decimal::sqrt`; its result is named by `decimal_sqrt_atomics`.
#[verifier::external_body]
fn cw_decimal_sqrt(a: Decimal) -> (r: Decimal)
    ensures
        r@ == decimal_sqrt_atomics(a@),
{
    Decimal { atomics: cosmwasm_std::Decimal::raw(a.atomics).sqrt().atomics().u128() }
}

impl Decimal {
    pub fn raw(atomics: u128) -> (r: Decimal)
        ensures
            r@ == atomics,
    {
        Decimal { atomics }
    }

    pub fn new(atomics: u128) -> (r: Decimal)
        ensures
            r@ == atomics,
    {
        Decimal { atomics }
    }

    pub fn zero() -> (r: Decimal)
        ensures
            r@ == 0,
    {
        Decimal { atomics: 0 }
    }

    pub fn one() -> (r: Decimal)
        ensures
            r@ == dec_frac(),
    {
        Decimal { atomics: DECIMAL_FRACTIONAL }
    }

    /// The largest decimal.
    pub fn max() -> (r: Decimal)
        ensures
            r@ == pow2_128() - 1,
    {
        Decimal { atomics: u128::MAX }
    }

    /// `x` percent.
    pub fn percent(x: u64) -> (r: Decimal)
        ensures
            r@ == x * 10_000_000_000_000_000int,
    {
        Decimal { atomics: (x as u128) * 10_000_000_000_000_000u128 }
    }

    /// `x` per mille.
    pub fn permille(x: u64) -> (r: Decimal)
        ensures
            r@ == x * 1_000_000_000_000_000int,
    {
        Decimal { atomics: (x as u128) * 1_000_000_000_000_000u128 }
    }

    pub fn atomics(&self) -> (r: u128)
        ensures
            r == self@,
    {
        self.atomics
    }

    /// The numerator of the fraction `atomics / 10^18`.
    pub fn numerator(&self) -> (r: u128)
        ensures
            r == self@,
    {
        self.atomics
    }

    /// The denominator of the fraction `atomics / 10^18`.
    pub fn denominator(&self) -> (r: u128)
        ensures
            r == dec_frac(),
    {
        DECIMAL_FRACTIONAL
    }

    pub fn is_zero(&self) -> (r: bool)
        ensures
            r == (self@ == 0),
    {
        self.atomics == 0
    }

    pub fn lt(&self, other: &Decimal) -> (r: bool)
        ensures
            r == (self@ < other@),
    {
        self.atomics < other.atomics
    }

    pub fn le(&self, other: &Decimal) -> (r: bool)
        ensures
            r == (self@ <= other@),
    {
        self.atomics <= other.atomics
    }

    pub fn eq_value(&self, other: &Decimal) -> (r: bool)
        ensures
            r == (self@ == other@),
    {
        self.atomics == other.atomics
    }

    /// The smaller of the two.
    pub fn min(self, other: Decimal) -> (r: Decimal)
        ensures
            r@ == if self@ <= other@ { self@ } else { other@ },
    {
        if self.atomics <= other.atomics { self } else { other }
    }

    /// `n / d` as a decimal, rounded down to 18 places.
    pub fn checked_from_ratio(n: u128, d: u128) -> (r: Result<Decimal, CheckedFromRatioError>)
        ensures
            match r {
                Ok(v) => d != 0 && v@ == n * dec_frac() / (d as int),
                Err(CheckedFromRatioError::DivideByZero) => d == 0,
                Err(CheckedFromRatioError::Overflow) => d != 0 && n * dec_frac() / (d as int) >= pow2_128(),
            },
    {
        cw_decimal_checked_from_ratio(n, d)
    }

    /// `n / d` as a decimal, rounded down to 18 places; CosmWasm panics on a zero
    /// denominator or an overflow, which `requires` excludes.
    pub fn from_ratio(n: u128, d: u128) -> (r: Decimal)
        requires
            d != 0,
            n * dec_frac() / (d as int) < pow2_128(),
        ensures
            r@ == n * dec_frac() / (d as int),
    {
        match cw_decimal_checked_from_ratio(n, d) {
            Ok(v) => v,
            Err(_) => Decimal::zero(),
        }
    }

    /// An integer amount as a decimal.
    pub fn from_uint128(x: u128) -> (r: Result<Decimal, CheckedFromRatioError>)
        ensures
            match r {
                Ok(v) => v@ == x * dec_frac(),
                Err(e) => x * dec_frac() >= pow2_128() && e == CheckedFromRatioError::Overflow,
            },
    {
        cw_decimal_checked_from_ratio(x, 1)
    }

    pub fn checked_add(self, other: Decimal) -> (r: Result<Decimal, OverflowError>)
        ensures
            match r {
                Ok(v) => v@ == self@ + other@,
                Err(e) => self@ + other@ >= pow2_128() && e.operation == OverflowOperation::Add,
            },
    {
        if self.atomics > u128::MAX - other.atomics {
            Err(OverflowError { operation: OverflowOperation::Add })
        } else {
            Ok(Decimal { atomics: self.atomics + other.atomics })
        }
    }

    pub fn checked_sub(self, other: Decimal) -> (r: Result<Decimal, OverflowError>)
        ensures
            match r {
                Ok(v) => v@ == self@ - other@,
                Err(e) => self@ < other@ && e.operation == OverflowOperation::Sub,
            },
    {
        if self.atomics < other.atomics {
            Err(OverflowError { operation: OverflowOperation::Sub })
        } else {
            Ok(Decimal { atomics: self.atomics - other.atomics })
        }
    }

    /// Product rounded down to 18 places.
    pub fn checked_mul(self, other: Decimal) -> (r: Result<Decimal, OverflowError>)
        ensures
            match r {
                Ok(v) => v@ == self@ * other@ / dec_frac(),
                Err(e) => self@ * other@ / dec_frac() >= pow2_128() && e.operation == OverflowOperation::Mul,
            },
    {
        cw_decimal_checked_mul(self, other)
    }

    /// Quotient rounded down to 18 places.
    pub fn checked_div(self, other: Decimal) -> (r: Result<Decimal, CheckedFromRatioError>)
        ensures
            match r {
                Ok(v) => other@ != 0 && v@ == self@ * dec_frac() / other@,
                Err(CheckedFromRatioError::DivideByZero) => other@ == 0,
                Err(CheckedFromRatioError::Overflow) => other@ != 0 && self@ * dec_frac() / other@ >= pow2_128(),
            },
    {
        cw_decimal_checked_div(self, other)
    }

    /// The `/` operator: quotient rounded down to 18 places; CosmWasm panics on a
    /// zero divisor or an overflow, which `requires` excludes.
    pub fn div(self, other: Decimal) -> (r: Decimal)
        requires
            other@ != 0,
            self@ * dec_frac() / other@ < pow2_128(),
        ensures
            r@ == self@ * dec_frac() / other@,
    {
        match cw_decimal_checked_div(self, other) {
            Ok(v) => v,
            Err(_) => Decimal::zero(),
        }
    }

    /// Rounds down to a whole number.
    pub fn floor(&self) -> (r: Decimal)
        ensures
            r@ == (self@ / dec_frac()) * dec_frac(),
    {
        Decimal { atomics: (self.atomics / DECIMAL_FRACTIONAL) * DECIMAL_FRACTIONAL }
    }

    /// Rounds up to a whole number; CosmWasm panics when that overflows, which
    /// `requires` excludes.
    pub fn ceil(&self) -> (r: Decimal)
        requires
            self@ % dec_frac() != 0 ==> (self@ / dec_frac() + 1) * dec_frac() < pow2_128(),
        ensures
            r@ == if self@ % dec_frac() == 0 { self@ } else { (self@ / dec_frac() + 1) * dec_frac() },
    {
        let floor = self.floor();
        if floor.atomics == self.atomics {
            floor
        } else {
            Decimal { atomics: floor.atomics + DECIMAL_FRACTIONAL }
        }
    }

    /// The whole part.
    pub fn to_uint_floor(&self) -> (r: u128)
        ensures
            r == self@ / dec_frac(),
    {
        self.atomics / DECIMAL_FRACTIONAL
    }

    /// The smallest whole number not below the value.
    pub fn to_uint_ceil(&self) -> (r: u128)
        ensures
            r == if self@ == 0 { 0 } else { (self@ - 1) / dec_frac() + 1 },
    {
        if self.atomics == 0 { 0 } else { 1 + (self.atomics - 1) / DECIMAL_FRACTIONAL }
    }

    /// The approximate square root that CosmWasm computes.
    pub fn sqrt(&self) -> (r: Decimal)
        ensures
            r@ == decimal_sqrt_atomics(self@),
    {
        cw_decimal_sqrt(*self)
    }

    /// The same value as a 256-bit decimal.
    pub fn to_decimal256(&self) -> (r: Decimal256)
        ensures
            r@ == self@,
    {
        Decimal256 { atomics: Uint256::from_u128(self.atomics) }
    }
}

/// A non-negative fixed-point number with 18 decimal places, held as its
/// number of atomic units in 256 bits.
#[derive(Debug, Clone, Copy, PartialEq, Eq, Structural)]
pub struct Decimal256 {
    pub atomics: Uint256,
}

impl View for Decimal256 {
    type V = int;

    open spec fn view(&self) -> int {
        self.atomics@
    }
}

/// CosmWasm `Decimal256::checked_mul`: `a * b / 10^18` atomic units, rounded down.
#[verifier::external_body]
fn cw_decimal256_checked_mul(a: Decimal256, b: Decimal256) -> (r: Result<Decimal256, OverflowError>)
    ensures
        match r {
            Ok(v) => v@ == a@ * b@ / dec_frac(),
            Err(e) => a@ * b@ / dec_frac() >= pow2_256() && e.operation == OverflowOperation::Mul,
        },
{
    let [x, y] = [a.atomics, b.atomics].map(|u| CwDecimal256::new(CwUint256::from_be_bytes([u.hi, u.lo].map(u128::to_be_bytes).concat().try_into().unwrap())));
    match x.checked_mul(y) {
        Ok(v) => {
            let w: Vec<u128> = v.atomics().to_be_bytes().chunks(16).map(|c| u128::from_be_bytes(c.try_into().unwrap())).collect();
            Ok(Decimal256 { atomics: Uint256 { hi: w[0], lo: w[1] } })
        },
        Err(_) => Err(OverflowError { operation: OverflowOperation::Mul }),
    }
}

/// CosmWasm `Decimal256::checked_from_ratio`: `n * 10^18 / d` atomic units, rounded down.
#[verifier::external_body]
fn cw_decimal256_checked_from_ratio(n: Uint256, d: Uint256) -> (r: Result<Decimal256, CheckedFromRatioError>)
    ensures
        match r {
            Ok(v) => d@ != 0 && v@ == n@ * dec_frac() / d@,
            Err(CheckedFromRatioError::DivideByZero) => d@ == 0,
            Err(CheckedFromRatioError::Overflow) => d@ != 0 && n@ * dec_frac() / d@ >= pow2_256(),
        },
{
    let [x, y] = [n, d].map(|u| CwUint256::from_be_bytes([u.hi, u.lo].map(u128::to_be_bytes).concat().try_into().unwrap()));
    match CwDecimal256::checked_from_ratio(x, y) {
        Ok(v) => {
            let w: Vec<u128> = v.atomics().to_be_bytes().chunks(16).map(|c| u128::from_be_bytes(c.try_into().unwrap())).collect();
            Ok(Decimal256 { atomics: Uint256 { hi: w[0], lo: w[1] } })
        },
        Err(cosmwasm_std::CheckedFromRatioError::DivideByZero) => Err(CheckedFromRatioError::DivideByZero),
        Err(cosmwasm_std::CheckedFromRatioError::Overflow) => Err(CheckedFromRatioError::Overflow),
    }
}

/// CosmWasm `Decimal256::checked_pow` on the base 10 (the only base used
/// here), by squaring: `10^exp` exactly while it fits 256 bits of atomic
/// units, that is up to the exponent 59; from the exponent 64 a squaring
/// overflows and the error is returned. For the exponents 60 to 63 only the
/// last product overflows, with `*`, which panics: `requires` excludes them.
#[verifier::external_body]
pub(crate) fn cw_decimal256_checked_pow(a: Decimal256, exp: u32) -> (r: Result<Decimal256, OverflowError>)
    requires
        a@ == 10 * dec_frac(),
        exp < 60 || exp > 63,
    ensures
        match r {
            Ok(v) => exp < 60 && v@ == pow10(exp as nat) * dec_frac(),
            Err(e) => exp > 63 && e.operation == OverflowOperation::Pow,
        },
{
    let x = a.atomics;
    let x = CwDecimal256::new(CwUint256::from_be_bytes([x.hi, x.lo].map(u128::to_be_bytes).concat().try_into().unwrap()));
    match x.checked_pow(exp) {
        Ok(v) => {
            let w: Vec<u128> = v.atomics().to_be_bytes().chunks(16).map(|c| u128::from_be_bytes(c.try_into().unwrap())).collect();
            Ok(Decimal256 { atomics: Uint256 { hi: w[0], lo: w[1] } })
        },
        Err(_) => Err(OverflowError { operation: OverflowOperation::Pow }),
    }
}

/// `s` with zeros in front, up to `n` characters.
pub open spec fn pad_zeros(s: Seq<char>, n: nat) -> Seq<char> {
    if s.len() >= n { s } else { Seq::new((n - s.len()) as nat, |i: int| '0') + s }
}

/// `s` without its trailing zeros.
pub open spec fn trim_trailing_zeros(s: Seq<char>) -> Seq<char>
    decreases s.len(),
{
    if s.len() > 0 && s.last() == '0' { trim_trailing_zeros(s.drop_last()) } else { s }
}

/// The text of a decimal with `atomics` units of 10^-18: the whole part in
/// decimal digits, then, where there is a fractional part, a point and its
/// 18 digits without trailing zeros.
pub open spec fn decimal_display(atomics: int) -> Seq<char> {
    let whole = atomics / dec_frac();
    let frac = atomics % dec_frac();
    if frac == 0 {
        decimal_text(whole as nat)
    } else {
        decimal_text(whole as nat) + seq!['.'] + trim_trailing_zeros(pad_zeros(decimal_text(frac as nat), 18))
    }
}

/// CosmWasm `Decimal`'s `Display`: the whole part, then the fractional
/// digits, padded to 18 places and without trailing zeros.
#[verifier::external_body]
pub(crate) fn cw_decimal_text(d: Decimal) -> (r: String)
    ensures
        r@ == decimal_display(d@),
{
    cosmwasm_std::Decimal::raw(d.atomics).to_string()
}

/// CosmWasm `Decimal256`'s `Display`: the whole part, then the fractional
/// digits, padded to 18 places and without trailing zeros.
#[verifier::external_body]
pub(crate) fn cw_decimal256_text(a: Decimal256) -> (r: String)
    ensures
        r@ == decimal_display(a@),
{
    let x = a.atomics;
    CwDecimal256::new(CwUint256::from_be_bytes([x.hi, x.lo].map(u128::to_be_bytes).concat().try_into().unwrap())).to_string()
}

/// CosmWasm `Decimal256::sqrt`; its result is named by `decimal256_sqrt_atomics`.
#[verifier::external_body]
fn cw_decimal256_sqrt(a: Decimal256) -> (r: Decimal256)
    ensures
        r@ == decimal256_sqrt_atomics(a@),
{
    let x = a.atomics;
    let x = CwDecimal256::new(CwUint256::from_be_bytes([x.hi, x.lo].map(u128::to_be_bytes).concat().try_into().unwrap()));
    let w: Vec<u128> = x.sqrt().atomics().to_be_bytes().chunks(16).map(|c| u128::from_be_bytes(c.try_into().unwrap())).collect();
    Decimal256 { atomics: Uint256 { hi: w[0], lo: w[1] } }
}

/// 10^n.
pub open spec fn pow10(n: nat) -> int
    decreases n,
{
    if n == 0 { 1 } else { 10 * pow10((n - 1) as nat) }
}

/// Powers of ten multiply by adding exponents.
pub proof fn lemma_pow10_adds(a: nat, b: nat)
    ensures
        pow10(a + b) == pow10(a) * pow10(b),
    decreases a,
{
    if a > 0 {
        lemma_pow10_adds((a - 1) as nat, b);
        assert(pow10(a + b) == 10 * pow10((a - 1 + b) as nat));
        assert(10 * (pow10((a - 1) as nat) * pow10(b)) == (10 * pow10((a - 1) as nat)) * pow10(b)) by (nonlinear_arith);
    }
}

/// Powers of ten are positive.
pub proof fn lemma_pow10_positive(a: nat)
    ensures
        pow10(a) >= 1,
    decreases a,
{
    if a > 0 {
        lemma_pow10_positive((a - 1) as nat);
    }
}

/// Powers of ten grow with the exponent.
pub proof fn lemma_pow10_le(a: nat, b: nat)
    requires
        a <= b,
    ensures
        pow10(a) <= pow10(b),
    decreases b,
{
    if a < b {
        lemma_pow10_le(a, (b - 1) as nat);
        lemma_pow10_positive((b - 1) as nat);
    }
}

/// Powers of ten grow strictly with the exponent.
pub proof fn lemma_pow10_lt(a: nat, b: nat)
    requires
        a < b,
    ensures
        pow10(a) * 10 <= pow10(b),
    decreases b,
{
    lemma_pow10_le(a, (b - 1) as nat);
}

/// 10^18 is one whole decimal.
pub proof fn lemma_pow10_18()
    ensures
        pow10(18) == dec_frac(),
{
    reveal_with_fuel(pow10, 19);
}

impl Decimal256 {
    pub fn new(atomics: Uint256) -> (r: Decimal256)
        ensures
            r@ == atomics@,
    {
        Decimal256 { atomics }
    }

    pub fn raw(atomics: u128) -> (r: Decimal256)
        ensures
            r@ == atomics,
    {
        Decimal256 { atomics: Uint256::from_u128(atomics) }
    }

    pub fn zero() -> (r: Decimal256)
        ensures
            r@ == 0,
    {
        Decimal256 { atomics: Uint256::zero() }
    }

    pub fn one() -> (r: Decimal256)
        ensures
            r@ == dec_frac(),
    {
        Decimal256 { atomics: Uint256::from_u128(DECIMAL_FRACTIONAL) }
    }

    pub fn atomics(&self) -> (r: Uint256)
        ensures
            r@ == self@,
    {
        self.atomics
    }

    pub fn numerator(&self) -> (r: Uint256)
        ensures
            r@ == self@,
    {
        self.atomics
    }

    pub fn denominator(&self) -> (r: Uint256)
        ensures
            r@ == dec_frac(),
    {
        Uint256::from_u128(DECIMAL_FRACTIONAL)
    }

    pub fn is_zero(&self) -> (r: bool)
        ensures
            r == (self@ == 0),
    {
        self.atomics.is_zero()
    }

    pub fn lt(&self, other: &Decimal256) -> (r: bool)
        ensures
            r == (self@ < other@),
    {
        self.atomics.lt(&other.atomics)
    }

    pub fn le(&self, other: &Decimal256) -> (r: bool)
        ensures
            r == (self@ <= other@),
    {
        self.atomics.le(&other.atomics)
    }

    pub fn eq_value(&self, other: &Decimal256) -> (r: bool)
        ensures
            r == (self@ == other@),
    {
        self.atomics.eq_value(&other.atomics)
    }

    pub fn checked_add(self, other: Decimal256) -> (r: Result<Decimal256, OverflowError>)
        ensures
            match r {
                Ok(v) => v@ == self@ + other@,
                Err(e) => self@ + other@ >= pow2_256() && e.operation == OverflowOperation::Add,
            },
    {
        match self.atomics.checked_add(&other.atomics) {
            Ok(v) => Ok(Decimal256 { atomics: v }),
            Err(e) => Err(e),
        }
    }

    pub fn checked_sub(self, other: Decimal256) -> (r: Result<Decimal256, OverflowError>)
        ensures
            match r {
                Ok(v) => v@ == self@ - other@,
                Err(e) => self@ < other@ && e.operation == OverflowOperation::Sub,
            },
    {
        match self.atomics.checked_sub(&other.atomics) {
            Ok(v) => Ok(Decimal256 { atomics: v }),
            Err(e) => Err(e),
        }
    }

    /// Product rounded down to 18 places.
    pub fn checked_mul(self, other: Decimal256) -> (r: Result<Decimal256, OverflowError>)
        ensures
            match r {
                Ok(v) => v@ == self@ * other@ / dec_frac(),
                Err(e) => self@ * other@ / dec_frac() >= pow2_256() && e.operation == OverflowOperation::Mul,
            },
    {
        cw_decimal256_checked_mul(self, other)
    }

    /// `n / d` as a decimal, rounded down to 18 places.
    pub fn checked_from_ratio(n: Uint256, d: Uint256) -> (r: Result<Decimal256, CheckedFromRatioError>)
        ensures
            match r {
                Ok(v) => d@ != 0 && v@ == n@ * dec_frac() / d@,
                Err(CheckedFromRatioError::DivideByZero) => d@ == 0,
                Err(CheckedFromRatioError::Overflow) => d@ != 0 && n@ * dec_frac() / d@ >= pow2_256(),
            },
    {
        cw_decimal256_checked_from_ratio(n, d)
    }

    /// Quotient rounded down to 18 places.
    pub fn checked_div(self, other: Decimal256) -> (r: Result<Decimal256, CheckedFromRatioError>)
        ensures
            match r {
                Ok(v) => other@ != 0 && v@ == self@ * dec_frac() / other@,
                Err(CheckedFromRatioError::DivideByZero) => other@ == 0,
                Err(CheckedFromRatioError::Overflow) => other@ != 0 && self@ * dec_frac() / other@ >= pow2_256(),
            },
    {
        cw_decimal256_checked_from_ratio(self.atomics, other.atomics)
    }

    /// The `/` operator: quotient rounded down to 18 places; CosmWasm panics on a
    /// zero divisor or an overflow, which `requires` excludes.
    pub fn div(self, other: Decimal256) -> (r: Decimal256)
        requires
            other@ != 0,
            self@ * dec_frac() / other@ < pow2_256(),
        ensures
            r@ == self@ * dec_frac() / other@,
    {
        match cw_decimal256_checked_from_ratio(self.atomics, other.atomics) {
            Ok(v) => v,
            Err(_) => Decimal256::zero(),
        }
    }


    /// The whole part.
    pub fn to_uint_floor(&self) -> (r: Uint256)
        ensures
            r@ == self@ / dec_frac(),
    {
        match u256_checked_div(self.atomics, Uint256::from_u128(DECIMAL_FRACTIONAL)) {
            Ok(v) => v,
            Err(_) => Uint256::zero(),
        }
    }

    /// The approximate square root that CosmWasm computes.
    pub fn sqrt(&self) -> (r: Decimal256)
        ensures
            r@ == decimal256_sqrt_atomics(self@),
    {
        cw_decimal256_sqrt(*self)
    }

    /// Conversion into a 128-bit decimal; fails when the value needs more than
    /// 128 bits of atomic units.
    pub fn to_decimal(&self) -> (r: Result<Decimal, ConversionOverflowError>)
        ensures
            match r {
                Ok(v) => v@ == self@,
                Err(_) => self@ >= pow2_128(),
            },
    {
        match self.atomics.to_u128() {
            Ok(v) => Ok(Decimal::raw(v)),
            Err(e) => Err(e),
        }
    }
}

} // verus!
