//! The `Frac32` fraction type: lowest terms, sign carried by the numerator,
//! products formed in wide integers and narrowed back only when they fit.

use vstd::prelude::*;

verus! {

use core::cmp::Ordering;
use crate::divisor::{abs, gcd, gcd_u64, lemma_gcd_divides};

/// A fraction `numerator / denominator` of two `i32`s. Construction checks
/// nothing; a zero denominator is reported when the fraction is reduced or
/// takes part in arithmetic.
#[derive(Clone, Copy, Debug, Eq)]
pub struct Frac32 {
    pub numerator: i32,
    pub denominator: i32,
}

/// Why an arithmetic result could not be formed.
#[derive(Clone, Copy, Debug, PartialEq, Eq, Structural)]
pub enum FracError {
    /// The resulting denominator is zero.
    DivisionByZero,
    /// The result in lowest terms does not fit `i32`.
    Overflow,
}

/// `x` is within the range of `i32`.
pub open spec fn fits_i32(x: int) -> bool {
    i32::MIN <= x <= i32::MAX
}

/// Numerator of `n / d` in lowest terms: `|n| / gcd(|n|, |d|)`, negative
/// exactly when the value is.
pub open spec fn lowest_num(n: int, d: int) -> int {
    let m = abs(n) / gcd(abs(n), abs(d));
    if (n < 0) != (d < 0) { -(m as int) } else { m as int }
}

/// Denominator of `n / d` in lowest terms: `|d| / gcd(|n|, |d|)`, positive.
pub open spec fn lowest_den(n: int, d: int) -> int {
    (abs(d) / gcd(abs(n), abs(d))) as int
}

/// The fraction `n / d` in lowest terms, or the reason it cannot be an `Frac32`.
pub open spec fn lowest_terms(n: int, d: int) -> Result<Frac32, FracError> {
    if d == 0 {
        Err(FracError::DivisionByZero)
    } else if fits_i32(lowest_num(n, d)) && fits_i32(lowest_den(n, d)) {
        Ok(Frac32 { numerator: lowest_num(n, d) as i32, denominator: lowest_den(n, d) as i32 })
    } else {
        Err(FracError::Overflow)
    }
}

/// Reduces the wide fraction `n / d` and narrows it to `i32` parts.
fn lowest_terms_wide(n: i128, d: i128) -> (r: Result<Frac32, FracError>)
    requires
        abs(n as int) <= 0x8000_0000_0000_0000,
        abs(d as int) <= 0x8000_0000_0000_0000,
    ensures
        r == lowest_terms(n as int, d as int),
{
    if d == 0 {
        return Err(FracError::DivisionByZero);
    }
    let x: u64 = if n < 0 { (-n) as u64 } else { n as u64 };
    let y: u64 = if d < 0 { (-d) as u64 } else { d as u64 };
    let g = gcd_u64(x, y);
    proof {
        lemma_gcd_divides(x as nat, y as nat);
    }
    let p: u64 = x / g;
    let q: u64 = y / g;
    if q > 0x7fff_ffff {
        return Err(FracError::Overflow);
    }
    if (n < 0) != (d < 0) {
        if p <= 0x8000_0000 {
            Ok(Frac32 { numerator: (-(p as i64)) as i32, denominator: q as i32 })
        } else {
            Err(FracError::Overflow)
        }
    } else {
        if p <= 0x7fff_ffff {
            Ok(Frac32 { numerator: p as i32, denominator: q as i32 })
        } else {
            Err(FracError::Overflow)
        }
    }
}

impl Frac32 {
    /// The fraction `1 / 1`.
    pub fn one() -> (r: Frac32)
        ensures
            r.numerator == 1,
            r.denominator == 1,
    {
        Frac32 { numerator: 1, denominator: 1 }
    }

    /// The fraction `num / den`, as given.
    pub fn new(num: i32, den: i32) -> (r: Frac32)
        ensures
            r.numerator == num,
            r.denominator == den,
    {
        Frac32 { numerator: num, denominator: den }
    }

    /// This fraction in lowest terms with a positive denominator.
    pub fn elem(self) -> (r: Result<Frac32, FracError>)
        ensures
            r == lowest_terms(self.numerator as int, self.denominator as int),
    {
        lowest_terms_wide(self.numerator as i128, self.denominator as i128)
    }
}

/// `a` and `b` name the same value by cross-multiplication:
/// `a.numerator * b.denominator == b.numerator * a.denominator`.
pub open spec fn same_value(a: Frac32, b: Frac32) -> bool {
    a.numerator * b.denominator == b.numerator * a.denominator
}

/// The product `x * y`, formed in 64 bits.
fn wide_mul(x: i32, y: i32) -> (r: i64)
    ensures
        r == x * y,
        abs(r as int) <= 0x4000_0000_0000_0000,
{
    assert(i64::MIN < x * y <= 0x4000_0000_0000_0000 && -0x4000_0000_0000_0000 <= x * y)
        by (nonlinear_arith)
        requires i32::MIN <= x <= i32::MAX, i32::MIN <= y <= i32::MAX;
    (x as i64) * (y as i64)
}

impl PartialEq for Frac32 {
    /// Equality of values by cross-multiplication.
    fn eq(&self, other: &Frac32) -> (r: bool) {
        wide_mul(self.numerator, other.denominator) == wide_mul(other.numerator, self.denominator)
    }
}

impl vstd::std_specs::cmp::PartialEqSpecImpl for Frac32 {
    open spec fn obeys_eq_spec() -> bool {
        true
    }

    open spec fn eq_spec(&self, other: &Frac32) -> bool {
        same_value(*self, *other)
    }
}

/// `a + b` in lowest terms.
pub open spec fn sum_of(a: Frac32, b: Frac32) -> Result<Frac32, FracError> {
    lowest_terms(
        a.numerator * b.denominator + b.numerator * a.denominator,
        a.denominator * b.denominator,
    )
}

/// `a - b` in lowest terms.
pub open spec fn difference_of(a: Frac32, b: Frac32) -> Result<Frac32, FracError> {
    lowest_terms(
        a.numerator * b.denominator - b.numerator * a.denominator,
        a.denominator * b.denominator,
    )
}

/// `a * b` in lowest terms.
pub open spec fn product_of(a: Frac32, b: Frac32) -> Result<Frac32, FracError> {
    lowest_terms(a.numerator * b.numerator, a.denominator * b.denominator)
}

/// `a / b` in lowest terms: `a` times `b` turned over.
pub open spec fn quotient_of(a: Frac32, b: Frac32) -> Result<Frac32, FracError> {
    lowest_terms(a.numerator * b.denominator, a.denominator * b.numerator)
}

/// The fraction inside an `Ok`; `fallback` otherwise.
pub open spec fn ok_or(r: Result<Frac32, FracError>, fallback: Frac32) -> Frac32 {
    match r {
        Ok(f) => f,
        Err(_) => fallback,
    }
}

impl Frac32 {
    /// `self + other` in lowest terms.
    pub fn checked_add(self, other: Frac32) -> (r: Result<Frac32, FracError>)
        ensures
            r == sum_of(self, other),
    {
        let p = wide_mul(self.numerator, other.denominator) as i128
            + wide_mul(other.numerator, self.denominator) as i128;
        let q = wide_mul(self.denominator, other.denominator) as i128;
        lowest_terms_wide(p, q)
    }

    /// `self - other` in lowest terms.
    pub fn checked_sub(self, other: Frac32) -> (r: Result<Frac32, FracError>)
        ensures
            r == difference_of(self, other),
    {
        let p = wide_mul(self.numerator, other.denominator) as i128
            - wide_mul(other.numerator, self.denominator) as i128;
        let q = wide_mul(self.denominator, other.denominator) as i128;
        lowest_terms_wide(p, q)
    }

    /// `self * other` in lowest terms.
    pub fn checked_mul(self, other: Frac32) -> (r: Result<Frac32, FracError>)
        ensures
            r == product_of(self, other),
    {
        let p = wide_mul(self.numerator, other.numerator) as i128;
        let q = wide_mul(self.denominator, other.denominator) as i128;
        lowest_terms_wide(p, q)
    }

    /// `self / other` in lowest terms; `DivisionByZero` when `other` is zero.
    pub fn checked_div(self, other: Frac32) -> (r: Result<Frac32, FracError>)
        ensures
            r == quotient_of(self, other),
    {
        let p = wide_mul(self.numerator, other.denominator) as i128;
        let q = wide_mul(self.denominator, other.numerator) as i128;
        lowest_terms_wide(p, q)
    }
}

impl core::ops::Add for Frac32 {
    type Output = Frac32;

    /// `self + other` in lowest terms, for operands whose sum is representable.
    fn add(self, other: Frac32) -> (r: Frac32) {
        match self.checked_add(other) {
            Ok(f) => f,
            // not reached: the operator's precondition asks for an `Ok` result
            Err(_) => self,
        }
    }
}

impl vstd::std_specs::ops::AddSpecImpl for Frac32 {
    open spec fn obeys_add_spec() -> bool {
        true
    }

    open spec fn add_req(self, other: Frac32) -> bool {
        sum_of(self, other) is Ok
    }

    open spec fn add_spec(self, other: Frac32) -> Frac32 {
        ok_or(sum_of(self, other), self)
    }
}

impl core::ops::Sub for Frac32 {
    type Output = Frac32;

    /// `self - other` in lowest terms, for operands whose difference is representable.
    fn sub(self, other: Frac32) -> (r: Frac32) {
        match self.checked_sub(other) {
            Ok(f) => f,
            // not reached: the operator's precondition asks for an `Ok` result
            Err(_) => self,
        }
    }
}

impl vstd::std_specs::ops::SubSpecImpl for Frac32 {
    open spec fn obeys_sub_spec() -> bool {
        true
    }

    open spec fn sub_req(self, other: Frac32) -> bool {
        difference_of(self, other) is Ok
    }

    open spec fn sub_spec(self, other: Frac32) -> Frac32 {
        ok_or(difference_of(self, other), self)
    }
}

impl core::ops::Mul for Frac32 {
    type Output = Frac32;

    /// `self * other` in lowest terms, for operands whose product is representable.
    fn mul(self, other: Frac32) -> (r: Frac32) {
        match self.checked_mul(other) {
            Ok(f) => f,
            // not reached: the operator's precondition asks for an `Ok` result
            Err(_) => self,
        }
    }
}

impl vstd::std_specs::ops::MulSpecImpl for Frac32 {
    open spec fn obeys_mul_spec() -> bool {
        true
    }

    open spec fn mul_req(self, other: Frac32) -> bool {
        product_of(self, other) is Ok
    }

    open spec fn mul_spec(self, other: Frac32) -> Frac32 {
        ok_or(product_of(self, other), self)
    }
}

impl core::ops::Div for Frac32 {
    type Output = Frac32;

    /// `self / other` in lowest terms, for operands whose quotient is representable.
    fn div(self, other: Frac32) -> (r: Frac32) {
        match self.checked_div(other) {
            Ok(f) => f,
            // not reached: the operator's precondition asks for an `Ok` result
            Err(_) => self,
        }
    }
}

impl vstd::std_specs::ops::DivSpecImpl for Frac32 {
    open spec fn obeys_div_spec() -> bool {
        true
    }

    open spec fn div_req(self, other: Frac32) -> bool {
        quotient_of(self, other) is Ok
    }

    open spec fn div_spec(self, other: Frac32) -> Frac32 {
        ok_or(quotient_of(self, other), self)
    }
}

impl Frac32 {
    /// Replaces `self` with `self + other` where that can be formed; leaves
    /// it unchanged and returns the error otherwise.
    pub fn add_assign(&mut self, other: Frac32) -> (r: Result<(), FracError>)
        ensures
            match sum_of(*old(self), other) {
                Ok(f) => r is Ok && *final(self) == f,
                Err(e) => r == Err::<(), FracError>(e) && *final(self) == *old(self),
            },
    {
        match self.checked_add(other) {
            Ok(f) => {
                *self = f;
                Ok(())
            },
            Err(e) => Err(e),
        }
    }

    /// Replaces `self` with `self - other` where that can be formed; leaves
    /// it unchanged and returns the error otherwise.
    pub fn sub_assign(&mut self, other: Frac32) -> (r: Result<(), FracError>)
        ensures
            match difference_of(*old(self), other) {
                Ok(f) => r is Ok && *final(self) == f,
                Err(e) => r == Err::<(), FracError>(e) && *final(self) == *old(self),
            },
    {
        match self.checked_sub(other) {
            Ok(f) => {
                *self = f;
                Ok(())
            },
            Err(e) => Err(e),
        }
    }

    /// Replaces `self` with `self * other` where that can be formed; leaves
    /// it unchanged and returns the error otherwise.
    pub fn mul_assign(&mut self, other: Frac32) -> (r: Result<(), FracError>)
        ensures
            match product_of(*old(self), other) {
                Ok(f) => r is Ok && *final(self) == f,
                Err(e) => r == Err::<(), FracError>(e) && *final(self) == *old(self),
            },
    {
        match self.checked_mul(other) {
            Ok(f) => {
                *self = f;
                Ok(())
            },
            Err(e) => Err(e),
        }
    }

    /// Replaces `self` with `self / other` where that can be formed; leaves
    /// it unchanged and returns the error otherwise.
    pub fn div_assign(&mut self, other: Frac32) -> (r: Result<(), FracError>)
        ensures
            match quotient_of(*old(self), other) {
                Ok(f) => r is Ok && *final(self) == f,
                Err(e) => r == Err::<(), FracError>(e) && *final(self) == *old(self),
            },
    {
        match self.checked_div(other) {
            Ok(f) => {
                *self = f;
                Ok(())
            },
            Err(e) => Err(e),
        }
    }
}

/// Numerator of `f` once the sign is moved off the denominator.
pub open spec fn signed_num(f: Frac32) -> int {
    if f.denominator < 0 { -f.numerator } else { f.numerator as int }
}

/// The value of `a` is below the value of `b`; both denominators are nonzero.
pub open spec fn precedes(a: Frac32, b: Frac32) -> bool {
    &&& a.denominator != 0
    &&& b.denominator != 0
    &&& signed_num(a) * abs(b.denominator as int) < signed_num(b) * abs(a.denominator as int)
}

/// Order of the values of `a` and `b`; none where a denominator is zero.
pub open spec fn compare(a: Frac32, b: Frac32) -> Option<Ordering> {
    if a.denominator == 0 || b.denominator == 0 {
        None
    } else if precedes(a, b) {
        Some(Ordering::Less)
    } else if precedes(b, a) {
        Some(Ordering::Greater)
    } else {
        Some(Ordering::Equal)
    }
}

/// `signed_num(a) * |b.denominator|`, formed in 64 bits.
fn signed_cross(a: Frac32, b: Frac32) -> (r: i64)
    ensures
        r == signed_num(a) * abs(b.denominator as int),
{
    let n: i64 = if a.denominator < 0 { -(a.numerator as i64) } else { a.numerator as i64 };
    let d: i64 = if b.denominator < 0 { -(b.denominator as i64) } else { b.denominator as i64 };
    assert(-0x4000_0000_0000_0000 <= n * d <= 0x4000_0000_0000_0000) by (nonlinear_arith)
        requires -0x8000_0000 <= n <= 0x8000_0000, 0 <= d <= 0x8000_0000;
    n * d
}

impl PartialOrd for Frac32 {
    /// Order of values; `None` where either denominator is zero.
    fn partial_cmp(&self, other: &Frac32) -> (r: Option<Ordering>) {
        if self.denominator == 0 || other.denominator == 0 {
            return None;
        }
        let l = signed_cross(*self, *other);
        let g = signed_cross(*other, *self);
        if l < g {
            Some(Ordering::Less)
        } else if g < l {
            Some(Ordering::Greater)
        } else {
            Some(Ordering::Equal)
        }
    }
}

impl vstd::std_specs::cmp::PartialOrdSpecImpl for Frac32 {
    open spec fn obeys_partial_cmp_spec() -> bool {
        true
    }

    open spec fn partial_cmp_spec(&self, other: &Frac32) -> Option<Ordering> {
        compare(*self, *other)
    }
}

} // verus!
