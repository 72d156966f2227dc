//! Greatest common divisors and least common multiples.

use vstd::prelude::*;

verus! {

use vstd::arithmetic::div_mod::lemma_fundamental_div_mod_converse;

/// Absolute value of a mathematical integer.
pub open spec fn abs(x: int) -> nat {
    if x < 0 { (-x) as nat } else { x as nat }
}

/// Greatest common divisor by Euclid's recurrence; `gcd(0, 0) == 0`.
pub open spec fn gcd(a: nat, b: nat) -> nat
    decreases b,
{
    if b == 0 { a } else { gcd(b, a % b) }
}

/// `d` divides `x` exactly.
pub open spec fn divides(d: nat, x: nat) -> bool {
    d > 0 && x % d == 0
}

/// The gcd of two numbers, not both zero, divides both of them.
pub proof fn lemma_gcd_divides(a: nat, b: nat)
    requires
        a > 0 || b > 0,
    ensures
        gcd(a, b) > 0,
        divides(gcd(a, b), a),
        divides(gcd(a, b), b),
    decreases b,
{
    if b > 0 {
        let r = a % b;
        lemma_gcd_divides(b, r);
        let g = gcd(b, r);
        let q = a / b;
        assert(a == q * b + r) by (nonlinear_arith)
            requires b > 0, q == a / b, r == a % b;
        let kb = b / g;
        let kr = r / g;
        assert(b == kb * g && r == kr * g) by (nonlinear_arith)
            requires g > 0, b % g == 0, r % g == 0, kb == b / g, kr == r / g;
        assert(a == (q * kb + kr) * g) by (nonlinear_arith)
            requires a == q * b + r, b == kb * g, r == kr * g;
        assert(0 <= q * kb + kr) by (nonlinear_arith)
            requires q >= 0, kb >= 0, kr >= 0;
        lemma_fundamental_div_mod_converse(a as int, g as int, (q * kb + kr) as int, 0);
    }
}

/// Scaling both arguments scales their gcd.
pub proof fn lemma_gcd_scale(k: nat, a: nat, b: nat)
    requires
        k > 0,
    ensures
        gcd(k * a, k * b) == k * gcd(a, b),
    decreases b,
{
    if b == 0 {
        assert(k * b == 0);
    } else {
        let q = a / b;
        let r = a % b;
        assert(a == q * b + r && 0 <= r < b) by (nonlinear_arith)
            requires b > 0, q == a / b, r == a % b;
        assert(k * a == q * (k * b) + k * r && 0 <= k * r < k * b) by (nonlinear_arith)
            requires k > 0, a == q * b + r, 0 <= r < b;
        lemma_fundamental_div_mod_converse((k * a) as int, (k * b) as int, q as int, (k * r) as int);
        assert(k * b > 0) by (nonlinear_arith) requires k > 0, b > 0;
        assert((k * a) % (k * b) == k * r);
        lemma_gcd_scale(k, b, r);
    }
}

/// Dividing two numbers, not both zero, by their gcd leaves coprime numbers.
pub proof fn lemma_gcd_quotients_coprime(a: nat, b: nat)
    requires
        a > 0 || b > 0,
    ensures
        gcd(a / gcd(a, b), b / gcd(a, b)) == 1,
{
    lemma_gcd_divides(a, b);
    let g = gcd(a, b);
    let x = a / g;
    let y = b / g;
    assert(a == g * x && b == g * y) by (nonlinear_arith)
        requires g > 0, a % g == 0, b % g == 0, x == a / g, y == b / g;
    lemma_gcd_scale(g, x, y);
    assert(g * gcd(x, y) == g * 1);
    assert(gcd(x, y) == 1) by (nonlinear_arith)
        requires g > 0, g * gcd(x, y) == g * 1;
}

/// Euclid's algorithm on unsigned 64-bit numbers.
pub fn gcd_u64(a: u64, b: u64) -> (r: u64)
    ensures
        r == gcd(a as nat, b as nat),
{
    let mut x: u64 = a;
    let mut y: u64 = b;
    while y != 0
        invariant
            gcd(x as nat, y as nat) == gcd(a as nat, b as nat),
        decreases y,
    {
        let t: u64 = x % y;
        x = y;
        y = t;
    }
    x
}

/// Greatest common divisor of `|a|` and `|b|`; zero only when both are zero.
/// Its one value that does not fit an `i32`, 2^31, is left out.
pub fn highest_divisor(a: i32, b: i32) -> (r: i32)
    requires
        !(a == i32::MIN && (b == 0 || b == i32::MIN)),
        !(b == i32::MIN && a == 0),
    ensures
        r == gcd(abs(a as int), abs(b as int)),
{
    let x: u64 = if a < 0 { (-(a as i64)) as u64 } else { a as u64 };
    let y: u64 = if b < 0 { (-(b as i64)) as u64 } else { b as u64 };
    let g = gcd_u64(x, y);
    proof {
        if x > 0 || y > 0 {
            lemma_gcd_divides(x as nat, y as nat);
            if x > 0 {
                assert(g <= x) by (nonlinear_arith)
                    requires g > 0, x > 0, x % g == 0;
            }
            if y > 0 {
                assert(g <= y) by (nonlinear_arith)
                    requires g > 0, y > 0, y % g == 0;
            }
        }
    }
    g as i32
}

/// Least common multiple of `a` and `b` with the sign of `a * b`: the value
/// `a * b / gcd(|a|, |b|)`, and zero when both are zero.
pub open spec fn multiple_of(a: int, b: int) -> int {
    let g = gcd(abs(a), abs(b));
    if g == 0 {
        0
    } else {
        let m = (abs(a) * abs(b)) / g;
        if (a < 0) != (b < 0) { -(m as int) } else { m as int }
    }
}

/// The signed least common multiple `a * b / gcd(|a|, |b|)`, or `None` where it
/// does not fit an `i32`.
pub fn lowest_multiple(a: i32, b: i32) -> (r: Option<i32>)
    ensures
        r == (if i32::MIN <= multiple_of(a as int, b as int) <= i32::MAX {
            Some(multiple_of(a as int, b as int) as i32)
        } else {
            None::<i32>
        }),
{
    let x: u64 = if a < 0 { (-(a as i64)) as u64 } else { a as u64 };
    let y: u64 = if b < 0 { (-(b as i64)) as u64 } else { b as u64 };
    let g = gcd_u64(x, y);
    if g == 0 {
        return Some(0);
    }
    proof {
        lemma_gcd_divides(x as nat, y as nat);
    }
    let q: u64 = x / g;
    assert(q * y == (x * y) / (g as int) && q * y <= 0x4000_0000_0000_0000) by (nonlinear_arith)
        requires g > 0, x % g == 0, q == x / g, x <= 0x8000_0000, y <= 0x8000_0000;
    let m: u64 = q * y;
    if (a < 0) != (b < 0) {
        if m <= 0x8000_0000 {
            Some((-(m as i64)) as i32)
        } else {
            None
        }
    } else {
        if m <= 0x7fff_ffff {
            Some(m as i32)
        } else {
            None
        }
    }
}

} // verus!
