//! Algebraic laws of `Frac32`, stated over the specifications of its operations.

use vstd::prelude::*;

verus! {

use vstd::arithmetic::mul::{
    lemma_mul_is_commutative, lemma_mul_is_distributive_add, lemma_mul_is_distributive_add_other_way,
};
use crate::divisor::{abs, gcd, lemma_gcd_divides, lemma_gcd_quotients_coprime};
use crate::fractions::{
    compare, lowest_den, lowest_num, lowest_terms, precedes, product_of, quotient_of, same_value, signed_num,
    sum_of,
    Frac32, FracError,
};

/// Lowest terms of `n / d`, `d` nonzero: positive denominator, coprime parts,
/// the same value as `n / d`, and unchanged by a second reduction.
pub proof fn lemma_lowest_terms(n: int, d: int)
    requires
        d != 0,
    ensures
        lowest_den(n, d) > 0,
        gcd(abs(lowest_num(n, d)), abs(lowest_den(n, d))) == 1,
        lowest_num(n, d) * d == n * lowest_den(n, d),
        lowest_num(lowest_num(n, d), lowest_den(n, d)) == lowest_num(n, d),
        lowest_den(lowest_num(n, d), lowest_den(n, d)) == lowest_den(n, d),
{
    let x = abs(n);
    let y = abs(d);
    lemma_gcd_divides(x, y);
    lemma_gcd_quotients_coprime(x, y);
    let g = gcd(x, y);
    let p = x / g;
    let q = y / g;
    assert(x == g * p && y == g * q) by (nonlinear_arith)
        requires g > 0, x % g == 0, y % g == 0, p == x / g, q == y / g;
    assert(q > 0) by (nonlinear_arith)
        requires y == g * q, y > 0, g > 0, q >= 0;
    let ln = lowest_num(n, d);
    assert(abs(ln) == p);
    assert(ln * d == n * q) by (nonlinear_arith)
        requires
            x == g * p,
            y == g * q,
            n == x || n == -x,
            d == y || d == -y,
            (n < 0) == (n == -x && x > 0),
            (d < 0) == (d == -y),
            ln == (if (n < 0) != (d < 0) { -p } else { p as int }),
    ;
    assert(p / 1 == p && q / 1 == q);
}

/// Reduction in lowest terms gives the same value and is idempotent; its parts
/// are coprime and the denominator is positive.
pub proof fn law_reduce(x: Frac32)
    requires
        lowest_terms(x.numerator as int, x.denominator as int) is Ok,
    ensures
        ({
            let r = lowest_terms(x.numerator as int, x.denominator as int)->Ok_0;
            &&& lowest_terms(r.numerator as int, r.denominator as int) == Ok::<Frac32, FracError>(r)
            &&& gcd(abs(r.numerator as int), abs(r.denominator as int)) == 1
            &&& r.denominator > 0
            &&& r.numerator * x.denominator == x.numerator * r.denominator
        }),
{
    lemma_lowest_terms(x.numerator as int, x.denominator as int);
}

/// An `Ok` result of `lowest_terms(n, d)` has the value `n / d`.
proof fn lemma_ok_same(n: int, d: int)
    requires
        lowest_terms(n, d) is Ok,
    ensures
        lowest_terms(n, d)->Ok_0.numerator * d == n * lowest_terms(n, d)->Ok_0.denominator,
        lowest_terms(n, d)->Ok_0.denominator > 0,
{
    lemma_lowest_terms(n, d);
}

/// Cross-multiplied equality is transitive through a nonzero middle denominator.
proof fn lemma_cross_trans(x1: int, y1: int, x2: int, y2: int, x3: int, y3: int)
    requires
        y2 != 0,
        x1 * y2 == x2 * y1,
        x2 * y3 == x3 * y2,
    ensures
        x1 * y3 == x3 * y1,
{
    assert(y2 * (x1 * y3 - x3 * y1) == 0) by (nonlinear_arith)
        requires x1 * y2 == x2 * y1, x2 * y3 == x3 * y2;
    assert(x1 * y3 - x3 * y1 == 0) by (nonlinear_arith)
        requires y2 != 0, y2 * (x1 * y3 - x3 * y1) == 0;
}

/// Four factors regrouped: `(a*b)*(c*d) == (a*c)*(b*d)`.
proof fn lemma_regroup(a: int, b: int, c: int, d: int)
    ensures
        (a * b) * (c * d) == (a * c) * (b * d),
{
    assert((a * b) * (c * d) == (a * c) * (b * d)) by (nonlinear_arith);
}

/// Three factors regrouped.
proof fn lemma_regroup3(a: int, b: int, c: int)
    ensures
        (a * b) * c == (a * c) * b,
        a * (b * c) == (a * b) * c,
        a * (c * b) == (a * b) * c,
{
    assert((a * b) * c == (a * c) * b) by (nonlinear_arith);
    assert(a * (b * c) == (a * b) * c) by (nonlinear_arith);
    assert(a * (c * b) == (a * b) * c) by (nonlinear_arith);
}

/// Replacing the left addend `x1/y1` by an equal `x2/y2` keeps the sum's value.
proof fn lemma_sum_congr(x1: int, y1: int, x2: int, y2: int, z: int, w: int)
    requires
        x1 * y2 == x2 * y1,
    ensures
        (x1 * w + z * y1) * (y2 * w) == (x2 * w + z * y2) * (y1 * w),
{
    lemma_mul_is_distributive_add_other_way(y2 * w, x1 * w, z * y1);
    lemma_mul_is_distributive_add_other_way(y1 * w, x2 * w, z * y2);
    lemma_regroup(x1, w, y2, w);
    lemma_regroup(x2, w, y1, w);
    lemma_regroup(z, y1, y2, w);
}

/// Replacing the right addend `x1/y1` by an equal `x2/y2` keeps the sum's value.
proof fn lemma_sum_congr_right(z: int, w: int, x1: int, y1: int, x2: int, y2: int)
    requires
        x1 * y2 == x2 * y1,
    ensures
        (z * y1 + x1 * w) * (w * y2) == (z * y2 + x2 * w) * (w * y1),
{
    lemma_sum_congr(x1, y1, x2, y2, z, w);
    lemma_mul_is_commutative(w, y2);
    lemma_mul_is_commutative(w, y1);
    assert(z * y1 + x1 * w == x1 * w + z * y1);
    assert(z * y2 + x2 * w == x2 * w + z * y2);
}

/// Replacing the left factor `x1/y1` by an equal `x2/y2` keeps the product's value.
proof fn lemma_product_congr(x1: int, y1: int, x2: int, y2: int, z: int, w: int)
    requires
        x1 * y2 == x2 * y1,
    ensures
        (x1 * z) * (y2 * w) == (x2 * z) * (y1 * w),
{
    assert((x1 * z) * (y2 * w) == (x2 * z) * (y1 * w)) by (nonlinear_arith)
        requires x1 * y2 == x2 * y1;
}

/// The sum of `a/b` and `c/d` has the value `(a*d + c*b) / (b*d)`.
pub proof fn law_sum_value(a: i32, b: i32, c: i32, d: i32)
    requires
        b != 0,
        d != 0,
        sum_of(Frac32 { numerator: a, denominator: b }, Frac32 { numerator: c, denominator: d }) is Ok,
    ensures
        ({
            let r = sum_of(Frac32 { numerator: a, denominator: b }, Frac32 { numerator: c, denominator: d })->Ok_0;
            r.numerator * (b * d) == (a * d + c * b) * r.denominator
        }),
{
    lemma_ok_same(a * d + c * b, b * d);
}

/// Addition and multiplication do not depend on the order of their operands.
pub proof fn law_commutative(a: Frac32, b: Frac32)
    ensures
        sum_of(a, b) == sum_of(b, a),
        product_of(a, b) == product_of(b, a),
{
    assert(a.denominator * b.denominator == b.denominator * a.denominator) by (nonlinear_arith);
    assert(a.numerator * b.numerator == b.numerator * a.numerator) by (nonlinear_arith);
}

/// Addition is associative in value wherever both groupings can be formed.
pub proof fn law_add_associative(a: Frac32, b: Frac32, c: Frac32)
    requires
        a.denominator != 0,
        b.denominator != 0,
        c.denominator != 0,
        sum_of(a, b) is Ok,
        sum_of(sum_of(a, b)->Ok_0, c) is Ok,
        sum_of(b, c) is Ok,
        sum_of(a, sum_of(b, c)->Ok_0) is Ok,
    ensures
        same_value(sum_of(sum_of(a, b)->Ok_0, c)->Ok_0, sum_of(a, sum_of(b, c)->Ok_0)->Ok_0),
{
    let (an, ad, bn, bd, cn, cd) = (a.numerator as int, a.denominator as int, b.numerator as int,
        b.denominator as int, c.numerator as int, c.denominator as int);
    let ab = sum_of(a, b)->Ok_0;
    let bc = sum_of(b, c)->Ok_0;
    let l = sum_of(ab, c)->Ok_0;
    let r = sum_of(a, bc)->Ok_0;
    let (s1n, s1d) = (an * bd + bn * ad, ad * bd);
    let (s2n, s2d) = (bn * cd + cn * bd, bd * cd);
    lemma_ok_same(s1n, s1d);
    lemma_ok_same(s2n, s2d);
    let (ln, ld) = (ab.numerator * cd + cn * ab.denominator, ab.denominator * cd);
    let (rn, rd) = (an * bc.denominator + bc.numerator * ad, ad * bc.denominator);
    lemma_ok_same(ln, ld);
    lemma_ok_same(rn, rd);
    let (tn, td) = (s1n * cd + cn * s1d, s1d * cd);
    let (un, ud) = (an * s2d + s2n * ad, ad * s2d);
    lemma_sum_congr(ab.numerator as int, ab.denominator as int, s1n, s1d, cn, cd);
    lemma_sum_congr_right(an, ad, bc.numerator as int, bc.denominator as int, s2n, s2d);
    lemma_mul_is_distributive_add_other_way(cd, an * bd, bn * ad);
    lemma_mul_is_distributive_add_other_way(ad, bn * cd, cn * bd);
    lemma_regroup3(an, bd, cd);
    lemma_regroup3(bn, ad, cd);
    lemma_regroup3(cn, bd, ad);
    lemma_regroup3(ad, bd, cd);
    assert(tn == un && td == ud);
    assert(ld != 0 && td != 0 && rd != 0) by (nonlinear_arith)
        requires
            ab.denominator > 0, bc.denominator > 0, ad != 0, bd != 0, cd != 0,
            ld == ab.denominator * cd, td == (ad * bd) * cd, rd == ad * bc.denominator;
    lemma_cross_trans(l.numerator as int, l.denominator as int, ln, ld, tn, td);
    lemma_cross_trans(l.numerator as int, l.denominator as int, tn, td, rn, rd);
    assert(l.numerator * rd == rn * l.denominator);
    lemma_cross_trans(l.numerator as int, l.denominator as int, rn, rd, r.numerator as int, r.denominator as int);
}

/// Replacing the right factor `x1/y1` by an equal `x2/y2` keeps the product's value.
proof fn lemma_product_congr_right(z: int, w: int, x1: int, y1: int, x2: int, y2: int)
    requires
        x1 * y2 == x2 * y1,
    ensures
        (z * x1) * (w * y2) == (z * x2) * (w * y1),
{
    lemma_regroup(z, x1, w, y2);
    lemma_regroup(z, x2, w, y1);
}

/// Multiplication is associative in value wherever both groupings can be formed.
pub proof fn law_mul_associative(a: Frac32, b: Frac32, c: Frac32)
    requires
        a.denominator != 0,
        b.denominator != 0,
        c.denominator != 0,
        product_of(a, b) is Ok,
        product_of(product_of(a, b)->Ok_0, c) is Ok,
        product_of(b, c) is Ok,
        product_of(a, product_of(b, c)->Ok_0) is Ok,
    ensures
        same_value(
            product_of(product_of(a, b)->Ok_0, c)->Ok_0,
            product_of(a, product_of(b, c)->Ok_0)->Ok_0,
        ),
{
    let (an, ad, bn, bd, cn, cd) = (a.numerator as int, a.denominator as int, b.numerator as int,
        b.denominator as int, c.numerator as int, c.denominator as int);
    let ab = product_of(a, b)->Ok_0;
    let bc = product_of(b, c)->Ok_0;
    let l = product_of(ab, c)->Ok_0;
    let r = product_of(a, bc)->Ok_0;
    lemma_ok_same(an * bn, ad * bd);
    lemma_ok_same(bn * cn, bd * cd);
    let (ln, ld) = (ab.numerator * cn, ab.denominator * cd);
    let (rn, rd) = (an * bc.numerator, ad * bc.denominator);
    lemma_ok_same(ln, ld);
    lemma_ok_same(rn, rd);
    let (tn, td) = ((an * bn) * cn, (ad * bd) * cd);
    lemma_product_congr(ab.numerator as int, ab.denominator as int, an * bn, ad * bd, cn, cd);
    lemma_product_congr_right(an, ad, bc.numerator as int, bc.denominator as int, bn * cn, bd * cd);
    lemma_regroup3(an, bn, cn);
    lemma_regroup3(ad, bd, cd);
    assert(ld != 0 && td != 0 && rd != 0) by (nonlinear_arith)
        requires
            ab.denominator > 0, bc.denominator > 0, ad != 0, bd != 0, cd != 0,
            ld == ab.denominator * cd, td == (ad * bd) * cd, rd == ad * bc.denominator;
    lemma_cross_trans(l.numerator as int, l.denominator as int, ln, ld, tn, td);
    lemma_cross_trans(l.numerator as int, l.denominator as int, tn, td, rn, rd);
    lemma_cross_trans(l.numerator as int, l.denominator as int, rn, rd, r.numerator as int, r.denominator as int);
}

/// Four factors regrouped around the third: `(a*b)*(c*d) == c*(a*(b*d))`.
proof fn lemma_pull_third(a: int, b: int, c: int, d: int)
    ensures
        (a * b) * (c * d) == c * (a * (b * d)),
{
    assert((a * b) * (c * d) == c * (a * (b * d))) by (nonlinear_arith);
}

/// Multiplication distributes over addition in value wherever both sides can be formed.
pub proof fn law_distributive(a: Frac32, b: Frac32, c: Frac32)
    requires
        a.denominator != 0,
        b.denominator != 0,
        c.denominator != 0,
        sum_of(b, c) is Ok,
        product_of(a, sum_of(b, c)->Ok_0) is Ok,
        product_of(a, b) is Ok,
        product_of(a, c) is Ok,
        sum_of(product_of(a, b)->Ok_0, product_of(a, c)->Ok_0) is Ok,
    ensures
        same_value(
            product_of(a, sum_of(b, c)->Ok_0)->Ok_0,
            sum_of(product_of(a, b)->Ok_0, product_of(a, c)->Ok_0)->Ok_0,
        ),
{
    let (an, ad, bn, bd, cn, cd) = (a.numerator as int, a.denominator as int, b.numerator as int,
        b.denominator as int, c.numerator as int, c.denominator as int);
    let bc = sum_of(b, c)->Ok_0;
    let ab = product_of(a, b)->Ok_0;
    let ac = product_of(a, c)->Ok_0;
    let l = product_of(a, bc)->Ok_0;
    let r = sum_of(ab, ac)->Ok_0;
    let (sn, sd) = (bn * cd + cn * bd, bd * cd);
    let (pn, pd) = (an * bn, ad * bd);
    let (qn, qd) = (an * cn, ad * cd);
    lemma_ok_same(sn, sd);
    lemma_ok_same(pn, pd);
    lemma_ok_same(qn, qd);
    let (ln, ld) = (an * bc.numerator, ad * bc.denominator);
    lemma_ok_same(ln, ld);
    let (tn, td) = (an * sn, ad * sd);
    lemma_product_congr_right(an, ad, bc.numerator as int, bc.denominator as int, sn, sd);
    let (r0n, r0d) = (ab.numerator * ac.denominator + ac.numerator * ab.denominator,
        ab.denominator * ac.denominator);
    lemma_ok_same(r0n, r0d);
    let (r1n, r1d) = (pn * ac.denominator + ac.numerator * pd, pd * ac.denominator);
    lemma_sum_congr(ab.numerator as int, ab.denominator as int, pn, pd, ac.numerator as int,
        ac.denominator as int);
    let (r2n, r2d) = (pn * qd + qn * pd, pd * qd);
    lemma_sum_congr_right(pn, pd, ac.numerator as int, ac.denominator as int, qn, qd);
    lemma_pull_third(an, bn, ad, cd);
    lemma_pull_third(an, cn, ad, bd);
    lemma_pull_third(ad, bd, ad, cd);
    lemma_mul_is_distributive_add(an, bn * cd, cn * bd);
    lemma_mul_is_distributive_add(ad, an * (bn * cd), an * (cn * bd));
    assert(r2n == ad * tn && r2d == ad * td);
    lemma_regroup3(tn, ad, td);
    assert(tn * r2d == r2n * td);
    assert(ld != 0 && td != 0 && r0d != 0 && r1d != 0 && r2d != 0) by (nonlinear_arith)
        requires
            bc.denominator > 0, ab.denominator > 0, ac.denominator > 0, ad != 0, bd != 0, cd != 0,
            ld == ad * bc.denominator, td == ad * (bd * cd), r0d == ab.denominator * ac.denominator,
            r1d == (ad * bd) * ac.denominator, r2d == (ad * bd) * (ad * cd);
    lemma_cross_trans(l.numerator as int, l.denominator as int, ln, ld, tn, td);
    lemma_cross_trans(l.numerator as int, l.denominator as int, tn, td, r2n, r2d);
    lemma_cross_trans(r.numerator as int, r.denominator as int, r0n, r0d, r1n, r1d);
    lemma_cross_trans(r.numerator as int, r.denominator as int, r1n, r1d, r2n, r2d);
    lemma_cross_trans(l.numerator as int, l.denominator as int, r2n, r2d, r.numerator as int,
        r.denominator as int);
}

/// Dividing by `b` and multiplying by `b` gives back the value of `a`, for `b` nonzero.
pub proof fn law_div_inverse(a: Frac32, b: Frac32)
    requires
        a.denominator != 0,
        b.denominator != 0,
        b.numerator != 0,
        quotient_of(a, b) is Ok,
        product_of(quotient_of(a, b)->Ok_0, b) is Ok,
    ensures
        same_value(product_of(quotient_of(a, b)->Ok_0, b)->Ok_0, a),
{
    let (an, ad, bn, bd) = (a.numerator as int, a.denominator as int, b.numerator as int,
        b.denominator as int);
    let q = quotient_of(a, b)->Ok_0;
    let m = product_of(q, b)->Ok_0;
    lemma_ok_same(an * bd, ad * bn);
    let (m0n, m0d) = (q.numerator * bn, q.denominator * bd);
    lemma_ok_same(m0n, m0d);
    let (tn, td) = ((an * bd) * bn, (ad * bn) * bd);
    lemma_product_congr(q.numerator as int, q.denominator as int, an * bd, ad * bn, bn, bd);
    assert(tn * ad == an * td) by (nonlinear_arith)
        requires tn == (an * bd) * bn, td == (ad * bn) * bd;
    assert(m0d != 0 && td != 0) by (nonlinear_arith)
        requires q.denominator > 0, ad != 0, bn != 0, bd != 0, m0d == q.denominator * bd,
            td == (ad * bn) * bd;
    lemma_cross_trans(m.numerator as int, m.denominator as int, m0n, m0d, tn, td);
    lemma_cross_trans(m.numerator as int, m.denominator as int, tn, td, an, ad);
}

/// Cross-multiplied equality does not change when signs move off the denominators.
proof fn lemma_same_value_signed(a: Frac32, b: Frac32)
    requires
        a.denominator != 0,
        b.denominator != 0,
    ensures
        same_value(a, b) == (signed_num(a) * abs(b.denominator as int) == signed_num(b) * abs(
            a.denominator as int,
        )),
{
    let (an, ad, bn, bd) = (a.numerator as int, a.denominator as int, b.numerator as int,
        b.denominator as int);
    let sa: int = if ad < 0 { -1 } else { 1 };
    let sb: int = if bd < 0 { -1 } else { 1 };
    assert(signed_num(a) * abs(bd) == (sa * sb) * (an * bd) && signed_num(b) * abs(ad) == (sa * sb) * (bn * ad))
        by (nonlinear_arith)
        requires
            signed_num(a) == sa * an, abs(bd) == sb * bd, signed_num(b) == sb * bn, abs(ad) == sa * ad;
    assert((sa * sb) * (an * bd) == (sa * sb) * (bn * ad) <==> an * bd == bn * ad) by (nonlinear_arith)
        requires sa == 1 || sa == -1, sb == 1 || sb == -1;
}

/// On fractions with nonzero denominators, `precedes` is a strict total order
/// whose incomparable pairs are exactly the pairs of equal value, and the
/// comparison operator reports it.
pub proof fn law_order(a: Frac32, b: Frac32, c: Frac32)
    requires
        a.denominator != 0,
        b.denominator != 0,
        c.denominator != 0,
    ensures
        !precedes(a, a),
        precedes(a, b) && precedes(b, c) ==> precedes(a, c),
        precedes(a, b) ==> !precedes(b, a),
        precedes(a, b) || precedes(b, a) || same_value(a, b),
        same_value(a, b) ==> !precedes(a, b) && !precedes(b, a),
        compare(a, b) == Some(core::cmp::Ordering::Less) <==> precedes(a, b),
        compare(a, b) == Some(core::cmp::Ordering::Equal) <==> same_value(a, b),
        compare(a, b) == Some(core::cmp::Ordering::Greater) <==> precedes(b, a),
{
    lemma_same_value_signed(a, b);
    let (x1, y1) = (signed_num(a), abs(a.denominator as int) as int);
    let (x2, y2) = (signed_num(b), abs(b.denominator as int) as int);
    let (x3, y3) = (signed_num(c), abs(c.denominator as int) as int);
    if precedes(a, b) && precedes(b, c) {
        assert(x1 * y3 < x3 * y1) by (nonlinear_arith)
            requires y1 > 0, y2 > 0, y3 > 0, x1 * y2 < x2 * y1, x2 * y3 < x3 * y2;
    }
}

} // verus!
