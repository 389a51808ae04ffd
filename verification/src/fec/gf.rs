//! Arithmetic in GF(2^8) with the primitive polynomial `x^8 + x^4 + x^3 + x^2 + 1`,
//! and Gauss-Jordan elimination over it.

use vstd::prelude::*;
use crate::fec::linalg;

verus! {

/// Multiplication by `x`, reduced by the field polynomial.
pub open spec fn gf_double(a: u8) -> u8 {
    (a << 1) ^ (if a & 0x80 != 0 {
        0x1du8
    } else {
        0u8
    })
}

/// `a` where the bit of `b` under `mask` is set, zero elsewhere.
pub open spec fn gf_term(a: u8, b: u8, mask: u8) -> u8 {
    if b & mask != 0 {
        a
    } else {
        0
    }
}

/// One Horner step: take in the next lower bit of `b`.
pub open spec fn gf_step(p: u8, a: u8, b: u8, mask: u8) -> u8 {
    gf_double(p) ^ gf_term(a, b, mask)
}

/// Product of two field elements: the polynomial `b` evaluated by Horner's rule, with `a` as
/// the unit.
#[verifier::opaque]
pub open spec fn gf_mul(a: u8, b: u8) -> u8 {
    let p7 = gf_step(0, a, b, 0x80);
    let p6 = gf_step(p7, a, b, 0x40);
    let p5 = gf_step(p6, a, b, 0x20);
    let p4 = gf_step(p5, a, b, 0x10);
    let p3 = gf_step(p4, a, b, 0x08);
    let p2 = gf_step(p3, a, b, 0x04);
    let p1 = gf_step(p2, a, b, 0x02);
    gf_step(p1, a, b, 0x01)
}

/// The multiplicative inverse of a nonzero element.
pub open spec fn gf_inv(a: u8) -> u8 {
    choose|b: u8| gf_mul(a, b) == 1
}

/// Exclusive or is the addition of the field: commutative, associative, with zero as the
/// neutral element and every element its own negative.
pub proof fn lemma_xor(a: u8, b: u8, c: u8)
    by (bit_vector)
    ensures
        a ^ b == b ^ a,
        (a ^ b) ^ c == a ^ (b ^ c),
        a ^ 0 == a,
        0 ^ a == a,
        a ^ a == 0,
        (a ^ b) ^ b == a,
        a ^ b == 0 <==> a == b,
{
}

proof fn lemma_step_double(p: u8, a: u8, b: u8, m: u8)
    by (bit_vector)
    ensures
        gf_step(gf_double(p), gf_double(a), b, m) == gf_double(gf_step(p, a, b, m)),
{
}

/// Doubling the left factor doubles the product.
pub proof fn lemma_mul_double_left(a: u8, b: u8)
    ensures
        gf_mul(gf_double(a), b) == gf_double(gf_mul(a, b)),
{
    reveal(gf_mul);
    let p7 = gf_step(0, a, b, 0x80);
    let p6 = gf_step(p7, a, b, 0x40);
    let p5 = gf_step(p6, a, b, 0x20);
    let p4 = gf_step(p5, a, b, 0x10);
    let p3 = gf_step(p4, a, b, 0x08);
    let p2 = gf_step(p3, a, b, 0x04);
    let p1 = gf_step(p2, a, b, 0x02);
    assert(gf_double(0) == 0) by (bit_vector);
    lemma_step_double(0, a, b, 0x80);
    lemma_step_double(p7, a, b, 0x40);
    lemma_step_double(p6, a, b, 0x20);
    lemma_step_double(p5, a, b, 0x10);
    lemma_step_double(p4, a, b, 0x08);
    lemma_step_double(p3, a, b, 0x04);
    lemma_step_double(p2, a, b, 0x02);
    lemma_step_double(p1, a, b, 0x01);
}

proof fn lemma_step_split(p: u8, q: u8, a: u8, b: u8, c: u8, m: u8)
    by (bit_vector)
    requires
        m == 0x80 || m == 0x40 || m == 0x20 || m == 0x10 || m == 0x08 || m == 0x04 || m == 0x02 || m
            == 0x01,
    ensures
        gf_step(p ^ q, a, b ^ c, m) == gf_step(p, a, b, m) ^ gf_step(q, a, c, m),
{
}

/// Multiplication distributes over addition.
pub proof fn law_mul_distributes(a: u8, b: u8, c: u8)
    ensures
        gf_mul(a, b ^ c) == gf_mul(a, b) ^ gf_mul(a, c),
        gf_mul(b ^ c, a) == gf_mul(b, a) ^ gf_mul(c, a),
{
    law_mul_commutative(a, b ^ c);
    law_mul_commutative(a, b);
    law_mul_commutative(a, c);
    reveal(gf_mul);
    let p7 = gf_step(0, a, b, 0x80);
    let p6 = gf_step(p7, a, b, 0x40);
    let p5 = gf_step(p6, a, b, 0x20);
    let p4 = gf_step(p5, a, b, 0x10);
    let p3 = gf_step(p4, a, b, 0x08);
    let p2 = gf_step(p3, a, b, 0x04);
    let p1 = gf_step(p2, a, b, 0x02);
    let q7 = gf_step(0, a, c, 0x80);
    let q6 = gf_step(q7, a, c, 0x40);
    let q5 = gf_step(q6, a, c, 0x20);
    let q4 = gf_step(q5, a, c, 0x10);
    let q3 = gf_step(q4, a, c, 0x08);
    let q2 = gf_step(q3, a, c, 0x04);
    let q1 = gf_step(q2, a, c, 0x02);
    lemma_xor(0, 0, 0);
    lemma_step_split(0, 0, a, b, c, 0x80);
    lemma_step_split(p7, q7, a, b, c, 0x40);
    lemma_step_split(p6, q6, a, b, c, 0x20);
    lemma_step_split(p5, q5, a, b, c, 0x10);
    lemma_step_split(p4, q4, a, b, c, 0x08);
    lemma_step_split(p3, q3, a, b, c, 0x04);
    lemma_step_split(p2, q2, a, b, c, 0x02);
    lemma_step_split(p1, q1, a, b, c, 0x01);
}

/// Multiplication is commutative.
pub proof fn law_mul_commutative(a: u8, b: u8)
    ensures
        gf_mul(a, b) == gf_mul(b, a),
{
    reveal(gf_mul);
    let p7 = gf_step(0, a, b, 0x80);
    let p6 = gf_step(p7, a, b, 0x40);
    let p5 = gf_step(p6, a, b, 0x20);
    let p4 = gf_step(p5, a, b, 0x10);
    let p3 = gf_step(p4, a, b, 0x08);
    let p2 = gf_step(p3, a, b, 0x04);
    let p1 = gf_step(p2, a, b, 0x02);
    let q7 = gf_step(0, b, a, 0x80);
    let q6 = gf_step(q7, b, a, 0x40);
    let q5 = gf_step(q6, b, a, 0x20);
    let q4 = gf_step(q5, b, a, 0x10);
    let q3 = gf_step(q4, b, a, 0x08);
    let q2 = gf_step(q3, b, a, 0x04);
    let q1 = gf_step(q2, b, a, 0x02);
    assert(gf_step(p1, a, b, 0x01) == gf_step(q1, b, a, 0x01)) by (bit_vector)
        requires
            p7 == gf_step(0, a, b, 0x80),
            p6 == gf_step(p7, a, b, 0x40),
            p5 == gf_step(p6, a, b, 0x20),
            p4 == gf_step(p5, a, b, 0x10),
            p3 == gf_step(p4, a, b, 0x08),
            p2 == gf_step(p3, a, b, 0x04),
            p1 == gf_step(p2, a, b, 0x02),
            q7 == gf_step(0, b, a, 0x80),
            q6 == gf_step(q7, b, a, 0x40),
            q5 == gf_step(q6, b, a, 0x20),
            q4 == gf_step(q5, b, a, 0x10),
            q3 == gf_step(q4, b, a, 0x08),
            q2 == gf_step(q3, b, a, 0x04),
            q1 == gf_step(q2, b, a, 0x02),
    ;
}

/// Zero annihilates and one is neutral.
pub proof fn law_mul_zero_one(a: u8)
    ensures
        gf_mul(a, 0) == 0,
        gf_mul(0, a) == 0,
        gf_mul(a, 1) == a,
        gf_mul(1, a) == a,
{
    law_mul_commutative(a, 0);
    law_mul_commutative(a, 1);
    reveal(gf_mul);
    assert(gf_step(0, a, 0, 0x80) == 0 && gf_step(0, a, 0, 0x40) == 0 && gf_step(0, a, 0, 0x20) == 0
        && gf_step(0, a, 0, 0x10) == 0 && gf_step(0, a, 0, 0x08) == 0 && gf_step(0, a, 0, 0x04) == 0
        && gf_step(0, a, 0, 0x02) == 0 && gf_step(0, a, 0, 0x01) == 0) by (bit_vector);
    assert(gf_step(0, a, 1, 0x80) == 0 && gf_step(0, a, 1, 0x40) == 0 && gf_step(0, a, 1, 0x20) == 0
        && gf_step(0, a, 1, 0x10) == 0 && gf_step(0, a, 1, 0x08) == 0 && gf_step(0, a, 1, 0x04) == 0
        && gf_step(0, a, 1, 0x02) == 0 && gf_step(0, a, 1, 0x01) == a) by (bit_vector);
}

proof fn lemma_step_mul(p: u8, a: u8, b: u8, c: u8, m: u8)
    requires
        m == 0x80 || m == 0x40 || m == 0x20 || m == 0x10 || m == 0x08 || m == 0x04 || m == 0x02 || m
            == 0x01,
    ensures
        gf_step(gf_mul(a, p), gf_mul(a, b), c, m) == gf_mul(a, gf_step(p, b, c, m)),
{
    law_mul_commutative(a, p);
    law_mul_commutative(a, gf_double(p));
    lemma_mul_double_left(p, a);
    law_mul_distributes(a, gf_double(p), gf_term(b, c, m));
    law_mul_zero_one(a);
}

/// Multiplication is associative.
pub proof fn law_mul_associative(a: u8, b: u8, c: u8)
    ensures
        gf_mul(gf_mul(a, b), c) == gf_mul(a, gf_mul(b, c)),
{
    let p7 = gf_step(0, b, c, 0x80);
    let p6 = gf_step(p7, b, c, 0x40);
    let p5 = gf_step(p6, b, c, 0x20);
    let p4 = gf_step(p5, b, c, 0x10);
    let p3 = gf_step(p4, b, c, 0x08);
    let p2 = gf_step(p3, b, c, 0x04);
    let p1 = gf_step(p2, b, c, 0x02);
    law_mul_zero_one(a);
    lemma_step_mul(0, a, b, c, 0x80);
    lemma_step_mul(p7, a, b, c, 0x40);
    lemma_step_mul(p6, a, b, c, 0x20);
    lemma_step_mul(p5, a, b, c, 0x10);
    lemma_step_mul(p4, a, b, c, 0x08);
    lemma_step_mul(p3, a, b, c, 0x04);
    lemma_step_mul(p2, a, b, c, 0x02);
    lemma_step_mul(p1, a, b, c, 0x01);
    assert(gf_mul(b, c) == gf_step(p1, b, c, 0x01)) by {
        reveal(gf_mul);
    }
    let ab = gf_mul(a, b);
    assert(gf_mul(ab, c) == gf_mul(a, gf_step(p1, b, c, 0x01))) by {
        assert(gf_mul(ab, c) == gf_step(gf_mul(a, p1), ab, c, 0x01)) by {
            reveal(gf_mul);
        }
    }
}

/// A product is zero only where a factor is zero.
pub proof fn law_no_zero_divisors(a: u8, b: u8)
    requires
        gf_mul(a, b) == 0,
    ensures
        a == 0 || b == 0,
{
    reveal(gf_mul);
    let p7 = gf_step(0, a, b, 0x80);
    let p6 = gf_step(p7, a, b, 0x40);
    let p5 = gf_step(p6, a, b, 0x20);
    let p4 = gf_step(p5, a, b, 0x10);
    let p3 = gf_step(p4, a, b, 0x08);
    let p2 = gf_step(p3, a, b, 0x04);
    let p1 = gf_step(p2, a, b, 0x02);
    assert(a == 0 || b == 0) by (bit_vector)
        requires
            p7 == gf_step(0, a, b, 0x80),
            p6 == gf_step(p7, a, b, 0x40),
            p5 == gf_step(p6, a, b, 0x20),
            p4 == gf_step(p5, a, b, 0x10),
            p3 == gf_step(p4, a, b, 0x08),
            p2 == gf_step(p3, a, b, 0x04),
            p1 == gf_step(p2, a, b, 0x02),
            gf_step(p1, a, b, 0x01) == 0,
    ;
}

/// The square of `a`, as the linear map it is.
spec fn gf_square(a: u8) -> u8 {
    gf_term(0x01, a, 0x01) ^ gf_term(0x04, a, 0x02) ^ gf_term(0x10, a, 0x04) ^ gf_term(
        0x40,
        a,
        0x08,
    ) ^ gf_term(0x1d, a, 0x10) ^ gf_term(0x74, a, 0x20) ^ gf_term(0xcd, a, 0x40) ^ gf_term(
        0x13,
        a,
        0x80,
    )
}

proof fn lemma_square(a: u8)
    ensures
        gf_mul(a, a) == gf_square(a),
{
    reveal(gf_mul);
    let p7 = gf_step(0, a, a, 0x80);
    let p6 = gf_step(p7, a, a, 0x40);
    let p5 = gf_step(p6, a, a, 0x20);
    let p4 = gf_step(p5, a, a, 0x10);
    let p3 = gf_step(p4, a, a, 0x08);
    let p2 = gf_step(p3, a, a, 0x04);
    let p1 = gf_step(p2, a, a, 0x02);
    assert(gf_step(p1, a, a, 0x01) == gf_square(a)) by (bit_vector)
        requires
            p7 == gf_step(0, a, a, 0x80),
            p6 == gf_step(p7, a, a, 0x40),
            p5 == gf_step(p6, a, a, 0x20),
            p4 == gf_step(p5, a, a, 0x10),
            p3 == gf_step(p4, a, a, 0x08),
            p2 == gf_step(p3, a, a, 0x04),
            p1 == gf_step(p2, a, a, 0x02),
    ;
}

/// The square of a product is the product of the squares.
proof fn lemma_square_mul(a: u8, b: u8)
    ensures
        gf_mul(gf_mul(a, b), gf_mul(a, b)) == gf_mul(gf_mul(a, a), gf_mul(b, b)),
{
    let ab = gf_mul(a, b);
    law_mul_associative(a, b, ab);
    law_mul_commutative(b, ab);
    law_mul_associative(a, b, b);
    law_mul_associative(a, a, gf_mul(b, b));
}

/// Squaring eight times gives the element back.
proof fn lemma_frobenius(a: u8, a2: u8, a4: u8, a8: u8, a16: u8, a32: u8, a64: u8, a128: u8)
    requires
        a2 == gf_mul(a, a),
        a4 == gf_mul(a2, a2),
        a8 == gf_mul(a4, a4),
        a16 == gf_mul(a8, a8),
        a32 == gf_mul(a16, a16),
        a64 == gf_mul(a32, a32),
        a128 == gf_mul(a64, a64),
    ensures
        gf_mul(a128, a128) == a,
{
    lemma_square(a);
    lemma_square(a2);
    lemma_square(a4);
    lemma_square(a8);
    lemma_square(a16);
    lemma_square(a32);
    lemma_square(a64);
    lemma_square(a128);
    assert(gf_square(a128) == a) by (bit_vector)
        requires
            a2 == gf_square(a),
            a4 == gf_square(a2),
            a8 == gf_square(a4),
            a16 == gf_square(a8),
            a32 == gf_square(a16),
            a64 == gf_square(a32),
            a128 == gf_square(a64),
    ;
}

/// The product of the seven higher conjugates of `a`.
spec fn gf_conjugates(a: u8) -> u8 {
    let a2 = gf_mul(a, a);
    let a4 = gf_mul(a2, a2);
    let a8 = gf_mul(a4, a4);
    let a16 = gf_mul(a8, a8);
    let a32 = gf_mul(a16, a16);
    let a64 = gf_mul(a32, a32);
    let a128 = gf_mul(a64, a64);
    gf_mul(a2, gf_mul(a4, gf_mul(a8, gf_mul(a16, gf_mul(a32, gf_mul(a64, a128))))))
}

/// If `sq(q) = t * a` then `sq(h * q) = (sq(h) * t) * a`.
proof fn lemma_shift(a: u8, h: u8, q: u8, t: u8)
    requires
        gf_mul(q, q) == gf_mul(t, a),
    ensures
        gf_mul(gf_mul(h, q), gf_mul(h, q)) == gf_mul(gf_mul(gf_mul(h, h), t), a),
{
    lemma_square_mul(h, q);
    law_mul_associative(gf_mul(h, h), t, a);
}

proof fn lemma_mul_nonzero(a: u8, b: u8)
    requires
        a != 0,
        b != 0,
    ensures
        gf_mul(a, b) != 0,
{
    if gf_mul(a, b) == 0 {
        law_no_zero_divisors(a, b);
    }
}

proof fn lemma_conjugates_invert(a: u8)
    requires
        a != 0,
    ensures
        gf_mul(a, gf_conjugates(a)) == 1,
{
    let a2 = gf_mul(a, a);
    let a4 = gf_mul(a2, a2);
    let a8 = gf_mul(a4, a4);
    let a16 = gf_mul(a8, a8);
    let a32 = gf_mul(a16, a16);
    let a64 = gf_mul(a32, a32);
    let a128 = gf_mul(a64, a64);
    let q6 = gf_mul(a64, a128);
    let q5 = gf_mul(a32, q6);
    let q4 = gf_mul(a16, q5);
    let q3 = gf_mul(a8, q4);
    let q2 = gf_mul(a4, q3);
    let q1 = gf_mul(a2, q2);
    let n = gf_mul(a, q1);
    lemma_frobenius(a, a2, a4, a8, a16, a32, a64, a128);
    law_mul_zero_one(a);
    lemma_shift(a, a64, a128, 1);
    law_mul_zero_one(a128);
    lemma_shift(a, a32, q6, a128);
    lemma_shift(a, a16, q5, q6);
    lemma_shift(a, a8, q4, q5);
    lemma_shift(a, a4, q3, q4);
    lemma_shift(a, a2, q2, q3);
    lemma_shift(a, a, q1, q2);
    law_mul_commutative(q1, a);
    assert(gf_mul(n, n) == n);
    lemma_mul_nonzero(a, a);
    lemma_mul_nonzero(a2, a2);
    lemma_mul_nonzero(a4, a4);
    lemma_mul_nonzero(a8, a8);
    lemma_mul_nonzero(a16, a16);
    lemma_mul_nonzero(a32, a32);
    lemma_mul_nonzero(a64, a64);
    lemma_mul_nonzero(a64, a128);
    lemma_mul_nonzero(a32, q6);
    lemma_mul_nonzero(a16, q5);
    lemma_mul_nonzero(a8, q4);
    lemma_mul_nonzero(a4, q3);
    lemma_mul_nonzero(a2, q2);
    lemma_mul_nonzero(a, q1);
    law_mul_distributes(n, n, 1);
    law_mul_zero_one(n);
    lemma_xor(n, n, 0);
    law_no_zero_divisors(n, n ^ 1);
    lemma_xor(n, 1, 0);
}

/// Every nonzero element times its inverse is one, and nothing else is its inverse.
pub proof fn law_inverse(a: u8)
    requires
        a != 0,
    ensures
        gf_mul(a, gf_inv(a)) == 1,
        gf_mul(gf_inv(a), a) == 1,
        gf_inv(a) != 0,
        forall|b: u8| #[trigger] gf_mul(a, b) == 1 ==> b == gf_inv(a),
{
    lemma_conjugates_invert(a);
    let i = gf_inv(a);
    assert(gf_mul(a, i) == 1);
    law_mul_commutative(a, i);
    law_mul_zero_one(a);
    assert forall|b: u8| #[trigger] gf_mul(a, b) == 1 implies b == i by {
        law_mul_associative(i, a, b);
        law_mul_zero_one(i);
        law_mul_zero_one(b);
    }
}

/// Addition in the field.
pub fn add(a: u8, b: u8) -> (r: u8)
    ensures
        r == a ^ b,
{
    a ^ b
}

fn step(p: u8, a: u8, b: u8, mask: u8) -> (r: u8)
    ensures
        r == gf_step(p, a, b, mask),
{
    let doubled: u8 = (p << 1) ^ if p & 0x80 != 0 {
        0x1d
    } else {
        0
    };
    if b & mask != 0 {
        doubled ^ a
    } else {
        proof {
            lemma_xor(doubled, 0, 0);
        }
        doubled
    }
}

/// Multiplication in the field.
pub fn mul(a: u8, b: u8) -> (r: u8)
    ensures
        r == gf_mul(a, b),
{
    proof {
        reveal(gf_mul);
        law_mul_zero_one(a);
        law_mul_zero_one(b);
    }
    if a == 0 || b == 0 {
        return 0;
    }
    let p7: u8 = step(0, a, b, 0x80);
    let p6: u8 = step(p7, a, b, 0x40);
    let p5: u8 = step(p6, a, b, 0x20);
    let p4: u8 = step(p5, a, b, 0x10);
    let p3: u8 = step(p4, a, b, 0x08);
    let p2: u8 = step(p3, a, b, 0x04);
    let p1: u8 = step(p2, a, b, 0x02);
    step(p1, a, b, 0x01)
}

/// Multiplicative inverse.
pub fn inv(a: u8) -> (r: u8)
    requires
        a != 0,
    ensures
        r == gf_inv(a),
        gf_mul(a, r) == 1,
{
    proof {
        lemma_conjugates_invert(a);
        law_inverse(a);
    }
    let a2: u8 = self::mul(a, a);
    let a4: u8 = self::mul(a2, a2);
    let a8: u8 = self::mul(a4, a4);
    let a16: u8 = self::mul(a8, a8);
    let a32: u8 = self::mul(a16, a16);
    let a64: u8 = self::mul(a32, a32);
    let a128: u8 = self::mul(a64, a64);
    let q6: u8 = self::mul(a64, a128);
    let q5: u8 = self::mul(a32, q6);
    let q4: u8 = self::mul(a16, q5);
    let q3: u8 = self::mul(a8, q4);
    let q2: u8 = self::mul(a4, q3);
    self::mul(a2, q2)
}

/// Division in the field.
pub fn div(a: u8, b: u8) -> (r: u8)
    requires
        b != 0,
    ensures
        r == gf_mul(a, gf_inv(b)),
        gf_mul(r, b) == a,
{
    proof {
        law_inverse(b);
        law_mul_associative(a, gf_inv(b), b);
        law_mul_zero_one(a);
    }
    self::mul(a, inv(b))
}

/// The powers of the generator `x`.
pub open spec fn gf_exp(n: nat) -> u8
    decreases n,
{
    if n == 0 {
        1
    } else {
        gf_double(gf_exp((n - 1) as nat))
    }
}

/// Powers multiply by adding their exponents.
pub proof fn law_exp_add(m: nat, n: nat)
    ensures
        gf_exp(m + n) == gf_mul(gf_exp(m), gf_exp(n)),
    decreases m,
{
    if m == 0 {
        law_mul_zero_one(gf_exp(n));
    } else {
        law_exp_add((m - 1) as nat, n);
        lemma_mul_double_left(gf_exp((m - 1) as nat), gf_exp(n));
        assert(gf_exp(m + n) == gf_double(gf_exp((m + n - 1) as nat)));
    }
}

proof fn lemma_exp_ladder(n: nat)
    ensures
        gf_exp(2 * n) == gf_square(gf_exp(n)),
        gf_exp(2 * n + 1) == gf_double(gf_square(gf_exp(n))),
{
    law_exp_add(n, n);
    lemma_square(gf_exp(n));
}

/// The powers that decide the order of the generator.
proof fn lemma_exp_values()
    ensures
        gf_exp(15) != 1,
        gf_exp(51) != 1,
        gf_exp(85) != 1,
        gf_exp(255) == 1,
{
    assert(gf_double(gf_square(0x01)) == 0x02
        && gf_double(gf_square(0x02)) == 0x08
        && gf_double(gf_square(0x08)) == 0x80
        && gf_double(gf_square(0x80)) == 0x26
        && gf_double(gf_square(0x26)) == 0xc0
        && gf_double(gf_square(0xc0)) == 0xa1
        && gf_double(gf_square(0xa1)) == 0xcc
        && gf_double(gf_square(0xcc)) == 0x01
        && gf_square(0x08) == 0x40
        && gf_square(0x40) == 0xcd
        && gf_double(gf_square(0xcd)) == 0x03
        && gf_double(gf_square(0x03)) == 0x0a
        && gf_square(0x02) == 0x04
        && gf_double(gf_square(0x04)) == 0x20
        && gf_square(0x20) == 0x74
        && gf_double(gf_square(0x74)) == 0x75
        && gf_square(0x75) == 0xb5
        && gf_double(gf_square(0xb5)) == 0xd6) by (bit_vector);
    lemma_exp_ladder(0);
    lemma_exp_ladder(1);
    lemma_exp_ladder(2);
    lemma_exp_ladder(3);
    lemma_exp_ladder(5);
    lemma_exp_ladder(6);
    lemma_exp_ladder(7);
    lemma_exp_ladder(10);
    lemma_exp_ladder(12);
    lemma_exp_ladder(15);
    lemma_exp_ladder(21);
    lemma_exp_ladder(25);
    lemma_exp_ladder(31);
    lemma_exp_ladder(42);
    lemma_exp_ladder(63);
    lemma_exp_ladder(127);
}

proof fn lemma_exp_multiple(d: nat, q: nat)
    requires
        gf_exp(d) == 1,
    ensures
        gf_exp(q * d) == 1,
    decreases q,
{
    if q == 0 {
        assert(q * d == 0);
    } else {
        lemma_exp_multiple(d, (q - 1) as nat);
        assert(q * d == (q - 1) * d + d) by (nonlinear_arith);
        law_exp_add(((q - 1) * d) as nat, d);
        law_mul_zero_one(1);
    }
}

/// The powers of the generator return to one after 255 steps and no sooner.
proof fn lemma_exp_order(n: nat)
    requires
        0 < n < 255,
    ensures
        gf_exp(n) != 1,
    decreases n,
{
    if gf_exp(n) == 1 {
        let q = 255nat / n;
        let r = 255nat % n;
        assert(255nat == q * n + r) by (nonlinear_arith)
            requires
                q == 255nat / n,
                r == 255nat % n,
                n > 0,
        ;
        lemma_exp_multiple(n, q);
        lemma_exp_values();
        law_exp_add(q * n, r);
        law_mul_zero_one(gf_exp(r));
        if r > 0 {
            lemma_exp_order(r);
        }
        let d = n as u8;
        assert(255u8 % d == 0);
        assert(85u8 % d == 0 || 51u8 % d == 0 || 15u8 % d == 0) by (bit_vector)
            requires
                0 < d < 255,
                255u8 % d == 0,
        ;
        if 85u8 % d == 0 {
            lemma_exp_divisor(n, 85);
        } else if 51u8 % d == 0 {
            lemma_exp_divisor(n, 51);
        } else {
            lemma_exp_divisor(n, 15);
        }
    }
}

proof fn lemma_exp_divisor(d: nat, m: nat)
    requires
        d > 0,
        m % d == 0,
        gf_exp(d) == 1,
    ensures
        gf_exp(m) == 1,
{
    assert(m == (m / d) * d) by (nonlinear_arith)
        requires
            d > 0,
            m % d == 0,
    ;
    lemma_exp_multiple(d, m / d);
}

proof fn lemma_exp_nonzero(n: nat)
    ensures
        gf_exp(n) != 0,
    decreases n,
{
    if n > 0 {
        lemma_exp_nonzero((n - 1) as nat);
        law_exp_add(1, (n - 1) as nat);
        assert(gf_double(1) != 0) by (bit_vector);
        assert(gf_exp(1) == gf_double(gf_exp(0)));
        lemma_mul_nonzero(gf_exp(1), gf_exp((n - 1) as nat));
    }
}

/// The first 255 powers of the generator are all different.
pub proof fn law_exp_distinct(i: nat, j: nat)
    requires
        i < j < 255,
    ensures
        gf_exp(i) != gf_exp(j),
{
    if gf_exp(i) == gf_exp(j) {
        let n = (j - i) as nat;
        let a = gf_exp(i);
        law_exp_add(n, i);
        lemma_exp_nonzero(i);
        law_mul_distributes(a, gf_exp(n), 1);
        law_mul_zero_one(a);
        lemma_xor(a, a, 0);
        law_no_zero_divisors(gf_exp(n) ^ 1, a);
        lemma_xor(gf_exp(n), 1, 0);
        lemma_exp_order(n);
    }
}

/// The powers below the `n`-th, as integers.
spec fn powers_below(n: nat) -> Set<int>
    decreases n,
{
    if n == 0 {
        Set::empty()
    } else {
        powers_below((n - 1) as nat).insert(gf_exp((n - 1) as nat) as int)
    }
}

proof fn lemma_powers_below(n: nat)
    requires
        n <= 255,
    ensures
        powers_below(n).finite(),
        powers_below(n).len() == n,
        forall|a: int| #[trigger]
            powers_below(n).contains(a) ==> 1 <= a < 256 && exists|i: nat|
                i < n && a == #[trigger] gf_exp(i),
    decreases n,
{
    if n > 0 {
        let m = (n - 1) as nat;
        lemma_powers_below(m);
        lemma_exp_nonzero(m);
        let p = gf_exp(m) as int;
        if powers_below(m).contains(p) {
            let i = choose|i: nat| i < m && p == #[trigger] gf_exp(i);
            law_exp_distinct(i, m);
        }
        assert forall|a: int| #[trigger] powers_below(n).contains(a) implies 1 <= a < 256
            && exists|i: nat| i < n && a == #[trigger] gf_exp(i) by {
            if a != p {
                assert(powers_below(m).contains(a));
                let i = choose|i: nat| i < m && a == #[trigger] gf_exp(i);
                assert(i < n && a == gf_exp(i));
            }
        }
    }
}

/// Every nonzero element is a power of the generator.
pub proof fn law_exp_reaches_all(a: u8)
    requires
        a != 0,
    ensures
        exists|i: nat| i < 255 && a == #[trigger] gf_exp(i),
{
    let all = vstd::set_lib::set_int_range(1, 256);
    vstd::set_lib::lemma_int_range(1, 256);
    lemma_powers_below(255);
    vstd::set_lib::lemma_subset_equality(powers_below(255), all);
    assert(all.contains(a as int));
}

/// Powers and logarithms to the base of the generator: `exp[i]` is the `i`-th power for every
/// `i` up to 510, and `log[a]` is the exponent below 255 of a nonzero `a`.
fn build_tables() -> (tables: ([u8; 512], [u8; 256]))
    ensures
        forall|i: int| 0 <= i <= 510 ==> tables.0@[i] == gf_exp(i as nat),
        forall|a: u8|
            a != 0 ==> #[trigger] tables.1@[a as int] < 255 && gf_exp(
                tables.1@[a as int] as nat,
            ) == a,
{
    let mut exp: [u8; 512] = [0u8; 512];
    let mut log: [u8; 256] = [0u8; 256];
    let mut x: u8 = 1;
    let mut i: usize = 0;
    while i < 255
        invariant
            i <= 255,
            x == gf_exp(i as nat),
            forall|j: int| 0 <= j < i ==> exp@[j] == gf_exp(j as nat),
            forall|j: int| 255 <= j < i + 255 ==> exp@[j] == gf_exp((j - 255) as nat),
            forall|j: nat| j < i ==> log@[#[trigger] gf_exp(j) as int] == j,
        decreases 255 - i,
    {
        let ghost log0 = log@;
        exp[i] = x;
        exp[i + 255] = x;
        log[x as usize] = i as u8;
        proof {
            assert forall|j: nat| j < i + 1 implies log@[#[trigger] gf_exp(j) as int] == j by {
                if j < i {
                    law_exp_distinct(j, i as nat);
                    assert(log0[gf_exp(j) as int] == j);
                }
            }
        }
        x = step(x, 0, 0, 0);
        proof {
            lemma_xor(gf_double(gf_exp(i as nat)), 0, 0);
            assert(0u8 & 0u8 == 0) by (bit_vector);
        }
        i = i + 1;
    }
    exp[255] = 1;
    exp[510] = 1;
    proof {
        lemma_exp_values();
        assert forall|j: int| 0 <= j <= 510 implies exp@[j] == gf_exp(j as nat) by {
            if j > 255 && j < 510 {
                law_exp_add(255, (j - 255) as nat);
                law_mul_zero_one(gf_exp((j - 255) as nat));
            } else if j == 510 {
                law_exp_add(255, 255);
                law_mul_zero_one(1);
            }
        }
        assert forall|a: u8| a != 0 implies #[trigger] log@[a as int] < 255 && gf_exp(
            log@[a as int] as nat,
        ) == a by {
            law_exp_reaches_all(a);
            let j = choose|j: nat| j < 255 && a == #[trigger] gf_exp(j);
            assert(log@[gf_exp(j) as int] == j);
        }
    }
    (exp, log)
}

/// `dst[i] ^= scalar * src[i]` for every byte.
pub fn mul_add_slice(dst: &mut [u8], src: &[u8], scalar: u8)
    requires
        old(dst)@.len() == src@.len(),
    ensures
        final(dst)@ == Seq::new(src@.len(), |i: int| old(dst)@[i] ^ gf_mul(scalar, src@[i])),
{
    let len: usize = src.len();
    let ghost start = dst@;
    if scalar == 0 {
        proof {
            assert forall|i: int| 0 <= i < len implies start[i] == start[i] ^ gf_mul(
                scalar,
                src@[i],
            ) by {
                law_mul_zero_one(src@[i]);
                lemma_xor(start[i], 0, 0);
            }
            assert(dst@ =~= Seq::new(len as nat, |i: int| start[i] ^ gf_mul(scalar, src@[i])));
        }
        return ;
    }
    let mut i: usize = 0;
    if scalar == 1 {
        while i < len
            invariant
                i <= len,
                scalar == 1,
                len == src@.len(),
                start.len() == len,
                dst@.len() == len,
                forall|j: int| 0 <= j < i ==> dst@[j] == start[j] ^ gf_mul(scalar, src@[j]),
                forall|j: int| i <= j < len ==> dst@[j] == start[j],
            decreases len - i,
        {
            proof {
                law_mul_zero_one(src@[i as int]);
            }
            dst[i] = dst[i] ^ src[i];
            i = i + 1;
        }
    } else {
        let (exp, log) = build_tables();
        let log_s: usize = log[scalar as usize] as usize;
        while i < len
            invariant
                i <= len,
                scalar != 0,
                len == src@.len(),
                start.len() == len,
                dst@.len() == len,
                log_s == log@[scalar as int],
                forall|j: int| 0 <= j <= 510 ==> exp@[j] == gf_exp(j as nat),
                forall|a: u8|
                    a != 0 ==> #[trigger] log@[a as int] < 255 && gf_exp(log@[a as int] as nat)
                        == a,
                forall|j: int| 0 <= j < i ==> dst@[j] == start[j] ^ gf_mul(scalar, src@[j]),
                forall|j: int| i <= j < len ==> dst@[j] == start[j],
            decreases len - i,
        {
            let s: u8 = src[i];
            if s != 0 {
                let log_b: usize = log[s as usize] as usize;
                proof {
                    law_exp_add(log_s as nat, log_b as nat);
                }
                dst[i] = dst[i] ^ exp[log_s + log_b];
            } else {
                proof {
                    law_mul_zero_one(scalar);
                    lemma_xor(dst@[i as int], 0, 0);
                }
            }
            i = i + 1;
        }
    }
    assert(dst@ =~= Seq::new(len as nat, |i: int| start[i] ^ gf_mul(scalar, src@[i])));
}

/// The first `k` rows of a list of rows.
pub open spec fn square(rows: Seq<Vec<u8>>, k: nat) -> Seq<Seq<u8>> {
    Seq::new(k, |i: int| rows[i]@)
}

/// The matrix-vector product of a `k` by `k` matrix.
pub open spec fn apply(a: Seq<Seq<u8>>, x: Seq<u8>, k: nat) -> Seq<u8> {
    Seq::new(k, |i: int| linalg::dot(a[i], x, k))
}

/// Each of the two matrices undoes the other.
pub open spec fn mutually_inverse(a: Seq<Seq<u8>>, b: Seq<Seq<u8>>, k: nat) -> bool {
    forall|x: Seq<u8>|
        x.len() == k ==> #[trigger] apply(a, apply(b, x, k), k) == x && apply(b, apply(a, x, k), k)
            == x
}

/// The matrix maps some nonzero vector to zero.
pub open spec fn singular(a: Seq<Seq<u8>>, k: nat) -> bool {
    exists|v: Seq<u8>| linalg::dependency(a, v, k)
}

/// A matrix with an inverse is not singular.
pub proof fn law_inverse_excludes_singular(a: Seq<Seq<u8>>, b: Seq<Seq<u8>>, k: nat)
    requires
        a.len() == k,
        mutually_inverse(a, b, k),
    ensures
        !singular(a, k),
{
    if singular(a, k) {
        let v = choose|v: Seq<u8>| linalg::dependency(a, v, k);
        let zero = apply(a, v, k);
        assert(apply(a, apply(b, v, k), k) == v);
        assert(apply(b, zero, k) == v);
        assert forall|i: int| 0 <= i < k implies zero[i] == 0 by {
            assert(linalg::dot(a[i], v, k) == 0);
        }
        assert forall|i: int| 0 <= i < k implies v[i] == 0 by {
            linalg::lemma_dot_zero(b[i], zero, k);
            assert(apply(b, zero, k)[i] == linalg::dot(b[i], zero, k));
        }
    }
}

/// The augmented rows `[a | identity]`.
spec fn augmented(a: Seq<Seq<u8>>, k: nat) -> Seq<Seq<u8>> {
    Seq::new(
        k,
        |i: int|
            Seq::new(
                2 * k,
                |j: int|
                    if j < k {
                        a[i][j]
                    } else if j == k + i {
                        1u8
                    } else {
                        0u8
                    },
            ),
    )
}

/// The right half of a reduced `[a | identity]` is the inverse of `a`.
proof fn lemma_augmented_inverse(
    a: Seq<Seq<u8>>,
    rows: Seq<Seq<u8>>,
    b: Seq<Seq<u8>>,
    k: nat,
)
    requires
        linalg::shaped(a, k, k),
        linalg::shaped(rows, k, 2 * k),
        linalg::shaped(b, k, k),
        linalg::row_equivalent(augmented(a, k), rows, 2 * k),
        linalg::unit_columns(rows, k as int),
        forall|i: int, j: int| 0 <= i < k && 0 <= j < k ==> #[trigger] b[i][j] == rows[i][k + j],
    ensures
        mutually_inverse(a, b, k),
{
    let aug = augmented(a, k);
    let n = 2 * k;
    assert forall|x: Seq<u8>| x.len() == k implies #[trigger] apply(a, apply(b, x, k), k) == x
        && apply(b, apply(a, x, k), k) == x by {
        // what a pair of halves gives in each row
        assert forall|p: Seq<u8>, q: Seq<u8>, i: int|
            p.len() == k && q.len() == k && 0 <= i < k implies #[trigger] linalg::dot(aug[i], p + q, n)
            == linalg::dot(a[i], p, k) ^ q[i] by {
            let y = p + q;
            let left = aug[i].subrange(k as int, n as int);
            linalg::lemma_dot_split(aug[i], y, left, q, k, k);
            linalg::lemma_dot_same(aug[i], y, a[i], p, k);
            linalg::lemma_dot_single(left, q, k, i);
            law_mul_zero_one(q[i]);
        }
        assert forall|p: Seq<u8>, q: Seq<u8>, i: int|
            p.len() == k && q.len() == k && 0 <= i < k implies #[trigger] linalg::dot(rows[i], p + q, n)
            == p[i] ^ linalg::dot(b[i], q, k) by {
            let y = p + q;
            let left = rows[i].subrange(k as int, n as int);
            linalg::lemma_dot_split(rows[i], y, left, q, k, k);
            linalg::lemma_dot_same(left, q, b[i], q, k);
            assert forall|j: int| 0 <= j < k && j != i implies rows[i][j] == 0 by {}
            linalg::lemma_dot_single(rows[i], y, k, i);
            assert(rows[i][i] == 1);
            law_mul_zero_one(y[i]);
        }
        let bx = apply(b, x, k);
        let ax = apply(a, x, k);
        assert(linalg::annihilates(rows, bx + x, n)) by {
            assert forall|i: int| 0 <= i < rows.len() implies linalg::dot(#[trigger] rows[i], bx + x, n)
                == 0 by {
                lemma_xor(bx[i], 0, 0);
            }
        }
        assert(linalg::annihilates(aug, bx + x, n));
        assert(apply(a, bx, k) =~= x) by {
            assert forall|i: int| 0 <= i < k implies linalg::dot(a[i], bx, k) == x[i] by {
                assert(linalg::dot(aug[i], bx + x, n) == 0);
                lemma_xor(linalg::dot(a[i], bx, k), x[i], 0);
            }
        }
        assert(linalg::annihilates(aug, x + ax, n)) by {
            assert forall|i: int| 0 <= i < aug.len() implies linalg::dot(#[trigger] aug[i], x + ax, n)
                == 0 by {
                lemma_xor(ax[i], 0, 0);
            }
        }
        assert(linalg::annihilates(rows, x + ax, n));
        assert(apply(b, ax, k) =~= x) by {
            assert forall|i: int| 0 <= i < k implies linalg::dot(b[i], ax, k) == x[i] by {
                assert(linalg::dot(rows[i], x + ax, n) == 0);
                lemma_xor(x[i], linalg::dot(b[i], ax, k), 0);
            }
        }
    }
}

/// Inverts the `k` by `k` matrix in the first `k` rows in place, by Gauss-Jordan elimination.
/// Returns false, and leaves the matrix as it was, if it is singular.
pub fn invert_matrix(mat: &mut [Vec<u8>], k: usize) -> (ok: bool)
    requires
        k <= old(mat)@.len(),
        2 * k <= usize::MAX,
        forall|i: int| 0 <= i < k ==> (#[trigger] old(mat)@[i])@.len() == k,
    ensures
        ok <==> !singular(square(old(mat)@, k as nat), k as nat),
        ok ==> mutually_inverse(
            square(old(mat)@, k as nat),
            square(final(mat)@, k as nat),
            k as nat,
        ),
        final(mat)@.len() == old(mat)@.len(),
        forall|i: int| 0 <= i < k ==> (#[trigger] final(mat)@[i])@.len() == k,
        forall|i: int| k <= i < old(mat)@.len() ==> #[trigger] final(mat)@[i] == old(mat)@[i],
        !ok ==> final(mat)@ == old(mat)@,
{
    let ghost start = mat@;
    let ghost a = square(start, k as nat);
    let n: usize = 2 * k;
    let mut aug: Vec<Vec<u8>> = Vec::with_capacity(k);
    for i in 0..k
        invariant
            k <= mat@.len(),
            mat@ == start,
            n == 2 * k,
            aug.len() == i,
            a == square(start, k as nat),
            forall|t: int| 0 <= t < k ==> (#[trigger] start[t])@.len() == k,
            forall|t: int| 0 <= t < i ==> (#[trigger] aug[t])@ == augmented(a, k as nat)[t],
    {
        let mut row: Vec<u8> = mat[i].clone();
        row.resize(n, 0);
        row.set(k + i, 1);
        proof {
            assert(start[i as int]@.len() == k);
            assert(row@ =~= augmented(a, k as nat)[i as int]);
        }
        aug.push(row);
    }
    proof {
        assert(linalg::table(aug@) =~= augmented(a, k as nat));
    }
    let ok: bool = linalg::reduce_rows(&mut aug, k, n);
    let ghost rows = linalg::table(aug@);
    if !ok {
        proof {
            let v = choose|v: Seq<u8>| linalg::dependency(augmented(a, k as nat), v, k as nat);
            assert(linalg::dependency(a, v, k as nat)) by {
                assert forall|i: int| 0 <= i < k implies linalg::dot(#[trigger] a[i], v, k as nat) == 0 by {
                    assert(linalg::dot(augmented(a, k as nat)[i], v, k as nat) == 0);
                    linalg::lemma_dot_same(a[i], v, augmented(a, k as nat)[i], v, k as nat);
                }
            }
        }
        return false;
    }
    let mut i: usize = 0;
    while i < k
        invariant
            i <= k <= mat@.len(),
            n == 2 * k,
            aug.len() == k,
            mat@.len() == start.len(),
            rows == linalg::table(aug@),
            linalg::shaped(rows, k as nat, n as nat),
            forall|t: int| 0 <= t < i ==> (#[trigger] mat@[t])@ == rows[t].subrange(k as int, n as int),
            forall|t: int| k <= t < start.len() ==> #[trigger] mat@[t] == start[t],
        decreases k - i,
    {
        let mut right: Vec<u8> = Vec::with_capacity(k);
        assert(rows[i as int].len() == n);
        for j in 0..k
            invariant
                i < k,
                n == 2 * k,
                aug.len() == k,
                rows == linalg::table(aug@),
                rows[i as int].len() == n,
                right@ == rows[i as int].subrange(k as int, k + j),
        {
            right.push(aug[i][k + j]);
            assert(right@ =~= rows[i as int].subrange(k as int, k + j + 1));
        }
        mat[i] = right;
        i = i + 1;
    }
    proof {
        let b = square(mat@, k as nat);
        assert forall|t: int| 0 <= t < k implies (#[trigger] b[t]).len() == k by {
            assert(rows[t].len() == n);
            assert(mat@[t]@ == rows[t].subrange(k as int, n as int));
        }
        assert forall|t: int, j: int| 0 <= t < k && 0 <= j < k implies #[trigger] b[t][j]
            == rows[t][k + j] by {
            assert(mat@[t]@ == rows[t].subrange(k as int, n as int));
        }
        assert(linalg::shaped(a, k as nat, k as nat)) by {
            assert forall|t: int| 0 <= t < k implies (#[trigger] a[t]).len() == k by {
                assert(start[t]@.len() == k);
            }
        }
        lemma_augmented_inverse(a, rows, b, k as nat);
        law_inverse_excludes_singular(a, b, k as nat);
    }
    true
}

} // verus!
