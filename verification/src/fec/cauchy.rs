//! Cauchy matrices over GF(2^8): every square one is regular.

use vstd::prelude::*;
use crate::fec::gf;
use crate::fec::linalg;

verus! {

/// The reciprocals of the distances from `x` to each of `ys`.
pub open spec fn reciprocals(x: u8, ys: Seq<u8>) -> Seq<u8> {
    Seq::new(ys.len(), |s: int| gf::gf_inv(x ^ ys[s]))
}

/// No value occurs twice.
pub open spec fn distinct(xs: Seq<u8>) -> bool {
    forall|i: int, j: int| 0 <= i < j < xs.len() ==> xs[i] != xs[j]
}

/// No value of one occurs in the other.
pub open spec fn disjoint(xs: Seq<u8>, ys: Seq<u8>) -> bool {
    forall|i: int, j: int| 0 <= i < xs.len() && 0 <= j < ys.len() ==> xs[i] != ys[j]
}

/// Where each product is `c` times another, so is the sum.
proof fn lemma_dot_products(w: Seq<u8>, v: Seq<u8>, u: Seq<u8>, z: Seq<u8>, c: u8, n: nat)
    requires
        forall|i: int|
            0 <= i < n ==> #[trigger] gf::gf_mul(w[i], v[i]) == gf::gf_mul(
                c,
                gf::gf_mul(u[i], z[i]),
            ),
    ensures
        linalg::dot(w, v, n) == gf::gf_mul(c, linalg::dot(u, z, n)),
    decreases n,
{
    if n == 0 {
        gf::law_mul_zero_one(c);
    } else {
        lemma_dot_products(w, v, u, z, c, (n - 1) as nat);
        assert(gf::gf_mul(w[n - 1], v[n - 1]) == gf::gf_mul(c, gf::gf_mul(u[n - 1], z[n - 1])));
        gf::law_mul_distributes(
            c,
            linalg::dot(u, z, (n - 1) as nat),
            gf::gf_mul(u[n - 1], z[n - 1]),
        );
    }
}

/// The sum of two reciprocals over their common denominator.
proof fn lemma_reciprocal_sum(p: u8, q: u8)
    requires
        p != 0,
        q != 0,
    ensures
        gf::gf_inv(p) ^ gf::gf_inv(q) == gf::gf_mul(
            p ^ q,
            gf::gf_mul(gf::gf_inv(p), gf::gf_inv(q)),
        ),
{
    let ip = gf::gf_inv(p);
    let iq = gf::gf_inv(q);
    gf::law_inverse(p);
    gf::law_inverse(q);
    gf::law_mul_distributes(gf::gf_mul(ip, iq), p, q);
    gf::law_mul_associative(p, ip, iq);
    gf::law_mul_zero_one(iq);
    gf::law_mul_commutative(ip, iq);
    gf::law_mul_associative(q, iq, ip);
    gf::law_mul_zero_one(ip);
    gf::lemma_xor(ip, iq, 0);
}

/// The distance `x ^ y`, measured through a third point.
proof fn lemma_through(x: u8, y: u8, z: u8)
    by (bit_vector)
    ensures
        x ^ y == (x ^ z) ^ (y ^ z),
        x ^ y == 0 <==> x == y,
{
}

/// `c * (g * (h * (p * q))) = h * (p * (c * (g * q)))`.
proof fn lemma_regroup(c: u8, g: u8, h: u8, p: u8, q: u8)
    ensures
        gf::gf_mul(gf::gf_mul(g, gf::gf_mul(h, gf::gf_mul(p, q))), c) == gf::gf_mul(
            h,
            gf::gf_mul(p, gf::gf_mul(c, gf::gf_mul(g, q))),
        ),
{
    let pq = gf::gf_mul(p, q);
    let gq = gf::gf_mul(g, q);
    // g (h pq) = h (g pq)
    gf::law_mul_associative(g, h, pq);
    gf::law_mul_commutative(g, h);
    gf::law_mul_associative(h, g, pq);
    // g pq = p gq
    gf::law_mul_associative(g, p, q);
    gf::law_mul_commutative(g, p);
    gf::law_mul_associative(p, g, q);
    // (h (p gq)) c = h (p (c gq))
    gf::law_mul_associative(h, gf::gf_mul(p, gq), c);
    gf::law_mul_associative(p, gq, c);
    gf::law_mul_commutative(gq, c);
}

/// One row of a Cauchy system, cleared of its last denominator.
proof fn lemma_cleared_row(x: u8, ys: Seq<u8>, v: Seq<u8>)
    requires
        ys.len() > 0,
        v.len() == ys.len(),
        forall|j: int| 0 <= j < ys.len() ==> x != ys[j],
        linalg::dot(reciprocals(x, ys), v, ys.len()) == 0,
    ensures
        ({
            let n = (ys.len() - 1) as nat;
            let b = Seq::new(ys.len(), |s: int| gf::gf_mul(ys[n as int] ^ ys[s], reciprocals(x, ys)[s]));
            linalg::dot(b, v, n) == linalg::dot(Seq::new(ys.len(), |s: int| 1u8), v, ys.len())
        }),
{
    let m = ys.len();
    let n = (m - 1) as nat;
    let row = reciprocals(x, ys);
    let d = x ^ ys[n as int];
    let ones = Seq::new(m, |s: int| 1u8);
    let b = Seq::new(m, |s: int| gf::gf_mul(ys[n as int] ^ ys[s], row[s]));
    let w = Seq::new(m, |s: int| gf::gf_mul(d, row[s]));
    linalg::lemma_dot_scale(w, row, v, d, m);
    gf::law_mul_zero_one(d);
    assert forall|s: int| 0 <= s < m implies w[s] == ones[s] ^ b[s] by {
        lemma_through(x, ys[n as int], ys[s]);
        lemma_through(x, ys[s], 0);
        gf::law_inverse(x ^ ys[s]);
        gf::law_mul_distributes(row[s], x ^ ys[s], ys[n as int] ^ ys[s]);
    }
    linalg::lemma_dot_add(w, ones, b, v, m);
    gf::lemma_xor(linalg::dot(ones, v, m), linalg::dot(b, v, m), 0);
    gf::lemma_xor(ys[n as int], ys[n as int], 0);
    gf::law_mul_zero_one(row[n as int]);
    gf::law_mul_zero_one(v[n as int]);
    gf::lemma_xor(linalg::dot(b, v, n), 0, 0);
    assert(b[n as int] == 0);
    assert(linalg::dot(b, v, m) == linalg::dot(b, v, n) ^ gf::gf_mul(b[n as int], v[n as int]));
}

/// A square Cauchy system whose right-hand side is zero has only the zero solution.
pub proof fn law_cauchy_regular(xs: Seq<u8>, ys: Seq<u8>, v: Seq<u8>)
    requires
        xs.len() == ys.len(),
        v.len() == ys.len(),
        distinct(xs),
        distinct(ys),
        disjoint(xs, ys),
        forall|t: int|
            0 <= t < xs.len() ==> linalg::dot(reciprocals(#[trigger] xs[t], ys), v, ys.len()) == 0,
    ensures
        forall|s: int| 0 <= s < v.len() ==> v[s] == 0,
    decreases xs.len(),
{
    let m = xs.len();
    if m > 0 {
        let n = (m - 1) as nat;
        let last = n as int;
        let xn = xs[last];
        let yn = ys[last];
        let xs2 = xs.take(last);
        let ys2 = ys.take(last);
        let row_n = reciprocals(xn, ys);
        let v2 = Seq::new(n, |s: int| gf::gf_mul(v[s], gf::gf_mul(yn ^ ys[s], row_n[s])));
        assert forall|t: int| 0 <= t < n implies linalg::dot(
            reciprocals(#[trigger] xs2[t], ys2),
            v2,
            n,
        ) == 0 by {
            let xt = xs[t];
            let row_t = reciprocals(xt, ys);
            let b_t = Seq::new(m, |s: int| gf::gf_mul(yn ^ ys[s], row_t[s]));
            let b_n = Seq::new(m, |s: int| gf::gf_mul(yn ^ ys[s], row_n[s]));
            let e = Seq::new(n, |s: int| b_t[s] ^ b_n[s]);
            let h = xt ^ xn;
            assert(linalg::dot(reciprocals(xs[t], ys), v, m) == 0);
            assert(linalg::dot(reciprocals(xs[last], ys), v, m) == 0);
            lemma_cleared_row(xt, ys, v);
            lemma_cleared_row(xn, ys, v);
            assert(linalg::dot(b_t, v, n) == linalg::dot(b_n, v, n));
            linalg::lemma_dot_add(e, b_t, b_n, v, n);
            gf::lemma_xor(linalg::dot(b_t, v, n), linalg::dot(b_n, v, n), 0);
            assert forall|s: int| 0 <= s < n implies #[trigger] gf::gf_mul(e[s], v[s])
                == gf::gf_mul(h, gf::gf_mul(reciprocals(xt, ys2)[s], v2[s])) by {
                let p = xt ^ ys[s];
                let q = xn ^ ys[s];
                lemma_through(xt, ys[s], 0);
                lemma_through(xn, ys[s], 0);
                lemma_through(xt, xn, ys[s]);
                lemma_reciprocal_sum(p, q);
                gf::law_mul_distributes(yn ^ ys[s], row_t[s], row_n[s]);
                lemma_regroup(v[s], yn ^ ys[s], h, row_t[s], row_n[s]);
            }
            lemma_dot_products(e, v, reciprocals(xt, ys2), v2, h, n);
            lemma_through(xt, xn, 0);
            assert(xs[t] != xs[last]);
            gf::law_no_zero_divisors(h, linalg::dot(reciprocals(xt, ys2), v2, n));
        }
        law_cauchy_regular(xs2, ys2, v2);
        assert forall|s: int| 0 <= s < n implies v[s] == 0 by {
            assert(v2[s] == 0);
            let g = yn ^ ys[s];
            lemma_through(yn, ys[s], 0);
            assert(ys[s] != ys[last]);
            lemma_through(xn, ys[s], 0);
            gf::law_inverse(xn ^ ys[s]);
            if v[s] != 0 {
                gf::law_no_zero_divisors(v[s], gf::gf_mul(g, row_n[s]));
                gf::law_no_zero_divisors(g, row_n[s]);
            }
        }
        assert(linalg::dot(reciprocals(xs[last], ys), v, m) == 0);
        linalg::lemma_dot_single(row_n, v, m, last);
        lemma_through(xn, yn, 0);
        gf::law_inverse(xn ^ yn);
        gf::law_no_zero_divisors(row_n[last], v[last]);
    }
}

} // verus!
