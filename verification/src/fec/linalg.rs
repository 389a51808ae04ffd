//! Gauss-Jordan elimination over GF(2^8).

use vstd::prelude::*;
use crate::fec::gf;

verus! {

/// The first `n` products of `u` and `v`, summed.
pub open spec fn dot(u: Seq<u8>, v: Seq<u8>, n: nat) -> u8
    decreases n,
{
    if n == 0 {
        0
    } else {
        dot(u, v, (n - 1) as nat) ^ gf::gf_mul(u[n - 1], v[n - 1])
    }
}

/// The contents of a vector of rows.
pub open spec fn table(rows: Seq<Vec<u8>>) -> Seq<Seq<u8>> {
    Seq::new(rows.len(), |i: int| rows[i]@)
}

/// Every row has `n` entries.
pub open spec fn shaped(rows: Seq<Seq<u8>>, k: nat, n: nat) -> bool {
    &&& rows.len() == k
    &&& forall|i: int| 0 <= i < k ==> (#[trigger] rows[i]).len() == n
}

/// Every row of the matrix annihilates `y`.
pub open spec fn annihilates(rows: Seq<Seq<u8>>, y: Seq<u8>, n: nat) -> bool {
    forall|i: int| 0 <= i < rows.len() ==> dot(#[trigger] rows[i], y, n) == 0
}

/// Both matrices have the same null space.
pub open spec fn row_equivalent(a: Seq<Seq<u8>>, b: Seq<Seq<u8>>, n: nat) -> bool {
    forall|y: Seq<u8>| y.len() == n ==> (annihilates(a, y, n) <==> #[trigger] annihilates(b, y, n))
}

/// The first `c` columns are those of the identity.
pub open spec fn unit_columns(rows: Seq<Seq<u8>>, c: int) -> bool {
    forall|i: int, j: int|
        0 <= i < rows.len() && 0 <= j < c ==> #[trigger] rows[i][j] == (if i == j {
            1u8
        } else {
            0u8
        })
}

/// `v` is a nonzero combination of the first `k` columns that vanishes in every row.
pub open spec fn dependency(rows: Seq<Seq<u8>>, v: Seq<u8>, k: nat) -> bool {
    &&& v.len() == k
    &&& annihilates(rows, v, k)
    &&& exists|j: int| 0 <= j < k && v[j] != 0
}

/// A dot product reads only the first `n` entries.
pub proof fn lemma_dot_same(u: Seq<u8>, v: Seq<u8>, u2: Seq<u8>, v2: Seq<u8>, n: nat)
    requires
        forall|i: int| 0 <= i < n ==> u[i] == u2[i] && v[i] == v2[i],
    ensures
        dot(u, v, n) == dot(u2, v2, n),
    decreases n,
{
    if n > 0 {
        lemma_dot_same(u, v, u2, v2, (n - 1) as nat);
    }
}

/// Where all products vanish, so does the sum.
pub proof fn lemma_dot_zero(u: Seq<u8>, v: Seq<u8>, n: nat)
    requires
        forall|i: int| 0 <= i < n ==> u[i] == 0 || v[i] == 0,
    ensures
        dot(u, v, n) == 0,
    decreases n,
{
    if n > 0 {
        lemma_dot_zero(u, v, (n - 1) as nat);
        gf::law_mul_zero_one(u[n - 1]);
        gf::law_mul_zero_one(v[n - 1]);
        gf::lemma_xor(0, 0, 0);
    }
}

/// Where all products but one vanish, the sum is that product.
pub proof fn lemma_dot_single(u: Seq<u8>, v: Seq<u8>, n: nat, k: int)
    requires
        0 <= k < n,
        forall|i: int| 0 <= i < n && i != k ==> u[i] == 0 || v[i] == 0,
    ensures
        dot(u, v, n) == gf::gf_mul(u[k], v[k]),
    decreases n,
{
    let p = gf::gf_mul(u[n - 1], v[n - 1]);
    if k == n - 1 {
        lemma_dot_zero(u, v, (n - 1) as nat);
        gf::lemma_xor(p, 0, 0);
    } else {
        lemma_dot_single(u, v, (n - 1) as nat, k);
        gf::law_mul_zero_one(u[n - 1]);
        gf::law_mul_zero_one(v[n - 1]);
        gf::lemma_xor(dot(u, v, (n - 1) as nat), 0, 0);
    }
}

/// Scaling a row scales its dot products.
pub proof fn lemma_dot_scale(w: Seq<u8>, u: Seq<u8>, v: Seq<u8>, c: u8, n: nat)
    requires
        forall|i: int| 0 <= i < n ==> w[i] == gf::gf_mul(c, u[i]),
    ensures
        dot(w, v, n) == gf::gf_mul(c, dot(u, v, n)),
    decreases n,
{
    if n == 0 {
        gf::law_mul_zero_one(c);
    } else {
        lemma_dot_scale(w, u, v, c, (n - 1) as nat);
        gf::law_mul_associative(c, u[n - 1], v[n - 1]);
        gf::law_mul_distributes(c, dot(u, v, (n - 1) as nat), gf::gf_mul(u[n - 1], v[n - 1]));
    }
}

/// Adding rows adds their dot products.
pub proof fn lemma_dot_add(w: Seq<u8>, u: Seq<u8>, t: Seq<u8>, v: Seq<u8>, n: nat)
    requires
        forall|i: int| 0 <= i < n ==> w[i] == u[i] ^ t[i],
    ensures
        dot(w, v, n) == dot(u, v, n) ^ dot(t, v, n),
    decreases n,
{
    if n == 0 {
        gf::lemma_xor(0, 0, 0);
    } else {
        let m = (n - 1) as nat;
        lemma_dot_add(w, u, t, v, m);
        gf::law_mul_distributes(v[n - 1], u[n - 1], t[n - 1]);
        lemma_xor_swap(dot(u, v, m), dot(t, v, m), gf::gf_mul(u[n - 1], v[n - 1]), gf::gf_mul(t[n - 1], v[n - 1]));
    }
}

/// The middle two of four summands change places.
pub proof fn lemma_xor_swap(a: u8, b: u8, c: u8, d: u8)
    by (bit_vector)
    ensures
        (a ^ b) ^ (c ^ d) == (a ^ c) ^ (b ^ d),
{
}

/// The dot product is symmetric.
pub proof fn lemma_dot_symmetric(u: Seq<u8>, v: Seq<u8>, n: nat)
    ensures
        dot(u, v, n) == dot(v, u, n),
    decreases n,
{
    if n > 0 {
        lemma_dot_symmetric(u, v, (n - 1) as nat);
        gf::law_mul_commutative(u[n - 1], v[n - 1]);
    }
}

/// Adding a multiple of a row adds the multiple of its dot product.
pub proof fn lemma_dot_combine(w: Seq<u8>, u: Seq<u8>, t: Seq<u8>, v: Seq<u8>, f: u8, n: nat)
    requires
        forall|i: int| 0 <= i < n ==> w[i] == u[i] ^ gf::gf_mul(f, t[i]),
    ensures
        dot(w, v, n) == dot(u, v, n) ^ gf::gf_mul(f, dot(t, v, n)),
{
    let s = Seq::new(n, |i: int| gf::gf_mul(f, t[i]));
    lemma_dot_scale(s, t, v, f, n);
    lemma_dot_add(w, u, s, v, n);
}

/// Splitting a dot product at `m`.
pub proof fn lemma_dot_split(u: Seq<u8>, v: Seq<u8>, a: Seq<u8>, b: Seq<u8>, m: nat, n: nat)
    requires
        forall|i: int| 0 <= i < n ==> a[i] == u[m + i] && b[i] == v[m + i],
    ensures
        dot(u, v, m + n) == dot(u, v, m) ^ dot(a, b, n),
    decreases n,
{
    if n == 0 {
        gf::lemma_xor(dot(u, v, m), 0, 0);
    } else {
        lemma_dot_split(u, v, a, b, m, (n - 1) as nat);
        gf::lemma_xor(
            dot(u, v, m),
            dot(a, b, (n - 1) as nat),
            gf::gf_mul(a[n - 1], b[n - 1]),
        );
    }
}

proof fn lemma_scaled_rows(a: Seq<Seq<u8>>, b: Seq<Seq<u8>>, r: int, c: u8, n: nat)
    requires
        a.len() == b.len(),
        0 <= r < a.len(),
        c != 0,
        forall|i: int| 0 <= i < a.len() && i != r ==> b[i] == a[i],
        forall|j: int| 0 <= j < n ==> b[r][j] == gf::gf_mul(c, a[r][j]),
    ensures
        row_equivalent(a, b, n),
{
    assert forall|y: Seq<u8>| y.len() == n implies (annihilates(a, y, n)
        <==> #[trigger] annihilates(b, y, n)) by {
        lemma_dot_scale(b[r], a[r], y, c, n);
        gf::law_mul_zero_one(c);
        if annihilates(a, y, n) {
            assert forall|i: int| 0 <= i < b.len() implies dot(#[trigger] b[i], y, n) == 0 by {
                assert(dot(a[i], y, n) == 0);
            }
        }
        if annihilates(b, y, n) {
            assert(dot(b[r], y, n) == 0);
            gf::law_no_zero_divisors(c, dot(a[r], y, n));
            assert forall|i: int| 0 <= i < a.len() implies dot(#[trigger] a[i], y, n) == 0 by {
                assert(dot(b[i], y, n) == 0);
            }
        }
    }
}

proof fn lemma_combined_rows(a: Seq<Seq<u8>>, b: Seq<Seq<u8>>, r: int, s: int, f: u8, n: nat)
    requires
        a.len() == b.len(),
        0 <= r < a.len(),
        0 <= s < a.len(),
        r != s,
        forall|i: int| 0 <= i < a.len() && i != r ==> b[i] == a[i],
        forall|j: int| 0 <= j < n ==> b[r][j] == a[r][j] ^ gf::gf_mul(f, a[s][j]),
    ensures
        row_equivalent(a, b, n),
{
    assert forall|y: Seq<u8>| y.len() == n implies (annihilates(a, y, n)
        <==> #[trigger] annihilates(b, y, n)) by {
        lemma_dot_combine(b[r], a[r], a[s], y, f, n);
        gf::law_mul_zero_one(f);
        gf::lemma_xor(dot(a[r], y, n), 0, 0);
        if annihilates(a, y, n) {
            assert(dot(a[s], y, n) == 0);
            assert(dot(a[r], y, n) == 0);
            assert forall|i: int| 0 <= i < b.len() implies dot(#[trigger] b[i], y, n) == 0 by {
                assert(dot(a[i], y, n) == 0);
            }
        }
        if annihilates(b, y, n) {
            assert(b[s] == a[s]);
            assert(dot(b[s], y, n) == 0);
            assert(dot(b[r], y, n) == 0);
            assert forall|i: int| 0 <= i < a.len() implies dot(#[trigger] a[i], y, n) == 0 by {
                assert(dot(b[i], y, n) == 0);
            }
        }
    }
}

proof fn lemma_swapped_rows(a: Seq<Seq<u8>>, b: Seq<Seq<u8>>, r: int, s: int, n: nat)
    requires
        a.len() == b.len(),
        0 <= r < a.len(),
        0 <= s < a.len(),
        b[r] == a[s],
        b[s] == a[r],
        forall|i: int| 0 <= i < a.len() && i != r && i != s ==> b[i] == a[i],
    ensures
        row_equivalent(a, b, n),
{
    assert forall|y: Seq<u8>| y.len() == n implies (annihilates(a, y, n)
        <==> #[trigger] annihilates(b, y, n)) by {
        if annihilates(a, y, n) {
            assert(dot(a[r], y, n) == 0 && dot(a[s], y, n) == 0);
            assert forall|i: int| 0 <= i < b.len() implies dot(#[trigger] b[i], y, n) == 0 by {
                assert(dot(a[i], y, n) == 0);
            }
        }
        if annihilates(b, y, n) {
            assert(dot(b[r], y, n) == 0 && dot(b[s], y, n) == 0);
            assert forall|i: int| 0 <= i < a.len() implies dot(#[trigger] a[i], y, n) == 0 by {
                assert(dot(b[i], y, n) == 0);
            }
        }
    }
}

proof fn lemma_equivalent_chain(a: Seq<Seq<u8>>, b: Seq<Seq<u8>>, c: Seq<Seq<u8>>, n: nat)
    requires
        row_equivalent(a, b, n),
        row_equivalent(b, c, n),
    ensures
        row_equivalent(a, c, n),
{
    assert forall|y: Seq<u8>| y.len() == n implies (annihilates(a, y, n)
        <==> #[trigger] annihilates(c, y, n)) by {
        assert(annihilates(a, y, n) <==> annihilates(b, y, n));
    }
}

/// Columns that are already reduced to unit columns, followed by one without a pivot, are
/// linearly dependent.
proof fn lemma_missing_pivot(
    original: Seq<Seq<u8>>,
    rows: Seq<Seq<u8>>,
    k: nat,
    n: nat,
    col: int,
) -> (v: Seq<u8>)
    requires
        shaped(original, k, n),
        shaped(rows, k, n),
        k <= n,
        0 <= col < k,
        row_equivalent(original, rows, n),
        unit_columns(rows, col),
        forall|i: int| col <= i < k ==> #[trigger] rows[i][col] == 0,
    ensures
        dependency(original, v, k),
{
    let v = Seq::new(
        k,
        |j: int|
            if j == col {
                1u8
            } else if j < col {
                rows[j][col]
            } else {
                0u8
            },
    );
    let y = Seq::new(
        n,
        |j: int|
            if j < k {
                v[j]
            } else {
                0u8
            },
    );
    assert forall|i: int| 0 <= i < k implies dot(#[trigger] rows[i], y, n) == 0 by {
        let row = rows[i];
        gf::law_mul_zero_one(row[col]);
        if i < col {
            // only positions i and col contribute
            let left = Seq::new(n, |j: int| if j == i { row[j] } else { 0u8 });
            let right = Seq::new(n, |j: int| if j == i { 0u8 } else { row[j] });
            assert forall|j: int| 0 <= j < n implies row[j] == left[j] ^ right[j] by {
                gf::lemma_xor(row[j], 0, 0);
            }
            lemma_dot_add(row, left, right, y, n);
            lemma_dot_single(left, y, n, i);
            assert forall|j: int| 0 <= j < n && j != col implies right[j] == 0 || y[j] == 0 by {
                if j < col && j != i {
                    assert(rows[i][j] == 0);
                }
            }
            lemma_dot_single(right, y, n, col);
            assert(rows[i][i] == 1);
            gf::law_mul_zero_one(y[i]);
            gf::lemma_xor(row[col], 0, 0);
        } else {
            assert forall|j: int| 0 <= j < n implies row[j] == 0 || y[j] == 0 by {
                if j < col {
                    assert(rows[i][j] == 0);
                }
            }
            lemma_dot_zero(row, y, n);
        }
    }
    assert(annihilates(rows, y, n));
    assert(annihilates(original, y, n));
    assert forall|i: int| 0 <= i < k implies dot(#[trigger] original[i], v, k) == 0 by {
        assert(dot(original[i], y, n) == 0);
        let rest = Seq::new((n - k) as nat, |j: int| original[i][k + j]);
        let zeros = Seq::new((n - k) as nat, |j: int| 0u8);
        assert forall|j: int| 0 <= j < n - k implies rest[j] == original[i][k + j] && zeros[j]
            == y[k + j] by {}
        lemma_dot_split(original[i], y, rest, zeros, k, (n - k) as nat);
        lemma_dot_zero(rest, zeros, (n - k) as nat);
        gf::lemma_xor(dot(original[i], y, k), 0, 0);
        lemma_dot_same(original[i], y, original[i], v, k);
    }
    assert(v[col] != 0);
    v
}

/// `c` times a row.
fn scaled(row: &Vec<u8>, c: u8) -> (out: Vec<u8>)
    ensures
        out.len() == row.len(),
        forall|j: int| 0 <= j < row.len() ==> out[j] == gf::gf_mul(c, row[j]),
{
    let mut out: Vec<u8> = Vec::with_capacity(row.len());
    let n: usize = row.len();
    for j in 0..n
        invariant
            n == row.len(),
            out.len() == j,
            forall|t: int| 0 <= t < j ==> out[t] == gf::gf_mul(c, row[t]),
    {
        out.push(gf::mul(c, row[j]));
    }
    out
}

/// A row plus `f` times another of the same length.
fn combined(row: &Vec<u8>, other: &Vec<u8>, f: u8) -> (out: Vec<u8>)
    requires
        row.len() == other.len(),
    ensures
        out.len() == row.len(),
        forall|j: int| 0 <= j < row.len() ==> out[j] == row[j] ^ gf::gf_mul(f, other[j]),
{
    let mut out: Vec<u8> = Vec::with_capacity(row.len());
    let n: usize = row.len();
    for j in 0..n
        invariant
            n == row.len(),
            n == other.len(),
            out.len() == j,
            forall|t: int| 0 <= t < j ==> out[t] == row[t] ^ gf::gf_mul(f, other[t]),
    {
        out.push(row[j] ^ gf::mul(f, other[j]));
    }
    out
}

/// The first row at or below `col` with a nonzero entry in that column.
fn find_pivot(rows: &Vec<Vec<u8>>, col: usize, k: usize) -> (pivot: Option<usize>)
    requires
        col < k,
        k == rows.len(),
        forall|i: int| 0 <= i < k ==> col < (#[trigger] rows[i]).len(),
    ensures
        match pivot {
            Some(p) => col <= p < k && rows[p as int][col as int] != 0,
            None => forall|i: int| col <= i < k ==> #[trigger] rows[i][col as int] == 0,
        },
{
    let mut i: usize = col;
    while i < k
        invariant
            col <= i <= k,
            k == rows.len(),
            forall|t: int| 0 <= t < k ==> col < (#[trigger] rows[t]).len(),
            forall|t: int| col <= t < i ==> #[trigger] rows[t][col as int] == 0,
        decreases k - i,
    {
        if rows[i][col] != 0 {
            return Some(i);
        }
        i = i + 1;
    }
    None
}

/// Clears column `col` in every row but `col` itself, whose entry there is one.
fn clear_column(rows: &mut Vec<Vec<u8>>, col: usize, k: usize, n: usize)
    requires
        col < k <= n,
        shaped(table(old(rows)@), k as nat, n as nat),
        unit_columns(table(old(rows)@), col as int),
        old(rows)@[col as int]@[col as int] == 1,
    ensures
        shaped(table(final(rows)@), k as nat, n as nat),
        row_equivalent(table(old(rows)@), table(final(rows)@), n as nat),
        unit_columns(table(final(rows)@), col + 1),
{
    let ghost start = table(rows@);
    let mut r: usize = 0;
    while r < k
        invariant
            col < k <= n,
            0 <= r <= k,
            shaped(start, k as nat, n as nat),
            shaped(table(rows@), k as nat, n as nat),
            rows.len() == k,
            row_equivalent(start, table(rows@), n as nat),
            unit_columns(table(rows@), col as int),
            table(rows@)[col as int][col as int] == 1,
            forall|i: int|
                0 <= i < r && i != col ==> #[trigger] table(rows@)[i][col as int] == 0,
        decreases k - r,
    {
        let ghost before = table(rows@);
        assert(before[r as int].len() == n && before[col as int].len() == n);
        let factor: u8 = rows[r][col];
        if r != col && factor != 0 {
            let replaced: Vec<u8> = combined(&rows[r], &rows[col], factor);
            rows.set(r, replaced);
            proof {
                let after = table(rows@);
                assert forall|i: int| 0 <= i < k && i != r implies after[i] == before[i] by {}
                lemma_combined_rows(before, after, r as int, col as int, factor, n as nat);
                lemma_equivalent_chain(start, before, after, n as nat);
                gf::law_mul_zero_one(factor);
                gf::lemma_xor(factor, factor, 0);
                assert forall|i: int, j: int|
                    0 <= i < after.len() && 0 <= j < col implies #[trigger] after[i][j] == (if i
                    == j {
                    1u8
                } else {
                    0u8
                }) by {
                    assert(before[i][j] == (if i == j { 1u8 } else { 0u8 }));
                    assert(before[col as int][j] == 0);
                    gf::lemma_xor(before[i][j], 0, 0);
                }
                assert forall|i: int| 0 <= i < r + 1 && i != col implies #[trigger] after[i][col as int]
                    == 0 by {
                    if i != r {
                        assert(before[i][col as int] == 0);
                    }
                }
                assert(after[col as int] == before[col as int]);
            }
        } else {
            proof {
                assert forall|i: int| 0 <= i < r + 1 && i != col implies #[trigger] table(
                    rows@,
                )[i][col as int] == 0 by {
                    if i == r {
                        assert(table(rows@)[i][col as int] == factor);
                    }
                }
            }
        }
        r = r + 1;
    }
    proof {
        let done = table(rows@);
        assert forall|i: int, j: int| 0 <= i < done.len() && 0 <= j < col + 1 implies #[trigger] done[i][j]
            == (if i == j {
            1u8
        } else {
            0u8
        }) by {
            if j == col && i != col {
                assert(done[i][col as int] == 0);
            }
        }
    }
}

/// Transforms the first `k` columns of a matrix with `k` rows and `n` columns into the
/// identity by row operations. Returns false where those columns are linearly dependent.
pub fn reduce_rows(rows: &mut Vec<Vec<u8>>, k: usize, n: usize) -> (ok: bool)
    requires
        k <= n,
        shaped(table(old(rows)@), k as nat, n as nat),
    ensures
        shaped(table(final(rows)@), k as nat, n as nat),
        row_equivalent(table(old(rows)@), table(final(rows)@), n as nat),
        ok ==> unit_columns(table(final(rows)@), k as int),
        !ok ==> exists|v: Seq<u8>| dependency(table(old(rows)@), v, k as nat),
{
    let ghost start = table(rows@);
    let mut col: usize = 0;
    while col < k
        invariant
            0 <= col <= k <= n,
            shaped(start, k as nat, n as nat),
            start == table(old(rows)@),
            shaped(table(rows@), k as nat, n as nat),
            rows.len() == k,
            row_equivalent(start, table(rows@), n as nat),
            unit_columns(table(rows@), col as int),
        decreases k - col,
    {
        let ghost before = table(rows@);
        assert forall|i: int| 0 <= i < k implies col < (#[trigger] rows[i]).len() by {
            assert(before[i].len() == n);
        }
        let pivot: usize = match find_pivot(rows, col, k) {
            Some(p) => p,
            None => {
                proof {
                    assert forall|i: int| col <= i < k implies #[trigger] before[i][col as int]
                        == 0 by {
                        assert(rows[i][col as int] == 0);
                    }
                    let v = lemma_missing_pivot(start, before, k as nat, n as nat, col as int);
                    assert(dependency(start, v, k as nat));
                }
                return false;
            },
        };
        let top: Vec<u8> = rows[col].clone();
        let found: Vec<u8> = rows[pivot].clone();
        let lead: u8 = found[col];
        rows.set(pivot, top);
        rows.set(col, found);
        let ghost swapped = table(rows@);
        proof {
            assert(top@ =~= before[col as int]);
            assert(found@ =~= before[pivot as int]);
            assert(swapped[col as int] =~= before[pivot as int]);
            assert(swapped[pivot as int] =~= before[col as int]);
            assert forall|i: int| 0 <= i < k && i != col && i != pivot implies swapped[i]
                == before[i] by {}
            lemma_swapped_rows(before, swapped, col as int, pivot as int, n as nat);
            lemma_equivalent_chain(start, before, swapped, n as nat);
            assert(shaped(swapped, k as nat, n as nat)) by {
                assert forall|i: int| 0 <= i < k implies (#[trigger] swapped[i]).len() == n by {
                    assert(before[i].len() == n);
                    assert(before[col as int].len() == n);
                    assert(before[pivot as int].len() == n);
                }
            }
            assert forall|i: int, j: int|
                0 <= i < swapped.len() && 0 <= j < col implies #[trigger] swapped[i][j] == (if i
                == j {
                1u8
            } else {
                0u8
            }) by {
                assert(before[i][j] == (if i == j { 1u8 } else { 0u8 }));
                assert(before[col as int][j] == 0);
                assert(before[pivot as int][j] == 0);
            }
        }
        let scale: u8 = gf::inv(lead);
        let unit: Vec<u8> = scaled(&rows[col], scale);
        rows.set(col, unit);
        proof {
            let after = table(rows@);
            assert(swapped[col as int].len() == n);
            gf::law_inverse(lead);
            assert forall|i: int| 0 <= i < k && i != col implies after[i] == swapped[i] by {}
            lemma_scaled_rows(swapped, after, col as int, scale, n as nat);
            lemma_equivalent_chain(start, swapped, after, n as nat);
            assert(shaped(after, k as nat, n as nat)) by {
                assert forall|i: int| 0 <= i < k implies (#[trigger] after[i]).len() == n by {
                    assert(swapped[i].len() == n);
                }
            }
            assert(after[col as int][col as int] == 1);
            assert forall|i: int, j: int| 0 <= i < after.len() && 0 <= j < col implies #[trigger] after[i][j]
                == (if i == j {
                1u8
            } else {
                0u8
            }) by {
                assert(swapped[i][j] == (if i == j { 1u8 } else { 0u8 }));
                assert(swapped[col as int][j] == 0);
                gf::law_mul_zero_one(scale);
            }
        }
        let ghost ready = table(rows@);
        clear_column(rows, col, k, n);
        proof {
            lemma_equivalent_chain(start, ready, table(rows@), n as nat);
        }
        col = col + 1;
    }
    true
}

} // verus!
