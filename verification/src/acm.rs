use vstd::prelude::*;
use vstd::arithmetic::div_mod::{
    lemma_add_mod_noop, lemma_add_mod_noop_right, lemma_fundamental_div_mod,
    lemma_fundamental_div_mod_converse, lemma_mod_bound, lemma_mod_multiples_vanish,
    lemma_mod_twice, lemma_mul_mod_noop, lemma_mul_mod_noop_left, lemma_mul_mod_noop_right,
    lemma_sub_mod_noop,
};
use crate::buffer::PixelBuffer;
use crate::image_utils::ImageError;

verus! {

// The permutation cipher: Arnold's cat map on a square grid of side `n`.
// The forward round moves the pixel at `(x, y)` to
// `((x + b*y) mod n, (a*x + (a*b+1)*y) mod n)`; the matrix
// `[[1, b], [a, a*b+1]]` has determinant 1, so the integer matrix
// `[[a*b+1, -b], [-a, 1]]` inverts it exactly, and `k` inverse rounds
// undo `k` forward rounds for any `a`, `b`, `k` and any `n > 0`.

/// Non-negative remainder of `a` modulo `n`, also for negative `a`.
pub fn modulo(a: i64, n: i64) -> (r: i64)
    requires
        n > 0,
    ensures
        r as int == (a as int) % (n as int),
        0 <= r < n,
{
    if a >= 0 {
        ((a as u64) % (n as u64)) as i64
    } else {
        // Euclidean remainder of a negative value:
        // a % n == n - 1 - ((-a - 1) % n)
        let k: i64 = -(a + 1);
        let km: i64 = ((k as u64) % (n as u64)) as i64;
        proof {
            lemma_mod_bound(k as int, n as int);
            lemma_fundamental_div_mod(k as int, n as int);
            assert(a as int == (-(k as int / n as int) - 1) * (n as int)
                + (n as int - km as int - 1)) by (nonlinear_arith)
                requires
                    k as int == (n as int) * (k as int / n as int) + km as int,
                    a as int == -(k as int) - 1,
            ;
            lemma_fundamental_div_mod_converse(a as int, n as int,
                -(k as int / n as int) - 1, n as int - km as int - 1);
        }
        n - 1 - km
    }
}

/// One coordinate of a linear map on the grid: `(p*x + q*y) mod n`.
pub open spec fn lin(p: int, q: int, n: int, x: int, y: int) -> int {
    (p * x + q * y) % n
}

/// Forward-round column: `x' = (x + b*y) mod n`.
pub open spec fn acm_next_x(a: int, b: int, n: int, x: int, y: int) -> int {
    lin(1, b, n, x, y)
}

/// Forward-round row: `y' = (a*x + (a*b+1)*y) mod n`.
pub open spec fn acm_next_y(a: int, b: int, n: int, x: int, y: int) -> int {
    lin(a, a * b + 1, n, x, y)
}

/// Inverse-round column: `x = ((a*b+1)*x' - b*y') mod n`.
pub open spec fn acm_prev_x(a: int, b: int, n: int, x: int, y: int) -> int {
    lin(a * b + 1, -b, n, x, y)
}

/// Inverse-round row: `y = (-a*x' + y') mod n`.
pub open spec fn acm_prev_y(a: int, b: int, n: int, x: int, y: int) -> int {
    lin(-a, 1, n, x, y)
}

/// Congruent coefficients give the same linear map.
pub proof fn lemma_lin_congruent(p1: int, q1: int, p2: int, q2: int, n: int, x: int, y: int)
    requires
        n > 0,
        p1 % n == p2 % n,
        q1 % n == q2 % n,
    ensures
        lin(p1, q1, n, x, y) == lin(p2, q2, n, x, y),
{
    lemma_add_mod_noop(p1 * x, q1 * y, n);
    lemma_add_mod_noop(p2 * x, q2 * y, n);
    lemma_mul_mod_noop_left(p1, x, n);
    lemma_mul_mod_noop_left(p2, x, n);
    lemma_mul_mod_noop_left(q1, y, n);
    lemma_mul_mod_noop_left(q2, y, n);
}

/// The inverse round's map undoes the forward round's map on every grid
/// coordinate.
pub proof fn lemma_acm_prev_of_next(a: int, b: int, n: int, x: int, y: int)
    requires
        n > 0,
        0 <= x < n,
        0 <= y < n,
    ensures
        acm_prev_x(a, b, n, acm_next_x(a, b, n, x, y), acm_next_y(a, b, n, x, y)) == x,
        acm_prev_y(a, b, n, acm_next_x(a, b, n, x, y), acm_next_y(a, b, n, x, y)) == y,
{
    let u = 1 * x + b * y;
    let v = a * x + (a * b + 1) * y;
    lemma_add_mod_noop((a * b + 1) * (u % n), (-b) * (v % n), n);
    lemma_mul_mod_noop_right(a * b + 1, u, n);
    lemma_mul_mod_noop_right(-b, v, n);
    lemma_add_mod_noop((a * b + 1) * u, (-b) * v, n);
    assert((a * b + 1) * u + (-b) * v == x) by (nonlinear_arith)
        requires
            u == 1 * x + b * y,
            v == a * x + (a * b + 1) * y,
    ;
    lemma_fundamental_div_mod_converse(x, n, 0, x);
    lemma_add_mod_noop((-a) * (u % n), 1 * (v % n), n);
    lemma_mul_mod_noop_right(-a, u, n);
    lemma_mul_mod_noop_right(1, v, n);
    lemma_add_mod_noop((-a) * u, 1 * v, n);
    assert((-a) * u + 1 * v == y) by (nonlinear_arith)
        requires
            u == 1 * x + b * y,
            v == a * x + (a * b + 1) * y,
    ;
    lemma_fundamental_div_mod_converse(y, n, 0, y);
}

/// The forward round's map undoes the inverse round's map on every grid
/// coordinate.
pub proof fn lemma_acm_next_of_prev(a: int, b: int, n: int, x: int, y: int)
    requires
        n > 0,
        0 <= x < n,
        0 <= y < n,
    ensures
        acm_next_x(a, b, n, acm_prev_x(a, b, n, x, y), acm_prev_y(a, b, n, x, y)) == x,
        acm_next_y(a, b, n, acm_prev_x(a, b, n, x, y), acm_prev_y(a, b, n, x, y)) == y,
{
    let u = (a * b + 1) * x + (-b) * y;
    let v = (-a) * x + 1 * y;
    lemma_add_mod_noop(1 * (u % n), b * (v % n), n);
    lemma_mul_mod_noop_right(1, u, n);
    lemma_mul_mod_noop_right(b, v, n);
    lemma_add_mod_noop(1 * u, b * v, n);
    assert(1 * u + b * v == x) by (nonlinear_arith)
        requires
            u == (a * b + 1) * x + (-b) * y,
            v == (-a) * x + 1 * y,
    ;
    lemma_fundamental_div_mod_converse(x, n, 0, x);
    lemma_add_mod_noop(a * (u % n), (a * b + 1) * (v % n), n);
    lemma_mul_mod_noop_right(a, u, n);
    lemma_mul_mod_noop_right(a * b + 1, v, n);
    lemma_add_mod_noop(a * u, (a * b + 1) * v, n);
    assert(a * u + (a * b + 1) * v == y) by (nonlinear_arith)
        requires
            u == (a * b + 1) * x + (-b) * y,
            v == (-a) * x + 1 * y,
    ;
    lemma_fundamental_div_mod_converse(y, n, 0, y);
}

/// The byte index of channel `c` at column `x`, row `y` decomposes back
/// into exactly those coordinates.
pub proof fn lemma_index_decompose(n: int, ch: int, x: int, y: int, c: int)
    requires
        n > 0,
        ch > 0,
        0 <= x < n,
        0 <= y < n,
        0 <= c < ch,
    ensures
        0 <= (y * n + x) * ch + c < n * n * ch,
        ((y * n + x) * ch + c) % ch == c,
        (((y * n + x) * ch + c) / ch) % n == x,
        (((y * n + x) * ch + c) / ch) / n == y,
{
    let pix = y * n + x;
    assert(0 <= pix < n * n && 0 <= pix * ch + c < n * n * ch) by (nonlinear_arith)
        requires
            n > 0,
            ch > 0,
            0 <= x < n,
            0 <= y < n,
            0 <= c < ch,
            pix == y * n + x,
    ;
    lemma_fundamental_div_mod_converse(pix * ch + c, ch, pix, c);
    lemma_fundamental_div_mod_converse(pix, n, y, x);
}

/// One forward round on the raw bytes: the pixel written at `(x', y')`
/// is the one read from the coordinates the inverse map assigns to it.
pub open spec fn acm_round_fwd(s: Seq<u8>, a: int, b: int, n: int, ch: int) -> Seq<u8> {
    Seq::new(
        s.len(),
        |i: int|
            s[(acm_prev_y(a, b, n, (i / ch) % n, (i / ch) / n) * n
                + acm_prev_x(a, b, n, (i / ch) % n, (i / ch) / n)) * ch + i % ch],
    )
}

/// One inverse round on the raw bytes.
pub open spec fn acm_round_inv(s: Seq<u8>, a: int, b: int, n: int, ch: int) -> Seq<u8> {
    Seq::new(
        s.len(),
        |i: int|
            s[(acm_next_y(a, b, n, (i / ch) % n, (i / ch) / n) * n
                + acm_next_x(a, b, n, (i / ch) % n, (i / ch) / n)) * ch + i % ch],
    )
}

/// `k` forward rounds.
pub open spec fn acm_forward(s: Seq<u8>, a: int, b: int, n: int, ch: int, k: nat) -> Seq<u8>
    decreases k,
{
    if k == 0 {
        s
    } else {
        acm_round_fwd(acm_forward(s, a, b, n, ch, (k - 1) as nat), a, b, n, ch)
    }
}

/// `k` inverse rounds.
pub open spec fn acm_inverse(s: Seq<u8>, a: int, b: int, n: int, ch: int, k: nat) -> Seq<u8>
    decreases k,
{
    if k == 0 {
        s
    } else {
        acm_inverse(acm_round_inv(s, a, b, n, ch), a, b, n, ch, (k - 1) as nat)
    }
}

/// Iterating the forward map never changes the byte count.
pub proof fn lemma_acm_forward_len(s: Seq<u8>, a: int, b: int, n: int, ch: int, k: nat)
    ensures
        acm_forward(s, a, b, n, ch, k).len() == s.len(),
    decreases k,
{
    if k > 0 {
        lemma_acm_forward_len(s, a, b, n, ch, (k - 1) as nat);
    }
}

/// One inverse round undoes one forward round.
pub proof fn lemma_round_inverts(s: Seq<u8>, a: int, b: int, n: int, ch: int)
    requires
        n > 0,
        ch > 0,
        s.len() == n * n * ch,
    ensures
        acm_round_inv(acm_round_fwd(s, a, b, n, ch), a, b, n, ch) == s,
{
    let f = acm_round_fwd(s, a, b, n, ch);
    let g = acm_round_inv(f, a, b, n, ch);
    assert forall|i: int| 0 <= i < s.len() implies g[i] == s[i] by {
        let c = i % ch;
        let pix = i / ch;
        lemma_fundamental_div_mod(i, ch);
        lemma_mod_bound(i, ch);
        assert(0 <= pix < n * n) by (nonlinear_arith)
            requires
                i == ch * pix + c,
                0 <= c < ch,
                0 <= i < n * n * ch,
                ch > 0,
                n > 0,
        ;
        let x = pix % n;
        let y = pix / n;
        lemma_fundamental_div_mod(pix, n);
        lemma_mod_bound(pix, n);
        assert(0 <= y < n) by (nonlinear_arith)
            requires
                pix == n * y + x,
                0 <= x < n,
                0 <= pix < n * n,
                n > 0,
        ;
        let nx = acm_next_x(a, b, n, x, y);
        let ny = acm_next_y(a, b, n, x, y);
        lemma_mod_bound(1 * x + b * y, n);
        lemma_mod_bound(a * x + (a * b + 1) * y, n);
        lemma_index_decompose(n, ch, nx, ny, c);
        lemma_acm_prev_of_next(a, b, n, x, y);
        assert((y * n + x) * ch + c == i) by (nonlinear_arith)
            requires
                i == ch * pix + c,
                pix == n * y + x,
        ;
    };
    assert(g =~= s);
}

/// The core reversibility law of the permutation cipher: for every
/// square buffer, all coefficients `a`, `b` and every iteration count
/// `k`, applying `k` forward rounds and then `k` inverse rounds
/// reproduces the buffer exactly.
pub proof fn lemma_acm_round_trip(s: Seq<u8>, a: int, b: int, n: int, ch: int, k: nat)
    requires
        n > 0,
        ch > 0,
        s.len() == n * n * ch,
    ensures
        acm_inverse(acm_forward(s, a, b, n, ch, k), a, b, n, ch, k) == s,
    decreases k,
{
    if k > 0 {
        let t = acm_forward(s, a, b, n, ch, (k - 1) as nat);
        lemma_acm_forward_len(s, a, b, n, ch, (k - 1) as nat);
        lemma_round_inverts(t, a, b, n, ch);
        lemma_acm_round_trip(s, a, b, n, ch, (k - 1) as nat);
    }
}

/// Iterating either map on an empty buffer gives the empty buffer back.
pub proof fn lemma_acm_empty(s: Seq<u8>, a: int, b: int, n: int, ch: int, k: nat)
    requires
        s.len() == 0,
    ensures
        acm_forward(s, a, b, n, ch, k) == s,
        acm_inverse(s, a, b, n, ch, k) == s,
    decreases k,
{
    if k > 0 {
        lemma_acm_empty(s, a, b, n, ch, (k - 1) as nat);
        lemma_acm_forward_len(s, a, b, n, ch, (k - 1) as nat);
        assert(acm_round_fwd(acm_forward(s, a, b, n, ch, (k - 1) as nat), a, b, n, ch) =~= s);
        assert(acm_round_inv(s, a, b, n, ch) =~= s);
    }
}

/// The destination pixel index the residue matrix assigns to source
/// pixel `pix`.
pub open spec fn mapped_pixel(m00: int, m01: int, m10: int, m11: int, n: int, pix: int) -> int {
    lin(m10, m11, n, pix % n, pix / n) * n + lin(m00, m01, n, pix % n, pix / n)
}

/// The destination pixel index stays on the grid.
pub proof fn lemma_mapped_pixel_bounds(m00: int, m01: int, m10: int, m11: int, n: int, pix: int)
    requires
        n > 0,
    ensures
        0 <= mapped_pixel(m00, m01, m10, m11, n, pix) < n * n,
{
    let x = pix % n;
    let y = pix / n;
    lemma_mod_bound(m00 * x + m01 * y, n);
    lemma_mod_bound(m10 * x + m11 * y, n);
    assert(0 <= lin(m10, m11, n, x, y) * n + lin(m00, m01, n, x, y) < n * n) by (nonlinear_arith)
        requires
            0 <= lin(m00, m01, n, x, y) < n,
            0 <= lin(m10, m11, n, x, y) < n,
            n > 0,
    ;
}

/// Bytes of distinct pixels never share an index.
proof fn lemma_distinct_pixel_bytes(q1: int, q2: int, ch: int, c1: int, c2: int)
    requires
        q1 != q2,
        0 <= c1 < ch,
        0 <= c2 < ch,
    ensures
        q1 * ch + c1 != q2 * ch + c2,
{
    assert(q1 * ch + c1 != q2 * ch + c2) by (nonlinear_arith)
        requires
            q1 != q2,
            0 <= c1 < ch,
            0 <= c2 < ch,
    ;
}

/// One permutation round: copy every pixel of `src` to the destination
/// the residue matrix assigns to it, in a freshly allocated buffer.
fn acm_apply_round(src: &Vec<u8>, n: u32, ch: u8, m00: u64, m01: u64, m10: u64, m11: u64) -> (dest: Vec<u8>)
    requires
        n > 0,
        ch >= 1,
        src@.len() == n as int * n as int * ch as int,
        m00 < n as u64,
        m01 < n as u64,
        m10 < n as u64,
        m11 < n as u64,
        forall|p1: int, p2: int|
            0 <= p1 < n as int * n as int && 0 <= p2 < n as int * n as int && p1 != p2
                ==> #[trigger] mapped_pixel(m00 as int, m01 as int, m10 as int, m11 as int,
                        n as int, p1)
                    != #[trigger] mapped_pixel(m00 as int, m01 as int, m10 as int, m11 as int,
                        n as int, p2),
    ensures
        dest@.len() == src@.len(),
        forall|pix: int, c: int|
            0 <= pix < n as int * n as int && 0 <= c < ch as int
                ==> #[trigger] dest@[mapped_pixel(m00 as int, m01 as int, m10 as int, m11 as int,
                        n as int, pix) * ch as int + c] == src@[pix * ch as int + c],
{
    let nu: u64 = n as u64;
    let chu: u64 = ch as u64;
    let len: usize = src.len();
    proof {
        assert(nu as int * nu as int * chu as int == n as int * n as int * ch as int);
        assert(nu as int * nu as int <= nu as int * nu as int * chu as int) by (nonlinear_arith)
            requires
                chu >= 1,
                nu > 0,
        ;
        assert(len as int <= usize::MAX as int);
    }
    let total: u64 = nu * nu;
    let mut dest: Vec<u8> = src.clone();
    proof {
        assert(dest@ =~= src@);
    }
    let mut p: u64 = 0;
    while p < total
        invariant
            n > 0,
            ch >= 1,
            nu == n as u64,
            chu == ch as u64,
            total == nu * nu,
            nu as int * nu as int * chu as int == src@.len(),
            src@.len() <= usize::MAX,
            m00 < nu,
            m01 < nu,
            m10 < nu,
            m11 < nu,
            p <= total,
            dest@.len() == src@.len(),
            forall|p1: int, p2: int|
                0 <= p1 < n as int * n as int && 0 <= p2 < n as int * n as int && p1 != p2
                    ==> #[trigger] mapped_pixel(m00 as int, m01 as int, m10 as int, m11 as int,
                            n as int, p1)
                        != #[trigger] mapped_pixel(m00 as int, m01 as int, m10 as int,
                            m11 as int, n as int, p2),
            forall|pp: int, cc: int|
                0 <= pp < p as int && 0 <= cc < ch as int
                    ==> #[trigger] dest@[mapped_pixel(m00 as int, m01 as int, m10 as int,
                            m11 as int, n as int, pp) * ch as int + cc]
                        == src@[pp * ch as int + cc],
        decreases total - p,
    {
        let x: u64 = p % nu;
        let y: u64 = p / nu;
        proof {
            lemma_mod_bound(p as int, nu as int);
            lemma_fundamental_div_mod(p as int, nu as int);
            assert(0 <= y as int && (y as int) < nu as int) by (nonlinear_arith)
                requires
                    p as int == nu as int * (y as int) + x as int,
                    0 <= x as int && (x as int) < nu as int,
                    0 <= p as int && (p as int) < nu as int * nu as int,
                    nu as int > 0,
            ;
            assert((m00 as int * x as int) < nu as int * nu as int) by (nonlinear_arith)
                requires
                    m00 < nu,
                    x < nu,
                    nu > 0,
            ;
            assert(m01 as int * (y as int) < nu as int * nu as int) by (nonlinear_arith)
                requires
                    m01 < nu,
                    y < nu,
                    nu > 0,
            ;
            assert((m10 as int * x as int) < nu as int * nu as int) by (nonlinear_arith)
                requires
                    m10 < nu,
                    x < nu,
                    nu > 0,
            ;
            assert(m11 as int * (y as int) < nu as int * nu as int) by (nonlinear_arith)
                requires
                    m11 < nu,
                    y < nu,
                    nu > 0,
            ;
            assert(nu as int * nu as int <= u64::MAX as int + 1) by (nonlinear_arith)
                requires
                    nu <= 0xffff_ffffu64,
            ;
        }
        let qx: u64 = ((m00 * x) % nu + (m01 * y) % nu) % nu;
        let qy: u64 = ((m10 * x) % nu + (m11 * y) % nu) % nu;
        proof {
            lemma_add_mod_noop(m00 as int * x as int, m01 as int * y as int, nu as int);
            lemma_add_mod_noop(m10 as int * x as int, m11 as int * y as int, nu as int);
            assert(qx as int == lin(m00 as int, m01 as int, nu as int, x as int, y as int));
            assert(qy as int == lin(m10 as int, m11 as int, nu as int, x as int, y as int));
            assert(x as int == p as int % nu as int && y as int == p as int / nu as int);
            assert(qy as int * nu as int + qx as int
                == mapped_pixel(m00 as int, m01 as int, m10 as int, m11 as int, n as int,
                    p as int));
            lemma_mapped_pixel_bounds(m00 as int, m01 as int, m10 as int, m11 as int, n as int,
                p as int);
            assert((qy * nu + qx) as int * chu as int + (chu as int - 1)
                < nu as int * nu as int * chu as int) by (nonlinear_arith)
                requires
                    0 <= (qy * nu + qx) as int && ((qy * nu + qx) as int) < nu as int * nu as int,
                    chu >= 1,
                    nu > 0,
            ;
            assert(p as int * chu as int + (chu as int - 1) < nu as int * nu as int * chu as int)
                by (nonlinear_arith)
                requires
                    0 <= p as int && (p as int) < nu as int * nu as int,
                    chu >= 1,
                    nu > 0,
            ;
        }
        let src_base: u64 = p * chu;
        let dest_base: u64 = (qy * nu + qx) * chu;
        let mut c: u64 = 0;
        while c < chu
            invariant
                n > 0,
                ch >= 1,
                nu == n as u64,
                chu == ch as u64,
                nu as int * nu as int * chu as int == src@.len(),
                src@.len() <= usize::MAX,
                p < nu * nu,
                c <= chu,
                dest@.len() == src@.len(),
                src_base == p * chu,
                dest_base as int == mapped_pixel(m00 as int, m01 as int, m10 as int, m11 as int,
                    n as int, p as int) * chu as int,
                0 <= mapped_pixel(m00 as int, m01 as int, m10 as int, m11 as int, n as int,
                    p as int) < n as int * n as int,
                dest_base as int + chu as int <= src@.len(),
                src_base as int + chu as int <= src@.len(),
                forall|p1: int, p2: int|
                    0 <= p1 < n as int * n as int && 0 <= p2 < n as int * n as int && p1 != p2
                        ==> #[trigger] mapped_pixel(m00 as int, m01 as int, m10 as int,
                                m11 as int, n as int, p1)
                            != #[trigger] mapped_pixel(m00 as int, m01 as int, m10 as int,
                                m11 as int, n as int, p2),
                forall|pp: int, cc: int|
                    0 <= pp < p as int && 0 <= cc < ch as int
                        ==> #[trigger] dest@[mapped_pixel(m00 as int, m01 as int, m10 as int,
                                m11 as int, n as int, pp) * ch as int + cc]
                            == src@[pp * ch as int + cc],
                forall|cc: int|
                    0 <= cc < c as int
                        ==> #[trigger] dest@[dest_base as int + cc] == src@[src_base as int + cc],
            decreases chu - c,
        {
            let si: usize = (src_base + c) as usize;
            let di: usize = (dest_base + c) as usize;
            let v: u8 = src[si];
            let ghost prev_dest = dest@;
            dest[di] = v;
            proof {
                assert forall|pp: int, cc: int|
                    0 <= pp < p as int && 0 <= cc < ch as int implies
                    #[trigger] dest@[mapped_pixel(m00 as int, m01 as int, m10 as int, m11 as int,
                        n as int, pp) * ch as int + cc] == src@[pp * ch as int + cc] by {
                    let mp = mapped_pixel(m00 as int, m01 as int, m10 as int, m11 as int,
                        n as int, pp);
                    let mq = mapped_pixel(m00 as int, m01 as int, m10 as int, m11 as int,
                        n as int, p as int);
                    assert(0 <= pp < n as int * n as int) by (nonlinear_arith)
                        requires
                            0 <= pp < p as int,
                            p < nu * nu,
                            nu == n as u64,
                    ;
                    assert(mp != mq);
                    lemma_distinct_pixel_bytes(mp, mq, ch as int, cc, c as int);
                    lemma_mapped_pixel_bounds(m00 as int, m01 as int, m10 as int, m11 as int,
                        n as int, pp);
                    assert(0 <= mp * ch as int + cc && mp * ch as int + cc
                        < n as int * n as int * ch as int) by (nonlinear_arith)
                        requires
                            0 <= mp < n as int * n as int,
                            0 <= cc < ch as int,
                    ;
                    assert(n as int * n as int * ch as int
                        == nu as int * nu as int * chu as int);
                    assert(mp * ch as int + cc != di as int);
                    assert(dest@[mp * ch as int + cc] == prev_dest[mp * ch as int + cc]);
                }
            }
            c = c + 1;
        }
        p = p + 1;
    }
    dest
}

/// Residues congruent to the forward matrix give an injective pixel
/// map: the forward round writes each destination pixel exactly once.
proof fn lemma_mapped_injective_fwd(a: int, b: int, n: int, m00: int, m01: int, m10: int,
    m11: int)
    requires
        n > 0,
        m00 % n == 1int % n,
        m01 % n == b % n,
        m10 % n == a % n,
        m11 % n == (a * b + 1) % n,
    ensures
        forall|p1: int, p2: int|
            0 <= p1 < n * n && 0 <= p2 < n * n && p1 != p2
                ==> #[trigger] mapped_pixel(m00, m01, m10, m11, n, p1)
                    != #[trigger] mapped_pixel(m00, m01, m10, m11, n, p2),
{
    assert forall|p1: int, p2: int|
        0 <= p1 < n * n && 0 <= p2 < n * n && p1 != p2 implies
        #[trigger] mapped_pixel(m00, m01, m10, m11, n, p1)
            != #[trigger] mapped_pixel(m00, m01, m10, m11, n, p2) by {
        let x1 = p1 % n;
        let y1 = p1 / n;
        let x2 = p2 % n;
        let y2 = p2 / n;
        lemma_fundamental_div_mod(p1, n);
        lemma_mod_bound(p1, n);
        lemma_fundamental_div_mod(p2, n);
        lemma_mod_bound(p2, n);
        assert(0 <= y1 < n && 0 <= y2 < n) by (nonlinear_arith)
            requires
                p1 == n * y1 + x1,
                p2 == n * y2 + x2,
                0 <= x1 < n,
                0 <= x2 < n,
                0 <= p1 < n * n,
                0 <= p2 < n * n,
                n > 0,
        ;
        lemma_lin_congruent(m00, m01, 1, b, n, x1, y1);
        lemma_lin_congruent(m10, m11, a, a * b + 1, n, x1, y1);
        lemma_lin_congruent(m00, m01, 1, b, n, x2, y2);
        lemma_lin_congruent(m10, m11, a, a * b + 1, n, x2, y2);
        if mapped_pixel(m00, m01, m10, m11, n, p1) == mapped_pixel(m00, m01, m10, m11, n, p2) {
            let nx1 = acm_next_x(a, b, n, x1, y1);
            let ny1 = acm_next_y(a, b, n, x1, y1);
            let nx2 = acm_next_x(a, b, n, x2, y2);
            let ny2 = acm_next_y(a, b, n, x2, y2);
            lemma_mod_bound(1 * x1 + b * y1, n);
            lemma_mod_bound(a * x1 + (a * b + 1) * y1, n);
            lemma_mod_bound(1 * x2 + b * y2, n);
            lemma_mod_bound(a * x2 + (a * b + 1) * y2, n);
            lemma_fundamental_div_mod_converse(ny1 * n + nx1, n, ny1, nx1);
            lemma_fundamental_div_mod_converse(ny2 * n + nx2, n, ny2, nx2);
            lemma_acm_prev_of_next(a, b, n, x1, y1);
            lemma_acm_prev_of_next(a, b, n, x2, y2);
            assert(false);
        }
    };
}

/// Residues congruent to the inverse matrix give an injective pixel
/// map: the inverse round writes each destination pixel exactly once.
proof fn lemma_mapped_injective_inv(a: int, b: int, n: int, m00: int, m01: int, m10: int,
    m11: int)
    requires
        n > 0,
        m00 % n == (a * b + 1) % n,
        m01 % n == (-b) % n,
        m10 % n == (-a) % n,
        m11 % n == 1int % n,
    ensures
        forall|p1: int, p2: int|
            0 <= p1 < n * n && 0 <= p2 < n * n && p1 != p2
                ==> #[trigger] mapped_pixel(m00, m01, m10, m11, n, p1)
                    != #[trigger] mapped_pixel(m00, m01, m10, m11, n, p2),
{
    assert forall|p1: int, p2: int|
        0 <= p1 < n * n && 0 <= p2 < n * n && p1 != p2 implies
        #[trigger] mapped_pixel(m00, m01, m10, m11, n, p1)
            != #[trigger] mapped_pixel(m00, m01, m10, m11, n, p2) by {
        let x1 = p1 % n;
        let y1 = p1 / n;
        let x2 = p2 % n;
        let y2 = p2 / n;
        lemma_fundamental_div_mod(p1, n);
        lemma_mod_bound(p1, n);
        lemma_fundamental_div_mod(p2, n);
        lemma_mod_bound(p2, n);
        assert(0 <= y1 < n && 0 <= y2 < n) by (nonlinear_arith)
            requires
                p1 == n * y1 + x1,
                p2 == n * y2 + x2,
                0 <= x1 < n,
                0 <= x2 < n,
                0 <= p1 < n * n,
                0 <= p2 < n * n,
                n > 0,
        ;
        lemma_lin_congruent(m00, m01, a * b + 1, -b, n, x1, y1);
        lemma_lin_congruent(m10, m11, -a, 1, n, x1, y1);
        lemma_lin_congruent(m00, m01, a * b + 1, -b, n, x2, y2);
        lemma_lin_congruent(m10, m11, -a, 1, n, x2, y2);
        if mapped_pixel(m00, m01, m10, m11, n, p1) == mapped_pixel(m00, m01, m10, m11, n, p2) {
            let nx1 = acm_prev_x(a, b, n, x1, y1);
            let ny1 = acm_prev_y(a, b, n, x1, y1);
            let nx2 = acm_prev_x(a, b, n, x2, y2);
            let ny2 = acm_prev_y(a, b, n, x2, y2);
            lemma_mod_bound((a * b + 1) * x1 + (-b) * y1, n);
            lemma_mod_bound((-a) * x1 + 1 * y1, n);
            lemma_mod_bound((a * b + 1) * x2 + (-b) * y2, n);
            lemma_mod_bound((-a) * x2 + 1 * y2, n);
            lemma_fundamental_div_mod_converse(ny1 * n + nx1, n, ny1, nx1);
            lemma_fundamental_div_mod_converse(ny2 * n + nx2, n, ny2, nx2);
            lemma_acm_next_of_prev(a, b, n, x1, y1);
            lemma_acm_next_of_prev(a, b, n, x2, y2);
            assert(false);
        }
    };
}

/// Apply Arnold's cat map: `iterations` forward rounds with
/// coefficients `a` and `b`. Only square buffers are accepted; a
/// non-square buffer is rejected before any pixel is touched.
pub fn arnold_cat_map(img: &PixelBuffer, iterations: u32, a: i64, b: i64) -> (r: Result<
    PixelBuffer,
    ImageError,
>)
    requires
        img.wf(),
    ensures
        img.width != img.height
            ==> r == Err::<PixelBuffer, ImageError>(ImageError::InvalidDimensions),
        img.width == img.height
            ==> (r matches Ok(out) && out.wf() && out.width == img.width
                && out.height == img.height && out.channels == img.channels
                && out.data@ == acm_forward(img.data@, a as int, b as int, img.width as int,
                    img.channels as int, iterations as nat)),
{
    if img.width != img.height {
        return Err(ImageError::InvalidDimensions);
    }
    if img.width == 0 {
        proof {
            lemma_acm_empty(img.data@, a as int, b as int, img.width as int,
                img.channels as int, iterations as nat);
        }
        return Ok(img.clone());
    }
    let n: u32 = img.width;
    let nu: u64 = n as u64;
    let ni: Ghost<int> = Ghost(n as int);
    let ai: Ghost<int> = Ghost(a as int);
    let bi: Ghost<int> = Ghost(b as int);
    let ar: u64 = modulo(a, n as i64) as u64;
    let br: u64 = modulo(b, n as i64) as u64;
    proof {
        assert((ar as int * br as int) < 0x1_0000_0000 * 0x1_0000_0000) by (nonlinear_arith)
            requires
                ar < 0x1_0000_0000u64,
                br < 0x1_0000_0000u64,
        ;
    }
    let m00: u64 = 1 % nu;
    let m01: u64 = br;
    let m10: u64 = ar;
    let m11: u64 = ((ar * br) % nu + 1) % nu;
    proof {
        lemma_mod_bound(1, ni@);
        lemma_mod_bound((ar * br) as int + 1, ni@);
        lemma_mod_twice(1, ni@);
        lemma_mod_twice(bi@, ni@);
        lemma_mod_twice(ai@, ni@);
        lemma_mul_mod_noop(ai@, bi@, ni@);
        assert((ar * br) as int == (ai@ % ni@) * (bi@ % ni@));
        lemma_add_mod_noop_right(1, ai@ * bi@, ni@);
        lemma_mod_twice(ai@ * bi@ + 1, ni@);
        assert(m11 as int == ((ai@ * bi@) % ni@ + 1) % ni@);
        lemma_mod_twice((ai@ * bi@) % ni@ + 1, ni@);
        assert(m11 as int % ni@ == (ai@ * bi@ + 1) % ni@);
        lemma_mapped_injective_fwd(ai@, bi@, ni@, m00 as int, m01 as int, m10 as int,
            m11 as int);
    }
    let ghost s0 = img.data@;
    let ch: u8 = img.channels;
    let mut cur: Vec<u8> = img.data.clone();
    proof {
        assert(cur@ =~= s0);
    }
    let mut it: u32 = 0;
    while it < iterations
        invariant
            n > 0,
            nu == n as u64,
            ni@ == n as int,
            ai@ == a as int,
            bi@ == b as int,
            ch == 1 || ch == 3,
            s0.len() == n as int * n as int * ch as int,
            m00 < nu,
            m01 < nu,
            m10 < nu,
            m11 < nu,
            m00 as int % ni@ == 1int % ni@,
            m01 as int % ni@ == bi@ % ni@,
            m10 as int % ni@ == ai@ % ni@,
            m11 as int % ni@ == (ai@ * bi@ + 1) % ni@,
            forall|p1: int, p2: int|
                0 <= p1 < ni@ * ni@ && 0 <= p2 < ni@ * ni@ && p1 != p2
                    ==> #[trigger] mapped_pixel(m00 as int, m01 as int, m10 as int, m11 as int,
                            ni@, p1)
                        != #[trigger] mapped_pixel(m00 as int, m01 as int, m10 as int,
                            m11 as int, ni@, p2),
            it <= iterations,
            cur@.len() == s0.len(),
            cur@ == acm_forward(s0, ai@, bi@, ni@, ch as int, it as nat),
        decreases iterations - it,
    {
        let next = acm_apply_round(&cur, n, ch, m00, m01, m10, m11);
        proof {
            lemma_round_exec_fwd(cur@, next@, ai@, bi@, ni@, ch as int, m00 as int, m01 as int,
                m10 as int, m11 as int);
            assert(acm_forward(s0, ai@, bi@, ni@, ch as int, (it + 1) as nat)
                == acm_round_fwd(acm_forward(s0, ai@, bi@, ni@, ch as int, it as nat), ai@, bi@,
                    ni@, ch as int));
        }
        cur = next;
        it = it + 1;
    }
    Ok(PixelBuffer { width: n, height: n, channels: ch, data: cur })
}

/// Apply the inverse cat map: `iterations` rounds of the explicit
/// integer inverse matrix, undoing [`arnold_cat_map`] round for round.
pub fn inverse_arnold_cat_map(img: &PixelBuffer, iterations: u32, a: i64, b: i64) -> (r: Result<
    PixelBuffer,
    ImageError,
>)
    requires
        img.wf(),
    ensures
        img.width != img.height
            ==> r == Err::<PixelBuffer, ImageError>(ImageError::InvalidDimensions),
        img.width == img.height
            ==> (r matches Ok(out) && out.wf() && out.width == img.width
                && out.height == img.height && out.channels == img.channels
                && out.data@ == acm_inverse(img.data@, a as int, b as int, img.width as int,
                    img.channels as int, iterations as nat)),
{
    if img.width != img.height {
        return Err(ImageError::InvalidDimensions);
    }
    if img.width == 0 {
        proof {
            lemma_acm_empty(img.data@, a as int, b as int, img.width as int,
                img.channels as int, iterations as nat);
        }
        return Ok(img.clone());
    }
    let n: u32 = img.width;
    let nu: u64 = n as u64;
    let ni: Ghost<int> = Ghost(n as int);
    let ai: Ghost<int> = Ghost(a as int);
    let bi: Ghost<int> = Ghost(b as int);
    let ar: u64 = modulo(a, n as i64) as u64;
    let br: u64 = modulo(b, n as i64) as u64;
    proof {
        assert((ar as int * br as int) < 0x1_0000_0000 * 0x1_0000_0000) by (nonlinear_arith)
            requires
                ar < 0x1_0000_0000u64,
                br < 0x1_0000_0000u64,
        ;
    }
    let m00: u64 = ((ar * br) % nu + 1) % nu;
    let m01: u64 = (nu - br) % nu;
    let m10: u64 = (nu - ar) % nu;
    let m11: u64 = 1 % nu;
    proof {
        lemma_mod_bound(1, ni@);
        lemma_mod_bound((ar * br) as int + 1, ni@);
        lemma_mod_bound(nu as int - br as int, ni@);
        lemma_mod_bound(nu as int - ar as int, ni@);
        lemma_mod_twice(1, ni@);
        lemma_mul_mod_noop(ai@, bi@, ni@);
        assert((ar * br) as int == (ai@ % ni@) * (bi@ % ni@));
        lemma_add_mod_noop_right(1, ai@ * bi@, ni@);
        lemma_mod_twice((ai@ * bi@) % ni@ + 1, ni@);
        assert(m00 as int % ni@ == (ai@ * bi@ + 1) % ni@);
        // (n - (b % n)) % n == (-b) % n
        lemma_mod_multiples_vanish(1, -(br as int), ni@);
        lemma_fundamental_div_mod_converse(0, ni@, 0, 0);
        lemma_sub_mod_noop(0, bi@, ni@);
        lemma_mod_twice(nu as int - br as int, ni@);
        assert(m01 as int % ni@ == (-bi@) % ni@);
        lemma_mod_multiples_vanish(1, -(ar as int), ni@);
        lemma_sub_mod_noop(0, ai@, ni@);
        lemma_mod_twice(nu as int - ar as int, ni@);
        assert(m10 as int % ni@ == (-ai@) % ni@);
        lemma_mapped_injective_inv(ai@, bi@, ni@, m00 as int, m01 as int, m10 as int,
            m11 as int);
    }
    let ghost s0 = img.data@;
    let ch: u8 = img.channels;
    let mut cur: Vec<u8> = img.data.clone();
    proof {
        assert(cur@ =~= s0);
    }
    let mut it: u32 = 0;
    while it < iterations
        invariant
            n > 0,
            nu == n as u64,
            ni@ == n as int,
            ai@ == a as int,
            bi@ == b as int,
            ch == 1 || ch == 3,
            s0.len() == n as int * n as int * ch as int,
            m00 < nu,
            m01 < nu,
            m10 < nu,
            m11 < nu,
            m00 as int % ni@ == (ai@ * bi@ + 1) % ni@,
            m01 as int % ni@ == (-bi@) % ni@,
            m10 as int % ni@ == (-ai@) % ni@,
            m11 as int % ni@ == 1int % ni@,
            forall|p1: int, p2: int|
                0 <= p1 < ni@ * ni@ && 0 <= p2 < ni@ * ni@ && p1 != p2
                    ==> #[trigger] mapped_pixel(m00 as int, m01 as int, m10 as int, m11 as int,
                            ni@, p1)
                        != #[trigger] mapped_pixel(m00 as int, m01 as int, m10 as int,
                            m11 as int, ni@, p2),
            it <= iterations,
            cur@.len() == s0.len(),
            acm_inverse(s0, ai@, bi@, ni@, ch as int, iterations as nat)
                == acm_inverse(cur@, ai@, bi@, ni@, ch as int, (iterations - it) as nat),
        decreases iterations - it,
    {
        let next = acm_apply_round(&cur, n, ch, m00, m01, m10, m11);
        proof {
            lemma_round_exec_inv(cur@, next@, ai@, bi@, ni@, ch as int, m00 as int, m01 as int,
                m10 as int, m11 as int);
            assert(acm_inverse(cur@, ai@, bi@, ni@, ch as int, (iterations - it) as nat)
                == acm_inverse(acm_round_inv(cur@, ai@, bi@, ni@, ch as int), ai@, bi@, ni@,
                    ch as int, (iterations - it - 1) as nat));
        }
        cur = next;
        it = it + 1;
    }
    Ok(PixelBuffer { width: n, height: n, channels: ch, data: cur })
}

/// Shared conclusion for the forward direction: a round computed with
/// residues congruent to the forward matrix equals one forward round.
proof fn lemma_round_exec_fwd(src: Seq<u8>, dest: Seq<u8>, a: int, b: int, n: int, ch: int,
    m00: int, m01: int, m10: int, m11: int)
    requires
        n > 0,
        ch > 0,
        src.len() == n * n * ch,
        dest.len() == src.len(),
        m00 % n == 1int % n,
        m01 % n == b % n,
        m10 % n == a % n,
        m11 % n == (a * b + 1) % n,
        forall|pix: int, c: int|
            0 <= pix < n * n && 0 <= c < ch
                ==> #[trigger] dest[mapped_pixel(m00, m01, m10, m11, n, pix) * ch + c]
                    == src[pix * ch + c],
    ensures
        dest == acm_round_fwd(src, a, b, n, ch),
{
    assert forall|i: int| 0 <= i < src.len() implies dest[i] == acm_round_fwd(src, a, b, n, ch)[i]
        by {
        let c = i % ch;
        let tp = i / ch;
        lemma_fundamental_div_mod(i, ch);
        lemma_mod_bound(i, ch);
        assert(0 <= tp < n * n) by (nonlinear_arith)
            requires
                i == ch * tp + c,
                0 <= c < ch,
                0 <= i < n * n * ch,
                ch > 0,
                n > 0,
        ;
        let tx = tp % n;
        let ty = tp / n;
        lemma_fundamental_div_mod(tp, n);
        lemma_mod_bound(tp, n);
        assert(0 <= ty < n) by (nonlinear_arith)
            requires
                tp == n * ty + tx,
                0 <= tx < n,
                0 <= tp < n * n,
                n > 0,
        ;
        let sx = acm_prev_x(a, b, n, tx, ty);
        let sy = acm_prev_y(a, b, n, tx, ty);
        lemma_mod_bound((a * b + 1) * tx + (-b) * ty, n);
        lemma_mod_bound((-a) * tx + 1 * ty, n);
        lemma_acm_next_of_prev(a, b, n, tx, ty);
        let pix = sy * n + sx;
        assert(0 <= pix < n * n) by (nonlinear_arith)
            requires
                0 <= sx < n,
                0 <= sy < n,
                pix == sy * n + sx,
        ;
        lemma_fundamental_div_mod_converse(pix, n, sy, sx);
        lemma_lin_congruent(m00, m01, 1, b, n, sx, sy);
        lemma_lin_congruent(m10, m11, a, a * b + 1, n, sx, sy);
        assert(mapped_pixel(m00, m01, m10, m11, n, pix) == ty * n + tx);
        assert((ty * n + tx) * ch + c == i) by (nonlinear_arith)
            requires
                i == ch * tp + c,
                tp == n * ty + tx,
        ;
        assert(dest[i] == src[pix * ch + c]);
        assert(acm_round_fwd(src, a, b, n, ch)[i] == src[(sy * n + sx) * ch + c]);
        assert(pix * ch + c == (sy * n + sx) * ch + c);
    };
    assert(dest =~= acm_round_fwd(src, a, b, n, ch));
}

/// Shared conclusion for the inverse direction: a round computed with
/// residues congruent to the inverse matrix equals one inverse round.
proof fn lemma_round_exec_inv(src: Seq<u8>, dest: Seq<u8>, a: int, b: int, n: int, ch: int,
    m00: int, m01: int, m10: int, m11: int)
    requires
        n > 0,
        ch > 0,
        src.len() == n * n * ch,
        dest.len() == src.len(),
        m00 % n == (a * b + 1) % n,
        m01 % n == (-b) % n,
        m10 % n == (-a) % n,
        m11 % n == 1int % n,
        forall|pix: int, c: int|
            0 <= pix < n * n && 0 <= c < ch
                ==> #[trigger] dest[mapped_pixel(m00, m01, m10, m11, n, pix) * ch + c]
                    == src[pix * ch + c],
    ensures
        dest == acm_round_inv(src, a, b, n, ch),
{
    assert forall|i: int| 0 <= i < src.len() implies dest[i] == acm_round_inv(src, a, b, n, ch)[i]
        by {
        let c = i % ch;
        let tp = i / ch;
        lemma_fundamental_div_mod(i, ch);
        lemma_mod_bound(i, ch);
        assert(0 <= tp < n * n) by (nonlinear_arith)
            requires
                i == ch * tp + c,
                0 <= c < ch,
                0 <= i < n * n * ch,
                ch > 0,
                n > 0,
        ;
        let tx = tp % n;
        let ty = tp / n;
        lemma_fundamental_div_mod(tp, n);
        lemma_mod_bound(tp, n);
        assert(0 <= ty < n) by (nonlinear_arith)
            requires
                tp == n * ty + tx,
                0 <= tx < n,
                0 <= tp < n * n,
                n > 0,
        ;
        let sx = acm_next_x(a, b, n, tx, ty);
        let sy = acm_next_y(a, b, n, tx, ty);
        lemma_mod_bound(1 * tx + b * ty, n);
        lemma_mod_bound(a * tx + (a * b + 1) * ty, n);
        lemma_acm_prev_of_next(a, b, n, tx, ty);
        let pix = sy * n + sx;
        assert(0 <= pix < n * n) by (nonlinear_arith)
            requires
                0 <= sx < n,
                0 <= sy < n,
                pix == sy * n + sx,
        ;
        lemma_fundamental_div_mod_converse(pix, n, sy, sx);
        lemma_lin_congruent(m00, m01, a * b + 1, -b, n, sx, sy);
        lemma_lin_congruent(m10, m11, -a, 1, n, sx, sy);
        assert(mapped_pixel(m00, m01, m10, m11, n, pix) == ty * n + tx);
        assert((ty * n + tx) * ch + c == i) by (nonlinear_arith)
            requires
                i == ch * tp + c,
                tp == n * ty + tx,
        ;
        assert(dest[i] == src[pix * ch + c]);
        assert(acm_round_inv(src, a, b, n, ch)[i] == src[(sy * n + sx) * ch + c]);
    };
    assert(dest =~= acm_round_inv(src, a, b, n, ch));
}

} // verus!
