use vstd::prelude::*;
use vstd::arithmetic::div_mod::{
    lemma_add_mod_noop, lemma_mod_bound, lemma_mod_multiples_vanish, lemma_mul_mod_noop_right,
    lemma_small_mod, lemma_sub_mod_noop,
};
use crate::buffer::PixelBuffer;

verus! {

/// The substitution layer: a fixed bijection on byte values, applied to
/// every channel of every pixel independently of position. The forward
/// table is the affine map `x -> 45*x + 99 (mod 256)`; since 45 is odd it
/// is invertible mod 256, with inverse `y -> 165*(y - 99) (mod 256)`
/// (`45 * 165 = 7425 = 29 * 256 + 1`). The bijection therefore holds by
/// construction, not by a runtime check.
pub open spec fn sub_byte(x: u8) -> u8 {
    ((45 * (x as int) + 99) % 256) as u8
}

/// The inverse of [`sub_byte`].
pub open spec fn inv_sub_byte(y: u8) -> u8 {
    ((165 * ((y as int) - 99)) % 256) as u8
}

/// A whole buffer's bytes pushed through the forward substitution.
pub open spec fn apply_sub_spec(s: Seq<u8>) -> Seq<u8> {
    s.map_values(|b: u8| sub_byte(b))
}

/// A whole buffer's bytes pushed through the inverse substitution.
pub open spec fn apply_inv_sub_spec(s: Seq<u8>) -> Seq<u8> {
    s.map_values(|b: u8| inv_sub_byte(b))
}

/// The inverse table undoes the forward table on every byte value.
pub proof fn lemma_sub_byte_inverse(x: u8)
    ensures
        inv_sub_byte(sub_byte(x)) == x,
{
    let xi = x as int;
    let s = (45 * xi + 99) % 256;
    lemma_mod_bound(45 * xi + 99, 256);
    assert(sub_byte(x) as int == s);
    // 165 * (s - 99) is congruent to 165 * (45*x + 99) - 16335 mod 256
    lemma_sub_mod_noop(165 * s, 16335int, 256);
    lemma_mul_mod_noop_right(165, 45 * xi + 99, 256);
    lemma_sub_mod_noop(165 * (45 * xi + 99), 16335int, 256);
    assert(165 * (s - 99) == 165 * s - 16335) by (nonlinear_arith)
        requires
            s == (45 * xi + 99) % 256,
    ;
    assert(165 * (45 * xi + 99) - 16335 == 256 * (29 * xi) + xi) by (nonlinear_arith);
    lemma_mod_multiples_vanish(29 * xi, xi, 256);
    lemma_small_mod(x as nat, 256);
}

/// The forward table undoes the inverse table on every byte value.
pub proof fn lemma_sub_byte_surjective(y: u8)
    ensures
        sub_byte(inv_sub_byte(y)) == y,
{
    let yi = y as int;
    let t = (165 * (yi - 99)) % 256;
    lemma_mod_bound(165 * (yi - 99), 256);
    assert(inv_sub_byte(y) as int == t);
    // 45 * t + 99 is congruent to 45 * (165 * (y - 99)) + 99 mod 256
    lemma_add_mod_noop(45 * t, 99int, 256);
    lemma_mul_mod_noop_right(45, 165 * (yi - 99), 256);
    lemma_add_mod_noop(45 * (165 * (yi - 99)), 99int, 256);
    assert(45 * (165 * (yi - 99)) + 99 == 256 * (29 * yi - 2871) + yi) by (nonlinear_arith);
    lemma_mod_multiples_vanish(29 * yi - 2871, yi, 256);
    lemma_small_mod(y as nat, 256);
}

/// Applying the substitution and then its inverse returns every buffer
/// unchanged.
pub proof fn lemma_substitution_round_trip(s: Seq<u8>)
    ensures
        apply_inv_sub_spec(apply_sub_spec(s)) == s,
{
    assert forall|i: int| 0 <= i < s.len() implies
        apply_inv_sub_spec(apply_sub_spec(s))[i] == s[i] by {
        lemma_sub_byte_inverse(s[i]);
    }
    assert(apply_inv_sub_spec(apply_sub_spec(s)) =~= s);
}

/// The forward substitution table: entry `x` holds `sub_byte(x)`.
pub fn substitution_table() -> (t: Vec<u8>)
    ensures
        t@.len() == 256,
        forall|i: int| 0 <= i < 256 ==> t@[i] == sub_byte(i as u8),
{
    let mut t: Vec<u8> = Vec::new();
    let mut i: usize = 0;
    while i < 256
        invariant
            i <= 256,
            t@.len() == i as int,
            forall|j: int| 0 <= j < i as int ==> t@[j] == sub_byte(j as u8),
        decreases 256 - i,
    {
        let v: u32 = (45 * (i as u32) + 99) % 256;
        t.push(v as u8);
        i = i + 1;
    }
    t
}

/// The inverse substitution table: entry `y` holds `inv_sub_byte(y)`.
pub fn inverse_substitution_table() -> (t: Vec<u8>)
    ensures
        t@.len() == 256,
        forall|i: int| 0 <= i < 256 ==> t@[i] == inv_sub_byte(i as u8),
{
    let mut t: Vec<u8> = Vec::new();
    let mut i: usize = 0;
    while i < 256
        invariant
            i <= 256,
            t@.len() == i as int,
            forall|j: int| 0 <= j < i as int ==> t@[j] == inv_sub_byte(j as u8),
        decreases 256 - i,
    {
        // 165 * (i - 99) mod 256, computed without going negative:
        // 165 * (i - 99) + 64 * 256 == 165 * i + 49, and 64 * 256 is a
        // multiple of the modulus.
        let v: u32 = (165 * (i as u32) + 49) % 256;
        proof {
            let ii = i as int;
            assert(165 * ii + 49 == 256 * 64 + 165 * (ii - 99)) by (nonlinear_arith);
            lemma_mod_multiples_vanish(64, 165 * (ii - 99), 256);
        }
        t.push(v as u8);
        i = i + 1;
    }
    t
}

/// Apply the fixed substitution table to every byte of the buffer,
/// in place.
pub fn apply_sbox(img: PixelBuffer) -> (r: PixelBuffer)
    ensures
        r.width == img.width,
        r.height == img.height,
        r.channels == img.channels,
        r.data@ == apply_sub_spec(img.data@),
{
    let table = substitution_table();
    let ghost orig = img;
    let mut img = img;
    let n = img.data.len();
    let mut i: usize = 0;
    while i < n
        invariant
            img.width == orig.width,
            img.height == orig.height,
            img.channels == orig.channels,
            n == orig.data@.len(),
            img.data@.len() == n as int,
            i <= n,
            table@.len() == 256,
            forall|j: int| 0 <= j < 256 ==> table@[j] == sub_byte(j as u8),
            forall|j: int| 0 <= j < i as int ==> img.data@[j] == sub_byte(orig.data@[j]),
            forall|j: int| i as int <= j && j < n as int ==> img.data@[j] == orig.data@[j],
        decreases n - i,
    {
        let b = img.data[i];
        img.data[i] = table[b as usize];
        i = i + 1;
    }
    proof {
        assert(img.data@ =~= apply_sub_spec(orig.data@));
    }
    img
}

/// Apply the inverse substitution table to every byte of the buffer,
/// in place.
pub fn apply_inverse_sbox(img: PixelBuffer) -> (r: PixelBuffer)
    ensures
        r.width == img.width,
        r.height == img.height,
        r.channels == img.channels,
        r.data@ == apply_inv_sub_spec(img.data@),
{
    let table = inverse_substitution_table();
    let ghost orig = img;
    let mut img = img;
    let n = img.data.len();
    let mut i: usize = 0;
    while i < n
        invariant
            img.width == orig.width,
            img.height == orig.height,
            img.channels == orig.channels,
            n == orig.data@.len(),
            img.data@.len() == n as int,
            i <= n,
            table@.len() == 256,
            forall|j: int| 0 <= j < 256 ==> table@[j] == inv_sub_byte(j as u8),
            forall|j: int| 0 <= j < i as int ==> img.data@[j] == inv_sub_byte(orig.data@[j]),
            forall|j: int| i as int <= j && j < n as int ==> img.data@[j] == orig.data@[j],
        decreases n - i,
    {
        let b = img.data[i];
        img.data[i] = table[b as usize];
        i = i + 1;
    }
    proof {
        assert(img.data@ =~= apply_inv_sub_spec(orig.data@));
    }
    img
}

} // verus!
