//! Morton (Z-order) keys: three cell indices interleaved bit by bit.
use vstd::arithmetic::div_mod::lemma_mod_breakdown;
use vstd::arithmetic::power2::{lemma2_to64, lemma_pow2_pos, lemma_pow2_unfold, pow2};
use vstd::prelude::*;

verus! {

/// Number of low bits of each cell index that a key holds.
pub const INDEX_BITS: u32 = 21;

/// Whether bit `i` of `x` is set, counting from the least significant bit.
pub open spec fn bit(x: u64, i: u64) -> bool {
    (x >> i) & 1 == 1
}

/// The number whose base-8 digits, from the lowest up, are made of the lowest `n`
/// bits of `x`, `y` and `z`: a bit of `x` counts one, of `y` two and of `z` four.
pub open spec fn interleave(x: nat, y: nat, z: nat, n: nat) -> nat
    decreases n,
{
    if n == 0 {
        0
    } else {
        x % 2 + 2 * (y % 2) + 4 * (z % 2) + 8 * interleave(x / 2, y / 2, z / 2, (n - 1) as nat)
    }
}

/// The key of the cell with indices `ix`, `iy` and `iz`.
pub open spec fn morton_key(ix: u32, iy: u32, iz: u32) -> nat {
    interleave(ix as nat, iy as nat, iz as nat, INDEX_BITS as nat)
}

/// Spreads the low 21 bits of `n`: bit `i` moves to bit `3 * i`, and every other
/// bit of the result is clear.
pub fn part1by2(n: u32) -> (r: u64)
    ensures
        forall|i: u64| i < 21 ==> #[trigger] bit(r, (3 * i) as u64) == bit(n as u64, i),
        r & 0x1249249249249249 == r,
{
    let x0: u64 = n as u64 & 0x1fffff;
    let x1: u64 = (x0 | x0 << 32) & 0x1f00000000ffff;
    let x2: u64 = (x1 | x1 << 16) & 0x1f0000ff0000ff;
    let x3: u64 = (x2 | x2 << 8) & 0x100f00f00f00f00f;
    let x4: u64 = (x3 | x3 << 4) & 0x10c30c30c30c30c3;
    let x5: u64 = (x4 | x4 << 2) & 0x1249249249249249;
    proof {
        assert forall|i: u64| i < 21 implies #[trigger] bit(x5, (3 * i) as u64) == bit(
            n as u64,
            i,
        ) by {
            let m: u64 = n as u64;
            let j: u64 = (3 * i) as u64;
            assert(((x5 >> j) & 1 == 1) == ((m >> i) & 1 == 1)) by (bit_vector)
                requires
                    i < 21,
                    j == 3 * i,
                    x0 == m & 0x1fffff,
                    x1 == (x0 | x0 << 32) & 0x1f00000000ffff,
                    x2 == (x1 | x1 << 16) & 0x1f0000ff0000ff,
                    x3 == (x2 | x2 << 8) & 0x100f00f00f00f00f,
                    x4 == (x3 | x3 << 4) & 0x10c30c30c30c30c3,
                    x5 == (x4 | x4 << 2) & 0x1249249249249249,
            ;
        }
        assert(x5 & 0x1249249249249249 == x5) by (bit_vector)
            requires
                x5 == (x4 | x4 << 2) & 0x1249249249249249,
        ;
    }
    x5
}

/// A number below `8^n` whose bits are those of `x`, `y` and `z` in turn is their
/// interleaving.
proof fn lemma_bits_interleave(k: u64, x: u64, y: u64, z: u64, n: u64)
    requires
        n <= 21,
        k >> ((3 * n) as u64) == 0,
        forall|i: u64| i < n ==> #[trigger] bit(k, (3 * i) as u64) == bit(x, i),
        forall|i: u64| i < n ==> #[trigger] bit(k, (3 * i + 1) as u64) == bit(y, i),
        forall|i: u64| i < n ==> #[trigger] bit(k, (3 * i + 2) as u64) == bit(z, i),
    ensures
        k == interleave(x as nat, y as nat, z as nat, n as nat),
    decreases n,
{
    if n == 0 {
        assert(k == 0) by (bit_vector)
            requires
                k >> 0u64 == 0,
        ;
    } else {
        let m = (n - 1) as u64;
        let (k2, x2, y2, z2) = (k >> 3, x >> 1, y >> 1, z >> 1);
        assert forall|i: u64| i < m implies {
            &&& #[trigger] bit(k2, (3 * i) as u64) == bit(x2, i)
            &&& bit(k2, (3 * i + 1) as u64) == bit(y2, i)
            &&& bit(k2, (3 * i + 2) as u64) == bit(z2, i)
        } by {
            let p = (i + 1) as u64;
            let j = (3 * i) as u64;
            assert(bit(k, (3 * p) as u64) == bit(x, p));
            assert(bit(k, (3 * p + 1) as u64) == bit(y, p));
            assert(bit(k, (3 * p + 2) as u64) == bit(z, p));
            assert((k >> 3) >> j == k >> ((j + 3) as u64) && (k >> 3) >> ((j + 1) as u64) == k >> ((j
                + 4) as u64) && (k >> 3) >> ((j + 2) as u64) == k >> ((j + 5) as u64)) by (bit_vector)
                requires
                    j < 58,
            ;
            assert((x >> 1) >> i == x >> p && (y >> 1) >> i == y >> p && (z >> 1) >> i == z >> p)
                by (bit_vector)
                requires
                    i < 60,
                    p == i + 1,
            ;
        }
        assert forall|i: u64| i < m implies #[trigger] bit(k2, (3 * i + 1) as u64) == bit(y2, i) by {
            assert(bit(k2, (3 * i) as u64) == bit(x2, i));
        }
        assert forall|i: u64| i < m implies #[trigger] bit(k2, (3 * i + 2) as u64) == bit(z2, i) by {
            assert(bit(k2, (3 * i) as u64) == bit(x2, i));
        }
        let (s, s2) = ((3 * n) as u64, (3 * m) as u64);
        assert((k >> 3) >> s2 == 0) by (bit_vector)
            requires
                k >> s == 0,
                s == s2 + 3,
                s < 64,
        ;
        lemma_bits_interleave(k2, x2, y2, z2, m);
        assert(bit(k, (3 * 0u64) as u64) == bit(x, 0));
        assert(bit(k, (3 * 0u64 + 1) as u64) == bit(y, 0));
        assert(bit(k, (3 * 0u64 + 2) as u64) == bit(z, 0));
        assert(x >> 1 == x / 2 && y >> 1 == y / 2 && z >> 1 == z / 2) by (bit_vector);
        assert(k == x % 2 + 2 * (y % 2) + 4 * (z % 2) + 8 * (k >> 3)) by (bit_vector)
            requires
                ((k >> 0) & 1 == 1) == ((x >> 0) & 1 == 1),
                ((k >> 1) & 1 == 1) == ((y >> 0) & 1 == 1),
                ((k >> 2) & 1 == 1) == ((z >> 0) & 1 == 1),
        ;
    }
}

/// The Morton key of the cell with indices `ix`, `iy` and `iz`.
pub fn morton3d(ix: u32, iy: u32, iz: u32) -> (key: u64)
    ensures
        key == morton_key(ix, iy, iz),
{
    let (a, b, c): (u64, u64, u64) = (part1by2(ix), part1by2(iy), part1by2(iz));
    let key: u64 = a | (b << 1) | (c << 2);
    proof {
        assert forall|i: u64| i < 21 implies {
            &&& #[trigger] bit(key, (3 * i) as u64) == bit(ix as u64, i)
            &&& bit(key, (3 * i + 1) as u64) == bit(iy as u64, i)
            &&& bit(key, (3 * i + 2) as u64) == bit(iz as u64, i)
        } by {
            let j = (3 * i) as u64;
            assert(bit(a, (3 * i) as u64) == bit(ix as u64, i));
            assert(bit(b, (3 * i) as u64) == bit(iy as u64, i));
            assert(bit(c, (3 * i) as u64) == bit(iz as u64, i));
            assert(((key >> j) & 1 == 1) == ((a >> j) & 1 == 1) && ((key >> ((j + 1) as u64)) & 1 == 1)
                == ((b >> j) & 1 == 1) && ((key >> ((j + 2) as u64)) & 1 == 1) == ((c >> j) & 1 == 1))
                by (bit_vector)
                requires
                    key == a | (b << 1) | (c << 2),
                    a & 0x1249249249249249 == a,
                    b & 0x1249249249249249 == b,
                    c & 0x1249249249249249 == c,
                    i < 21,
                    j == 3 * i,
            ;
        }
        assert forall|i: u64| i < 21 implies #[trigger] bit(key, (3 * i + 1) as u64) == bit(
            iy as u64,
            i,
        ) by {
            assert(bit(key, (3 * i) as u64) == bit(ix as u64, i));
        }
        assert forall|i: u64| i < 21 implies #[trigger] bit(key, (3 * i + 2) as u64) == bit(
            iz as u64,
            i,
        ) by {
            assert(bit(key, (3 * i) as u64) == bit(ix as u64, i));
        }
        assert(key >> 63 == 0) by (bit_vector)
            requires
                key == a | (b << 1) | (c << 2),
                a & 0x1249249249249249 == a,
                b & 0x1249249249249249 == b,
                c & 0x1249249249249249 == c,
        ;
        lemma_bits_interleave(key, ix as u64, iy as u64, iz as u64, 21);
    }
    key
}

/// Interleavings of `n` bits agree exactly when their operands agree modulo `2^n`.
proof fn lemma_interleave_agrees(a: (nat, nat, nat), b: (nat, nat, nat), n: nat)
    ensures
        interleave(a.0, a.1, a.2, n) == interleave(b.0, b.1, b.2, n) <==> {
            &&& a.0 % pow2(n) == b.0 % pow2(n)
            &&& a.1 % pow2(n) == b.1 % pow2(n)
            &&& a.2 % pow2(n) == b.2 % pow2(n)
        },
    decreases n,
{
    lemma2_to64();
    if n > 0 {
        let m = (n - 1) as nat;
        let (a2, b2) = ((a.0 / 2, a.1 / 2, a.2 / 2), (b.0 / 2, b.1 / 2, b.2 / 2));
        lemma_interleave_agrees(a2, b2, m);
        lemma_pow2_unfold(n);
        lemma_pow2_pos(m);
        lemma_mod_breakdown(a.0 as int, 2, pow2(m) as int);
        lemma_mod_breakdown(a.1 as int, 2, pow2(m) as int);
        lemma_mod_breakdown(a.2 as int, 2, pow2(m) as int);
        lemma_mod_breakdown(b.0 as int, 2, pow2(m) as int);
        lemma_mod_breakdown(b.1 as int, 2, pow2(m) as int);
        lemma_mod_breakdown(b.2 as int, 2, pow2(m) as int);
    }
}

/// Two cells have the same key exactly when their indices agree in their low 21
/// bits: below `2^21` cells per axis no two cells share a key.
pub proof fn law_key_names_cell(a: (u32, u32, u32), b: (u32, u32, u32))
    ensures
        morton_key(a.0, a.1, a.2) == morton_key(b.0, b.1, b.2) <==> {
            &&& a.0 % 0x200000 == b.0 % 0x200000
            &&& a.1 % 0x200000 == b.1 % 0x200000
            &&& a.2 % 0x200000 == b.2 % 0x200000
        },
{
    lemma2_to64();
    lemma_interleave_agrees(
        (a.0 as nat, a.1 as nat, a.2 as nat),
        (b.0 as nat, b.1 as nat, b.2 as nat),
        21,
    );
}

/// An interleaving of `n` bits of three numbers has `3 * n` bits.
proof fn lemma_interleave_bound(x: nat, y: nat, z: nat, n: nat)
    ensures
        interleave(x, y, z, n) < pow2(3 * n),
    decreases n,
{
    lemma2_to64();
    if n > 0 {
        lemma_interleave_bound(x / 2, y / 2, z / 2, (n - 1) as nat);
        lemma_pow2_unfold(3 * n);
        lemma_pow2_unfold((3 * n - 1) as nat);
        lemma_pow2_unfold((3 * n - 2) as nat);
    }
}

/// Every key fits in 63 bits.
pub proof fn law_key_range(ix: u32, iy: u32, iz: u32)
    ensures
        morton_key(ix, iy, iz) < 0x8000_0000_0000_0000,
{
    lemma_interleave_bound(ix as nat, iy as nat, iz as nat, 21);
    assert(pow2(63) == 0x8000_0000_0000_0000) by {
        vstd::arithmetic::power2::lemma2_to64_rest();
    }
}

/// Bits above the highest that is set add nothing.
proof fn lemma_interleave_of_few_bits(x: nat, y: nat, z: nat, n: nat)
    requires
        x < pow2(n),
        y < pow2(n),
        z < pow2(n),
    ensures
        interleave(x, y, z, n + 1) == interleave(x, y, z, n),
    decreases n,
{
    lemma2_to64();
    if n > 0 {
        lemma_pow2_unfold(n);
        lemma_interleave_of_few_bits(x / 2, y / 2, z / 2, (n - 1) as nat);
    } else {
        assert(interleave(x / 2, y / 2, z / 2, 0) == 0);
    }
}

/// A key grows by three bits when each index grows by one: the lowest bit is that of the
/// first index, the next that of the second and the third that of the third.
pub proof fn law_key_grows_by_three_bits(
    x: u32,
    y: u32,
    z: u32,
    a: u32,
    b: u32,
    c: u32,
)
    requires
        x < 0x100000 && y < 0x100000 && z < 0x100000,
        a < 2 && b < 2 && c < 2,
    ensures
        morton_key((2 * x + a) as u32, (2 * y + b) as u32, (2 * z + c) as u32) == 8 * morton_key(
            x,
            y,
            z,
        ) + a + 2 * b + 4 * c,
{
    lemma2_to64();
    lemma_interleave_of_few_bits(x as nat, y as nat, z as nat, 20);
    let (u, v, w) = ((2 * x + a) as nat, (2 * y + b) as nat, (2 * z + c) as nat);
    assert(u / 2 == x && v / 2 == y && w / 2 == z);
    assert(interleave(u, v, w, 21) == u % 2 + 2 * (v % 2) + 4 * (w % 2) + 8 * interleave(
        u / 2,
        v / 2,
        w / 2,
        20,
    ));
}

} // verus!
