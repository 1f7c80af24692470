//! Integer 3D coordinates, the cubic grid domain, and the packed row-major
//! index used to key the sparse cell map.

use vstd::prelude::*;
use vstd::arithmetic::div_mod::{
    lemma_fundamental_div_mod, lemma_fundamental_div_mod_converse, lemma_mod_bound,
};
use rand::Rng;

verus! {

/// How far, per axis, a noise sample may land from the grid center.
pub const NOISE_RADIUS: i32 = 7;

/// How many random samples one seeding pass draws (12 cubed).
pub const NOISE_AMOUNT: u32 = 1728;

/// Largest edge length the engine accepts: keeps the packed row-major index
/// of any in-domain coordinate within `u64` (`MAX_BOUNDS` cubed is `2^60`).
pub const MAX_BOUNDS: i32 = 1048576;

/// An integer 3D coordinate. Two coordinates are equal iff all components
/// match; no ordering is imposed.
#[derive(Clone, Copy, PartialEq, Eq, Structural, Debug)]
pub struct Pos {
    pub x: i32,
    pub y: i32,
    pub z: i32,
}

/// Whether `p` lies in the cubic grid domain `[0, size)` on every axis.
pub open spec fn in_domain(p: Pos, size: int) -> bool {
    &&& 0 <= p.x < size
    &&& 0 <= p.y < size
    &&& 0 <= p.z < size
}

/// Row-major packed index of an in-domain coordinate: `x + size*(y + size*z)`.
pub open spec fn pos_index(p: Pos, size: int) -> int {
    p.x + size * (p.y + size * p.z)
}

/// Inverse of `pos_index` on `[0, size^3)`.
pub open spec fn index_pos(k: int, size: int) -> Pos {
    Pos {
        x: (k % size) as i32,
        y: ((k / size) % size) as i32,
        z: (k / (size * size)) as i32,
    }
}

/// Componentwise sum of a coordinate and an offset (wrapping casts keep the
/// spec total; all uses stay far from the `i32` range ends).
pub open spec fn padd(p: Pos, o: Pos) -> Pos {
    Pos { x: (p.x + o.x) as i32, y: (p.y + o.y) as i32, z: (p.z + o.z) as i32 }
}

/// Componentwise difference of a coordinate and an offset.
pub open spec fn psub(p: Pos, o: Pos) -> Pos {
    Pos { x: (p.x - o.x) as i32, y: (p.y - o.y) as i32, z: (p.z - o.z) as i32 }
}

/// Componentwise negation of an offset.
pub open spec fn pneg(o: Pos) -> Pos {
    Pos { x: (-o.x) as i32, y: (-o.y) as i32, z: (-o.z) as i32 }
}

/// The grid center: `size / 2` on every axis.
pub open spec fn center_spec(size: int) -> Pos {
    Pos { x: (size / 2) as i32, y: (size / 2) as i32, z: (size / 2) as i32 }
}

/// An in-domain coordinate has a packed index in `[0, size^3)`, and decoding
/// that index gives the coordinate back.
pub proof fn lemma_pos_index_roundtrip(p: Pos, size: int)
    requires
        0 < size,
        in_domain(p, size),
    ensures
        0 <= pos_index(p, size) < size * size * size,
        index_pos(pos_index(p, size), size) == p,
{
    let k = pos_index(p, size);
    let q = p.y + size * p.z;
    assert(0 <= q < size * size) by (nonlinear_arith)
        requires 0 <= p.y < size && 0 <= p.z < size && q == p.y + size * p.z;
    assert(k == q * size + p.x) by (nonlinear_arith)
        requires k == p.x + size * q;
    assert(0 <= k < size * size * size) by (nonlinear_arith)
        requires k == q * size + p.x && 0 <= q < size * size && 0 <= p.x < size && 0 < size;
    lemma_fundamental_div_mod_converse(k, size, q, p.x as int);
    assert(k % size == p.x);
    assert(k / size == q);
    assert(q == p.z * size + p.y) by (nonlinear_arith)
        requires q == p.y + size * p.z;
    lemma_fundamental_div_mod_converse(q, size, p.z as int, p.y as int);
    assert(q % size == p.y);
    assert(q / size == p.z);
    assert(k / (size * size) == p.z) by {
        assert(k == p.z * (size * size) + (q % size) * size + p.x) by (nonlinear_arith)
            requires k == q * size + p.x && q == p.z * size + p.y && q % size == p.y;
        assert(0 <= (q % size) * size + p.x < size * size) by (nonlinear_arith)
            requires 0 <= q % size < size && 0 <= p.x < size;
        lemma_fundamental_div_mod_converse(
            k,
            size * size,
            p.z as int,
            (q % size) * size + p.x,
        );
    }
}

/// Any index in `[0, size^3)` decodes to an in-domain coordinate whose packed
/// index is the original value: the packing is a bijection with the domain.
pub proof fn lemma_index_pos_roundtrip(k: int, size: int)
    requires
        0 < size <= MAX_BOUNDS,
        0 <= k < size * size * size,
    ensures
        in_domain(index_pos(k, size), size),
        pos_index(index_pos(k, size), size) == k,
{
    lemma_mod_bound(k, size);
    let x = k % size;
    let q = k / size;
    lemma_fundamental_div_mod(k, size);
    assert(k == size * q + x);
    assert(0 <= q < size * size) by (nonlinear_arith)
        requires k == size * q + x && 0 <= x < size && 0 <= k < size * size * size && 0 < size;
    lemma_mod_bound(q, size);
    let y = q % size;
    let z = q / size;
    lemma_fundamental_div_mod(q, size);
    assert(q == size * z + y);
    assert(0 <= z < size) by (nonlinear_arith)
        requires q == size * z + y && 0 <= y < size && 0 <= q < size * size && 0 < size;
    assert(k / (size * size) == z) by {
        assert(k == z * (size * size) + (y * size + x)) by (nonlinear_arith)
            requires k == size * q + x && q == size * z + y;
        assert(0 <= y * size + x < size * size) by (nonlinear_arith)
            requires 0 <= y < size && 0 <= x < size;
        lemma_fundamental_div_mod_converse(k, size * size, z, y * size + x);
    }
    assert(pos_index(index_pos(k, size), size) == x + size * (y + size * z));
    assert(x + size * (y + size * z) == k) by (nonlinear_arith)
        requires k == size * q + x && q == size * z + y;
}

/// The grid center coordinate, `bounds / 2` on every axis.
pub fn center(bounds: i32) -> (r: Pos)
    requires
        0 <= bounds,
    ensures
        r == center_spec(bounds as int),
{
    let c = bounds / 2;
    Pos { x: c, y: c, z: c }
}

/// `p` shifted so the grid center maps to the origin, for downstream
/// placement by a renderer.
pub open spec fn translate_center(p: Pos, size: int) -> Pos {
    let c = center_spec(size);
    Pos { x: (p.x - c.x) as i32, y: (p.y - c.y) as i32, z: (p.z - c.z) as i32 }
}

/// Whether `p` lies within the noise sampling box: at most `NOISE_RADIUS`
/// from the grid center along each axis.
pub open spec fn in_noise_box(p: Pos, size: int) -> bool {
    let c = center_spec(size);
    &&& c.x - NOISE_RADIUS <= p.x <= c.x + NOISE_RADIUS
    &&& c.y - NOISE_RADIUS <= p.y <= c.y + NOISE_RADIUS
    &&& c.z - NOISE_RADIUS <= p.z <= c.z + NOISE_RADIUS
}

/// Relies on `rand::thread_rng` and `rand::Rng::gen_range`: a uniformly
/// random integer drawn from the non-empty inclusive range `[lo, hi]`.
#[verifier::external_body]
fn random_in_range(lo: i32, hi: i32) -> (r: i32)
    requires
        lo <= hi,
    ensures
        lo <= r <= hi,
{
    rand::thread_rng().gen_range(lo..=hi)
}

/// Draws one random noise coordinate: the center displaced by independent
/// uniform offsets in `[-NOISE_RADIUS, NOISE_RADIUS]` per axis.
pub fn noise_point(center: Pos) -> (r: Pos)
    requires
        0 <= center.x <= MAX_BOUNDS,
        0 <= center.y <= MAX_BOUNDS,
        0 <= center.z <= MAX_BOUNDS,
    ensures
        center.x - NOISE_RADIUS <= r.x <= center.x + NOISE_RADIUS,
        center.y - NOISE_RADIUS <= r.y <= center.y + NOISE_RADIUS,
        center.z - NOISE_RADIUS <= r.z <= center.z + NOISE_RADIUS,
{
    let dx = random_in_range(-NOISE_RADIUS, NOISE_RADIUS);
    let dy = random_in_range(-NOISE_RADIUS, NOISE_RADIUS);
    let dz = random_in_range(-NOISE_RADIUS, NOISE_RADIUS);
    Pos { x: center.x + dx, y: center.y + dy, z: center.z + dz }
}

/// Packs an in-domain coordinate into its row-major index.
pub fn pos_to_idx(pos: Pos, bounds: i32) -> (r: u64)
    requires
        0 < bounds <= MAX_BOUNDS,
        in_domain(pos, bounds as int),
    ensures
        r == pos_index(pos, bounds as int),
        0 <= r < (bounds as int) * (bounds as int) * (bounds as int),
{
    proof {
        let s = bounds as int;
        lemma_pos_index_roundtrip(pos, s);
        assert(0 <= (pos.y as int) + s * (pos.z as int) < s * s) by (nonlinear_arith)
            requires 0 <= pos.y < s && 0 <= pos.z < s;
        assert(s * s <= 0x10000000000) by (nonlinear_arith)
            requires 0 < s <= 0x100000;
        assert(s * (pos.y + s * pos.z) <= s * (s * s - 1)) by (nonlinear_arith)
            requires 0 < s && 0 <= (pos.y as int) + s * (pos.z as int) <= s * s - 1;
        assert(s * (s * s - 1) < 0x1000000000000000) by (nonlinear_arith)
            requires 0 < s <= 0x100000;
    }
    let b = bounds as u64;
    (pos.x as u64) + b * ((pos.y as u64) + b * (pos.z as u64))
}

/// Unpacks a row-major index into its in-domain coordinate.
pub fn idx_to_pos(idx: u64, bounds: i32) -> (r: Pos)
    requires
        0 < bounds <= MAX_BOUNDS,
        idx < (bounds as int) * (bounds as int) * (bounds as int),
    ensures
        r == index_pos(idx as int, bounds as int),
        in_domain(r, bounds as int),
        pos_index(r, bounds as int) == idx,
{
    proof {
        let s = bounds as int;
        lemma_index_pos_roundtrip(idx as int, s);
        assert(0 < s * s <= 0x10000000000) by (nonlinear_arith)
            requires 0 < s <= 0x100000;
    }
    let b = bounds as u64;
    Pos {
        x: (idx % b) as i32,
        y: ((idx / b) % b) as i32,
        z: (idx / (b * b)) as i32,
    }
}

} // verus!
