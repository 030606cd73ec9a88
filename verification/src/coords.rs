//! Chunk-grid coordinates and the geometry of the visible window.

use vstd::prelude::*;

verus! {

/// Grid coordinate of a chunk. World space is partitioned into squares of
/// `chunk_size` x `chunk_size` tiles; the chunk at `ChunkCoord { x, y }`
/// covers world positions `[x * chunk_size, (x+1) * chunk_size)` on each axis.
#[derive(Clone, Copy, Debug, PartialEq, Eq, Structural, Hash)]
pub struct ChunkCoord {
    pub x: i32,
    pub y: i32,
}

/// Absolute value of a mathematical integer.
pub open spec fn abs_int(v: int) -> int {
    if v < 0 {
        -v
    } else {
        v
    }
}

/// Chebyshev distance between two chunk coordinates: the maximum of the
/// per-axis absolute differences. The visible window of radius `d` around a
/// player is exactly the set of coordinates at Chebyshev distance at most `d`.
pub open spec fn chebyshev(a: ChunkCoord, b: ChunkCoord) -> int {
    let dx = abs_int(a.x - b.x);
    let dy = abs_int(a.y - b.y);
    if dx >= dy {
        dx
    } else {
        dy
    }
}

/// Computes the Chebyshev distance between two chunk coordinates.
pub fn chebyshev_distance(a: ChunkCoord, b: ChunkCoord) -> (d: i64)
    ensures
        d == chebyshev(a, b),
{
    let dx: i64 = if a.x >= b.x {
        a.x as i64 - b.x as i64
    } else {
        b.x as i64 - a.x as i64
    };
    let dy: i64 = if a.y >= b.y {
        a.y as i64 - b.y as i64
    } else {
        b.y as i64 - a.y as i64
    };
    if dx >= dy {
        dx
    } else {
        dy
    }
}

/// True when `c` lies in the square window of half-width `view_distance`
/// centred on `center`.
pub open spec fn in_window(center: ChunkCoord, view_distance: int, c: ChunkCoord) -> bool {
    chebyshev(center, c) <= view_distance
}

/// Decides window membership: whether `c` is within Chebyshev distance
/// `view_distance` of `center`.
pub fn window_contains(center: ChunkCoord, view_distance: i32, c: ChunkCoord) -> (r: bool)
    ensures
        r == in_window(center, view_distance as int, c),
{
    chebyshev_distance(center, c) <= view_distance as i64
}

/// Floor division on one world axis: the chunk index whose span of
/// `chunk_size` world cells contains world position `w`. Spec-level `/` is
/// Euclidean division, which for a positive divisor is exactly floor
/// division; truncating division would misplace negative positions.
pub fn world_to_chunk_axis(w: i64, chunk_size: i64) -> (q: i64)
    requires
        1 <= chunk_size <= 0x7fff_ffff,
        -0x4000_0000_0000_0000 <= w <= 0x4000_0000_0000_0000,
    ensures
        q == w as int / chunk_size as int,
        q * chunk_size <= w < (q + 1) * chunk_size,
{
    let q: i64 = if w >= 0 {
        w / chunk_size
    } else {
        -((-w + chunk_size - 1) / chunk_size)
    };
    proof {
        let wi = w as int;
        let s = chunk_size as int;
        if w >= 0 {
            vstd::arithmetic::div_mod::lemma_fundamental_div_mod(wi, s);
            vstd::arithmetic::div_mod::lemma_mod_bound(wi, s);
        } else {
            let n = (-wi + s - 1);
            vstd::arithmetic::div_mod::lemma_fundamental_div_mod(n, s);
            vstd::arithmetic::div_mod::lemma_mod_bound(n, s);
            // wi == q * s + r with r == s - 1 - n % s, and 0 <= r < s
            let r = s - 1 - n % s;
            assert(wi == q * s + r) by (nonlinear_arith)
                requires
                    q == -(n / s),
                    n == -wi + s - 1,
                    n == s * (n / s) + n % s,
                    r == s - 1 - n % s,
            ;
            vstd::arithmetic::div_mod::lemma_fundamental_div_mod_converse_div(wi, s, q as int, r);
        }
        vstd::arithmetic::div_mod::lemma_fundamental_div_mod(wi, s);
        vstd::arithmetic::div_mod::lemma_mod_bound(wi, s);
        assert(q * s <= wi < (q + 1) * s) by (nonlinear_arith)
            requires
                q == wi / s,
                wi == s * (wi / s) + wi % s,
                0 <= wi % s < s,
        ;
    }
    q
}

/// Derives the chunk coordinate that contains a world position, using floor
/// division on each axis.
pub fn world_to_chunk(world_x: i64, world_y: i64, chunk_size: i64) -> (c: ChunkCoord)
    requires
        1 <= chunk_size <= 0x7fff_ffff,
        -0x7fff_ffff * chunk_size <= world_x <= 0x7fff_ffff * chunk_size,
        -0x7fff_ffff * chunk_size <= world_y <= 0x7fff_ffff * chunk_size,
    ensures
        c.x == world_x as int / chunk_size as int,
        c.y == world_y as int / chunk_size as int,
{
    let qx = world_to_chunk_axis(world_x, chunk_size);
    let qy = world_to_chunk_axis(world_y, chunk_size);
    proof {
        let s = chunk_size as int;
        assert(-0x7fff_ffff <= qx <= 0x7fff_ffff) by (nonlinear_arith)
            requires
                qx * s <= world_x < (qx + 1) * s,
                -0x7fff_ffff * s <= world_x <= 0x7fff_ffff * s,
                1 <= s,
        ;
        assert(-0x7fff_ffff <= qy <= 0x7fff_ffff) by (nonlinear_arith)
            requires
                qy * s <= world_y < (qy + 1) * s,
                -0x7fff_ffff * s <= world_y <= 0x7fff_ffff * s,
                1 <= s,
        ;
    }
    ChunkCoord { x: qx as i32, y: qy as i32 }
}

} // verus!
