//! Enumeration of the visible window: all chunk coordinates within a given
//! Chebyshev distance of a centre, as a duplicate-free vector.

use crate::coords::{in_window, ChunkCoord};
use crate::table::{set_contains, set_distinct};
use vstd::arithmetic::div_mod::{
    lemma_fundamental_div_mod,
    lemma_fundamental_div_mod_converse_div,
    lemma_fundamental_div_mod_converse_mod,
    lemma_mod_bound,
};
use vstd::prelude::*;

verus! {

/// Largest centre magnitude and view distance the enumeration accepts;
/// keeps every window coordinate inside `i32`.
pub open spec fn window_center_limit() -> int {
    10_000_000
}

/// The coordinate the enumeration puts at index `k`: the window is walked
/// row by row from the bottom-left corner, `w = 2 * view_distance + 1`
/// entries per row.
pub open spec fn window_entry(center: ChunkCoord, view_distance: int, k: int) -> ChunkCoord {
    let w = 2 * view_distance + 1;
    ChunkCoord {
        x: (center.x - view_distance + k % w) as i32,
        y: (center.y - view_distance + k / w) as i32,
    }
}

/// Lists every coordinate within Chebyshev distance `view_distance` of
/// `center`, each exactly once: the square window of side
/// `2 * view_distance + 1`.
pub fn window_coords(center: ChunkCoord, view_distance: i32) -> (v: Vec<ChunkCoord>)
    requires
        0 <= view_distance <= 1000,
        -window_center_limit() <= center.x <= window_center_limit(),
        -window_center_limit() <= center.y <= window_center_limit(),
    ensures
        v@.len() == (2 * view_distance + 1) * (2 * view_distance + 1),
        set_distinct(v@),
        forall|c: ChunkCoord| set_contains(v@, c) <==> in_window(center, view_distance as int, c),
        forall|k: int|
            0 <= k < v@.len() ==> v@[k] == window_entry(center, view_distance as int, k),
{
    let w: i32 = 2 * view_distance + 1;
    let ghost r = view_distance as int;
    let ghost wi = w as int;
    let mut v: Vec<ChunkCoord> = Vec::new();
    let mut iy: i32 = 0;
    while iy < w
        invariant
            0 <= view_distance <= 1000,
            -window_center_limit() <= center.x <= window_center_limit(),
            -window_center_limit() <= center.y <= window_center_limit(),
            w == 2 * view_distance + 1,
            r == view_distance as int,
            wi == w as int,
            0 <= iy <= w,
            v@.len() == iy * wi,
            forall|k: int| 0 <= k < v@.len() ==> #[trigger] v@[k] == window_entry(center, r, k),
        decreases w - iy,
    {
        let mut ix: i32 = 0;
        proof {
            assert(0 <= iy * wi && iy * wi + wi <= wi * wi && wi * wi <= 4_008_001) by (nonlinear_arith)
                requires
                    0 <= iy < wi <= 2001,
            ;
        }
        while ix < w
            invariant
                0 <= view_distance <= 1000,
                -window_center_limit() <= center.x <= window_center_limit(),
                -window_center_limit() <= center.y <= window_center_limit(),
                w == 2 * view_distance + 1,
                r == view_distance as int,
                wi == w as int,
                0 <= iy < w,
                0 <= ix <= w,
                iy * wi + wi <= 4_008_001,
                v@.len() == iy * wi + ix,
                forall|k: int| 0 <= k < v@.len() ==> #[trigger] v@[k] == window_entry(center, r, k),
            decreases w - ix,
        {
            let c = ChunkCoord { x: center.x - view_distance + ix, y: center.y - view_distance + iy };
            proof {
                let k = v@.len() as int;
                lemma_fundamental_div_mod_converse_div(k, wi, iy as int, ix as int);
                lemma_fundamental_div_mod_converse_mod(k, wi, iy as int, ix as int);
                assert(window_entry(center, r, k) == c);
            }
            v.push(c);
            ix = ix + 1;
        }
        iy = iy + 1;
        proof {
            assert((iy - 1) * wi + wi == iy * wi) by (nonlinear_arith);
        }
    }
    proof {
        assert(v@.len() == wi * wi) by (nonlinear_arith)
            requires
                v@.len() == wi * wi,
        ;
        assert forall|k1: int, k2: int| 0 <= k1 < k2 < v@.len() implies v@[k1] != v@[k2] by {
            lemma_fundamental_div_mod(k1, wi);
            lemma_fundamental_div_mod(k2, wi);
            lemma_mod_bound(k1, wi);
            lemma_mod_bound(k2, wi);
            assert(0 <= k1 / wi < wi && 0 <= k2 / wi < wi) by (nonlinear_arith)
                requires
                    k1 == wi * (k1 / wi) + k1 % wi,
                    k2 == wi * (k2 / wi) + k2 % wi,
                    0 <= k1 % wi < wi,
                    0 <= k2 % wi < wi,
                    0 <= k1 < wi * wi,
                    0 <= k2 < wi * wi,
            ;
            if v@[k1] == v@[k2] {
                assert(k1 % wi == k2 % wi);
                assert(k1 / wi == k2 / wi);
                assert(k1 == wi * (k1 / wi) + k1 % wi);
                assert(k2 == wi * (k2 / wi) + k2 % wi);
            }
        }
        assert forall|c: ChunkCoord|
            set_contains(v@, c) <==> in_window(center, r, c) by {
            if set_contains(v@, c) {
                let k = choose|k: int| 0 <= k < v@.len() && v@[k] == c;
                lemma_mod_bound(k, wi);
                assert(0 <= k / wi < wi) by {
                    lemma_fundamental_div_mod(k, wi);
                    assert(0 <= k / wi < wi) by (nonlinear_arith)
                        requires
                            k == wi * (k / wi) + k % wi,
                            0 <= k % wi < wi,
                            0 <= k < wi * wi,
                    ;
                }
            }
            if in_window(center, r, c) {
                let col = c.x - center.x + r;
                let row = c.y - center.y + r;
                let k = row * wi + col;
                assert(0 <= col < wi && 0 <= row < wi);
                assert(0 <= k < wi * wi && k == wi * row + col) by (nonlinear_arith)
                    requires
                        0 <= col < wi,
                        0 <= row < wi,
                        k == row * wi + col,
                ;
                lemma_fundamental_div_mod_converse_div(k, wi, row, col);
                lemma_fundamental_div_mod_converse_mod(k, wi, row, col);
                assert(v@[k] == window_entry(center, r, k));
                assert(v@[k] == c);
            }
        }
    }
    v
}

} // verus!
