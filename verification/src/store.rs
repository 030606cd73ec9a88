//! The authoritative server-side chunk store: a coordinate-keyed cache of
//! generated chunks, the active set it retains, per-chunk generation times,
//! and a monotonic world-time accumulator that drives capacity eviction.

use crate::coords::{in_window, window_contains, ChunkCoord};
use crate::generation::{coord_ok, generate_chunk, generated_chunk, Chunk};
use crate::protocol::{ChunkData, ChunkRequest};
use crate::table::{
    set_contains,
    set_del,
    set_distinct,
    set_add,
    tbl_at,
    tbl_contains,
    tbl_del,
    tbl_distinct,
    tbl_get,
    tbl_put,
    tbl_read,
};
use crate::terrain::WorldConfig;
use crate::window::window_coords;
use vstd::prelude::*;

verus! {

/// The five coordinates generated at startup: the spawn chunk and its four
/// axis neighbours.
pub open spec fn is_spawn_coord(c: ChunkCoord) -> bool {
    ||| c == (ChunkCoord { x: 0, y: 0 })
    ||| c == (ChunkCoord { x: -1i32, y: 0 })
    ||| c == (ChunkCoord { x: 1, y: 0 })
    ||| c == (ChunkCoord { x: 0, y: -1i32 })
    ||| c == (ChunkCoord { x: 0, y: 1 })
}

/// Decides whether a freshly generated chunk is pushed to a player:
/// only when the player's visible window contains its coordinate, never as
/// a broadcast to every connected player.
pub fn should_push(player_chunk: ChunkCoord, view_distance: i32, coord: ChunkCoord) -> (r: bool)
    ensures
        r == in_window(player_chunk, view_distance as int, coord),
{
    window_contains(player_chunk, view_distance, coord)
}

/// Eviction order: a chunk leaves before another when its generation time
/// is strictly smaller, ties broken deterministically by coordinate order.
pub open spec fn evicts_before(t1: u64, c1: ChunkCoord, t2: u64, c2: ChunkCoord) -> bool {
    t1 < t2 || (t1 == t2 && (c1.x < c2.x || (c1.x == c2.x && c1.y < c2.y)))
}

/// Decides the eviction order between two stamped coordinates.
fn evicts_before_exec(t1: u64, c1: ChunkCoord, t2: u64, c2: ChunkCoord) -> (r: bool)
    ensures
        r == evicts_before(t1, c1, t2, c2),
{
    t1 < t2 || (t1 == t2 && (c1.x < c2.x || (c1.x == c2.x && c1.y < c2.y)))
}

/// Authoritative world state on the server: the chunk cache, the active
/// set, generation timestamps and the world-time accumulator. The three
/// containers always track exactly the same coordinates.
pub struct WorldState {
    pub chunks: Vec<(ChunkCoord, Chunk)>,
    pub active_chunks: Vec<ChunkCoord>,
    pub generation_time: Vec<(ChunkCoord, u64)>,
    pub world_time: u64,
}

impl WorldState {
    /// Structural invariant: no container holds a coordinate twice, all
    /// three track the same coordinates, every stored chunk's coordinate
    /// equals its key, and no generation stamp lies in the future.
    pub open spec fn wf(self) -> bool {
        &&& tbl_distinct(self.chunks@)
        &&& set_distinct(self.active_chunks@)
        &&& tbl_distinct(self.generation_time@)
        &&& forall|c: ChunkCoord|
            #![trigger set_contains(self.active_chunks@, c)]
            tbl_contains(self.chunks@, c) <==> set_contains(self.active_chunks@, c)
        &&& forall|c: ChunkCoord|
            #![trigger tbl_contains(self.generation_time@, c)]
            tbl_contains(self.chunks@, c) <==> tbl_contains(self.generation_time@, c)
        &&& forall|c: ChunkCoord|
            #![trigger tbl_at(self.chunks@, c)]
            tbl_contains(self.chunks@, c) ==> tbl_at(self.chunks@, c).coord == c
        &&& forall|c: ChunkCoord|
            #![trigger tbl_at(self.generation_time@, c)]
            tbl_contains(self.chunks@, c) ==> tbl_at(self.generation_time@, c)
                <= self.world_time
    }

    /// Whether the store holds a chunk for `c`.
    pub open spec fn has_chunk(self, c: ChunkCoord) -> bool {
        tbl_contains(self.chunks@, c)
    }

    /// The chunk stored under `c`.
    pub open spec fn chunk_at(self, c: ChunkCoord) -> Chunk {
        tbl_at(self.chunks@, c)
    }

    /// The world time at which the chunk under `c` was generated.
    pub open spec fn gen_time_at(self, c: ChunkCoord) -> u64 {
        tbl_at(self.generation_time@, c)
    }

    /// An empty store at world time zero.
    pub fn new() -> (s: WorldState)
        ensures
            s.wf(),
            s.world_time == 0,
            s.active_chunks@.len() == 0,
            forall|c: ChunkCoord| !(#[trigger] s.has_chunk(c)),
    {
        WorldState {
            chunks: Vec::new(),
            active_chunks: Vec::new(),
            generation_time: Vec::new(),
            world_time: 0,
        }
    }

    /// Advances world time by `dt`; world time is monotonic and nothing
    /// else changes.
    pub fn advance(&mut self, dt: u64)
        requires
            old(self).wf(),
            old(self).world_time + dt <= u64::MAX,
        ensures
            final(self).wf(),
            final(self).world_time == old(self).world_time + dt,
            final(self).chunks@ == old(self).chunks@,
            final(self).active_chunks@ == old(self).active_chunks@,
            final(self).generation_time@ == old(self).generation_time@,
    {
        self.world_time = self.world_time + dt;
    }

    /// Returns the chunk stored under `coord`, generating, inserting and
    /// stamping it first when absent. A present coordinate is served from
    /// the cache — generation happens at most once per coordinate — and
    /// the returned chunk always equals the stored one.
    pub fn get_or_generate(&mut self, config: &WorldConfig, coord: ChunkCoord) -> (c: Chunk)
        requires
            old(self).wf(),
            config.wf(),
            coord_ok(coord),
        ensures
            final(self).wf(),
            final(self).world_time == old(self).world_time,
            final(self).has_chunk(coord),
            forall|x: ChunkCoord|
                #[trigger] final(self).has_chunk(x) <==> (old(self).has_chunk(x) || x == coord),
            forall|x: ChunkCoord|
                x != coord && old(self).has_chunk(x) ==> #[trigger] final(self).chunk_at(x)
                    == old(self).chunk_at(x) && final(self).gen_time_at(x)
                    == old(self).gen_time_at(x),
            old(self).has_chunk(coord) ==> final(self).chunks@ == old(self).chunks@
                && final(self).active_chunks@ == old(self).active_chunks@
                && final(self).generation_time@ == old(self).generation_time@,
            !old(self).has_chunk(coord) ==> generated_chunk(
                *config,
                coord,
                old(self).world_time,
                final(self).chunk_at(coord),
            ) && final(self).gen_time_at(coord) == old(self).world_time,
            !old(self).has_chunk(coord) ==> generated_chunk(*config, coord, old(self).world_time, c),
            c.coord == coord,
            c.biome_type == final(self).chunk_at(coord).biome_type,
            c.last_accessed == final(self).chunk_at(coord).last_accessed,
            c.grid() == final(self).chunk_at(coord).grid(),
    {
        let cached = tbl_get(&self.chunks, coord);
        match cached {
            Some(ch) => ch.clone(),
            None => {
                let fresh = generate_chunk(config, coord, self.world_time);
                let copy = fresh.clone();
                tbl_put(&mut self.chunks, coord, fresh);
                set_add(&mut self.active_chunks, coord);
                tbl_put(&mut self.generation_time, coord, self.world_time);
                copy
            },
        }
    }

    /// While the active set exceeds `max_active`, removes the chunk whose
    /// `(generation time, coordinate)` pair is smallest in eviction order.
    /// Exactly the excess is removed — every evicted chunk is older, in
    /// that order, than every survivor — and the survivors keep their
    /// chunks and stamps unchanged.
    pub fn evict_if_over_capacity(&mut self, max_active: usize)
        requires
            old(self).wf(),
        ensures
            final(self).wf(),
            final(self).world_time == old(self).world_time,
            forall|x: ChunkCoord| #[trigger] final(self).has_chunk(x) ==> old(self).has_chunk(x),
            forall|x: ChunkCoord|
                #[trigger] final(self).has_chunk(x) ==> final(self).chunk_at(x)
                    == old(self).chunk_at(x) && final(self).gen_time_at(x)
                    == old(self).gen_time_at(x),
            final(self).active_chunks@.len() == if old(self).active_chunks@.len()
                <= max_active as int {
                old(self).active_chunks@.len() as int
            } else {
                max_active as int
            },
            forall|r: ChunkCoord, k: ChunkCoord|
                old(self).has_chunk(r) && !(#[trigger] final(self).has_chunk(r))
                    && #[trigger] final(self).has_chunk(k) ==> evicts_before(
                    old(self).gen_time_at(r),
                    r,
                    old(self).gen_time_at(k),
                    k,
                ),
    {
        while self.active_chunks.len() > max_active
            invariant
                self.wf(),
                self.world_time == old(self).world_time,
                forall|x: ChunkCoord| #[trigger] self.has_chunk(x) ==> old(self).has_chunk(x),
                forall|x: ChunkCoord|
                    #[trigger] self.has_chunk(x) ==> self.chunk_at(x) == old(self).chunk_at(x)
                        && self.gen_time_at(x) == old(self).gen_time_at(x),
                old(self).active_chunks@.len() <= max_active as int ==> self.active_chunks@.len()
                    == old(self).active_chunks@.len(),
                old(self).active_chunks@.len() > max_active as int ==> self.active_chunks@.len()
                    >= max_active as int,
                forall|r: ChunkCoord, k: ChunkCoord|
                    old(self).has_chunk(r) && !(#[trigger] self.has_chunk(r))
                        && #[trigger] self.has_chunk(k) ==> evicts_before(
                        old(self).gen_time_at(r),
                        r,
                        old(self).gen_time_at(k),
                        k,
                    ),
            decreases self.active_chunks@.len(),
        {
            let ghost pre = *self;
            // Find the entry that evicts first.
            let mut best: usize = 0;
            let mut best_time: u64 = self.read_gen_time(0);
            let mut j: usize = 1;
            while j < self.active_chunks.len()
                invariant
                    self.wf(),
                    0 < self.active_chunks@.len(),
                    0 <= best < j <= self.active_chunks@.len(),
                    best_time == self.gen_time_at(self.active_chunks@[best as int]),
                    forall|i: int|
                        0 <= i < j && i != best ==> evicts_before(
                            best_time,
                            self.active_chunks@[best as int],
                            #[trigger] tbl_at(self.generation_time@, self.active_chunks@[i]),
                            self.active_chunks@[i],
                        ),
                decreases self.active_chunks@.len() - j,
            {
                let tj = self.read_gen_time(j);
                if evicts_before_exec(
                    tj,
                    self.active_chunks[j],
                    best_time,
                    self.active_chunks[best],
                ) {
                    best = j;
                    best_time = tj;
                }
                j = j + 1;
            }
            let victim = self.active_chunks[best];
            proof {
                assert(set_contains(self.active_chunks@, victim));
                assert forall|k: ChunkCoord|
                    set_contains(self.active_chunks@, k) && k != victim implies evicts_before(
                    best_time,
                    victim,
                    self.gen_time_at(k),
                    k,
                ) by {
                    let i = choose|i: int|
                        0 <= i < self.active_chunks@.len() && self.active_chunks@[i] == k;
                    assert(i != best);
                }
            }
            proof {
                assert(pre.has_chunk(victim));
                assert(pre.gen_time_at(victim) == old(self).gen_time_at(victim));
            }
            set_del(&mut self.active_chunks, victim);
            tbl_del(&mut self.chunks, victim);
            tbl_del(&mut self.generation_time, victim);
            proof {
                assert forall|x: ChunkCoord| #[trigger] self.has_chunk(x) implies old(
                    self,
                ).has_chunk(x) && self.chunk_at(x) == old(self).chunk_at(x) && self.gen_time_at(x)
                    == old(self).gen_time_at(x) by {
                    assert(pre.has_chunk(x) && x != victim);
                    assert(self.chunk_at(x) == pre.chunk_at(x));
                    assert(self.gen_time_at(x) == pre.gen_time_at(x));
                }
                assert forall|r: ChunkCoord, k: ChunkCoord|
                    old(self).has_chunk(r) && !(#[trigger] self.has_chunk(r))
                        && #[trigger] self.has_chunk(k) implies evicts_before(
                    old(self).gen_time_at(r),
                    r,
                    old(self).gen_time_at(k),
                    k,
                ) by {
                    assert(set_contains(self.active_chunks@, k));
                    assert(set_contains(pre.active_chunks@, k) && k != victim);
                    assert(pre.has_chunk(k));
                    assert(pre.gen_time_at(k) == old(self).gen_time_at(k));
                    if r == victim {
                        assert(evicts_before(best_time, victim, pre.gen_time_at(k), k));
                    } else if pre.has_chunk(r) {
                        // r survived until this iteration yet is gone now: impossible
                        // unless r is the victim, handled above.
                        assert(set_contains(pre.active_chunks@, r));
                        assert(set_contains(self.active_chunks@, r));
                        assert(self.has_chunk(r));
                    } else {
                        assert(evicts_before(
                            old(self).gen_time_at(r),
                            r,
                            old(self).gen_time_at(k),
                            k,
                        ));
                    }
                }
            }
        }
    }

    /// Generates the spawn chunk and its four neighbours, so a world is
    /// never empty where players appear.
    pub fn setup_world(&mut self, config: &WorldConfig)
        requires
            old(self).wf(),
            config.wf(),
        ensures
            final(self).wf(),
            final(self).world_time == old(self).world_time,
            forall|x: ChunkCoord|
                #[trigger] final(self).has_chunk(x) <==> (old(self).has_chunk(x) || is_spawn_coord(
                    x,
                )),
            forall|x: ChunkCoord|
                old(self).has_chunk(x) ==> #[trigger] final(self).chunk_at(x) == old(
                    self,
                ).chunk_at(x) && final(self).gen_time_at(x) == old(self).gen_time_at(x),
            forall|x: ChunkCoord|
                !old(self).has_chunk(x) && is_spawn_coord(x) ==> generated_chunk(
                    *config,
                    x,
                    old(self).world_time,
                    #[trigger] final(self).chunk_at(x),
                ) && final(self).gen_time_at(x) == old(self).world_time,
    {
        let _ = self.get_or_generate(config, ChunkCoord { x: 0, y: 0 });
        let ghost g1 = *self;
        let _ = self.get_or_generate(config, ChunkCoord { x: -1, y: 0 });
        let ghost g2 = *self;
        let _ = self.get_or_generate(config, ChunkCoord { x: 1, y: 0 });
        let ghost g3 = *self;
        let _ = self.get_or_generate(config, ChunkCoord { x: 0, y: -1 });
        let ghost g4 = *self;
        let _ = self.get_or_generate(config, ChunkCoord { x: 0, y: 1 });
        proof {
            assert forall|x: ChunkCoord|
                !old(self).has_chunk(x) && is_spawn_coord(x) implies generated_chunk(
                *config,
                x,
                old(self).world_time,
                #[trigger] final(self).chunk_at(x),
            ) && final(self).gen_time_at(x) == old(self).world_time by {
                if x == (ChunkCoord { x: 0, y: 0 }) {
                    assert(generated_chunk(*config, x, old(self).world_time, g1.chunk_at(x)));
                    assert(g2.chunk_at(x) == g1.chunk_at(x) && g3.chunk_at(x) == g2.chunk_at(x)
                        && g4.chunk_at(x) == g3.chunk_at(x) && self.chunk_at(x) == g4.chunk_at(x));
                } else if x == (ChunkCoord { x: -1i32, y: 0 }) {
                    assert(!g1.has_chunk(x));
                    assert(generated_chunk(*config, x, old(self).world_time, g2.chunk_at(x)));
                } else if x == (ChunkCoord { x: 1, y: 0 }) {
                    assert(!g2.has_chunk(x));
                    assert(generated_chunk(*config, x, old(self).world_time, g3.chunk_at(x)));
                } else if x == (ChunkCoord { x: 0, y: -1i32 }) {
                    assert(!g3.has_chunk(x));
                    assert(generated_chunk(*config, x, old(self).world_time, g4.chunk_at(x)));
                } else {
                    assert(x == (ChunkCoord { x: 0, y: 1 }));
                    assert(!g4.has_chunk(x));
                }
            }
        }
    }

    /// Generates every not-yet-present chunk within Chebyshev distance
    /// `radius` of `center`, the server-side proactive radius generation
    /// around a player. Chunks already present are untouched.
    pub fn generate_around(&mut self, config: &WorldConfig, center: ChunkCoord, radius: i32)
        requires
            old(self).wf(),
            config.wf(),
            0 <= radius <= 1000,
            -crate::generation::coord_limit() <= center.x - radius,
            center.x + radius <= crate::generation::coord_limit(),
            -crate::generation::coord_limit() <= center.y - radius,
            center.y + radius <= crate::generation::coord_limit(),
        ensures
            final(self).wf(),
            final(self).world_time == old(self).world_time,
            forall|x: ChunkCoord|
                #[trigger] final(self).has_chunk(x) <==> (old(self).has_chunk(x) || in_window(
                    center,
                    radius as int,
                    x,
                )),
            forall|x: ChunkCoord|
                old(self).has_chunk(x) ==> #[trigger] final(self).chunk_at(x) == old(
                    self,
                ).chunk_at(x) && final(self).gen_time_at(x) == old(self).gen_time_at(x),
            forall|x: ChunkCoord|
                !old(self).has_chunk(x) && #[trigger] final(self).has_chunk(x) ==> generated_chunk(
                    *config,
                    x,
                    old(self).world_time,
                    final(self).chunk_at(x),
                ) && final(self).gen_time_at(x) == old(self).world_time,
    {
        let coords = window_coords(center, radius);
        let mut i: usize = 0;
        while i < coords.len()
            invariant
                self.wf(),
                config.wf(),
                self.world_time == old(self).world_time,
                forall|c: ChunkCoord|
                    set_contains(coords@, c) <==> in_window(center, radius as int, c),
                -crate::generation::coord_limit() <= center.x - radius,
                center.x + radius <= crate::generation::coord_limit(),
                -crate::generation::coord_limit() <= center.y - radius,
                center.y + radius <= crate::generation::coord_limit(),
                0 <= radius <= 1000,
                0 <= i <= coords@.len(),
                forall|x: ChunkCoord|
                    #[trigger] self.has_chunk(x) <==> (old(self).has_chunk(x) || exists|k: int|
                        0 <= k < i && coords@[k] == x),
                forall|x: ChunkCoord|
                    old(self).has_chunk(x) ==> #[trigger] self.chunk_at(x) == old(self).chunk_at(
                        x,
                    ) && self.gen_time_at(x) == old(self).gen_time_at(x),
                forall|x: ChunkCoord|
                    !old(self).has_chunk(x) && #[trigger] self.has_chunk(x) ==> generated_chunk(
                        *config,
                        x,
                        old(self).world_time,
                        self.chunk_at(x),
                    ) && self.gen_time_at(x) == old(self).world_time,
            decreases coords@.len() - i,
        {
            let c = coords[i];
            proof {
                assert(set_contains(coords@, c));
                assert(in_window(center, radius as int, c));
            }
            let ghost pre = *self;
            let _ = self.get_or_generate(config, c);
            proof {
                assert forall|x: ChunkCoord|
                    #[trigger] self.has_chunk(x) <==> (old(self).has_chunk(x) || exists|k: int|
                        0 <= k < i + 1 && coords@[k] == x) by {
                    if self.has_chunk(x) {
                        if !old(self).has_chunk(x) {
                            if pre.has_chunk(x) {
                                let k = choose|k: int| 0 <= k < i && coords@[k] == x;
                                assert(0 <= k < i + 1 && coords@[k] == x);
                            } else {
                                assert(coords@[i as int] == x);
                            }
                        }
                    }
                    if exists|k: int| 0 <= k < i + 1 && coords@[k] == x {
                        let k = choose|k: int| 0 <= k < i + 1 && coords@[k] == x;
                        if k < i {
                            assert(pre.has_chunk(x));
                        } else {
                            assert(x == c);
                        }
                        assert(self.has_chunk(x));
                    }
                }
            }
            i = i + 1;
        }
        proof {
            assert forall|x: ChunkCoord|
                #[trigger] final(self).has_chunk(x) <==> (old(self).has_chunk(x) || in_window(
                    center,
                    radius as int,
                    x,
                )) by {
                if in_window(center, radius as int, x) {
                    assert(set_contains(coords@, x));
                }
                if exists|k: int| 0 <= k < coords@.len() && coords@[k] == x {
                    assert(set_contains(coords@, x));
                }
            }
        }
    }

    /// Serves one client request: the requested chunk is looked up or
    /// generated at once — a present coordinate is answered from the cache
    /// without re-entering the generation pipeline — and handed back as a
    /// data message for the requester.
    pub fn handle_request(&mut self, config: &WorldConfig, request: ChunkRequest) -> (d: ChunkData)
        requires
            old(self).wf(),
            config.wf(),
            coord_ok(request.coord),
        ensures
            final(self).wf(),
            final(self).world_time == old(self).world_time,
            final(self).has_chunk(request.coord),
            forall|x: ChunkCoord|
                #[trigger] final(self).has_chunk(x) <==> (old(self).has_chunk(x) || x
                    == request.coord),
            forall|x: ChunkCoord|
                x != request.coord && old(self).has_chunk(x) ==> #[trigger] final(self).chunk_at(x)
                    == old(self).chunk_at(x) && final(self).gen_time_at(x)
                    == old(self).gen_time_at(x),
            old(self).has_chunk(request.coord) ==> final(self).chunks@ == old(self).chunks@
                && final(self).active_chunks@ == old(self).active_chunks@
                && final(self).generation_time@ == old(self).generation_time@,
            !old(self).has_chunk(request.coord) ==> generated_chunk(
                *config,
                request.coord,
                old(self).world_time,
                d.chunk,
            ),
            d.chunk.coord == request.coord,
            d.chunk.biome_type == final(self).chunk_at(request.coord).biome_type,
            d.chunk.last_accessed == final(self).chunk_at(request.coord).last_accessed,
            d.chunk.grid() == final(self).chunk_at(request.coord).grid(),
    {
        let chunk = self.get_or_generate(config, request.coord);
        ChunkData { chunk }
    }

    /// Reads the generation stamp of the `i`-th active coordinate.
    fn read_gen_time(&self, i: usize) -> (t: u64)
        requires
            self.wf(),
            i < self.active_chunks@.len(),
        ensures
            t == self.gen_time_at(self.active_chunks@[i as int]),
    {
        let c = self.active_chunks[i];
        proof {
            assert(set_contains(self.active_chunks@, c));
        }
        let r = tbl_read(&self.generation_time, c);
        match r {
            Some(t) => t,
            None => {
                proof {
                    assert(false);
                }
                0
            },
        }
    }
}

} // verus!
