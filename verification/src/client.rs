//! The client-side visibility and request tracker: it derives the visible
//! window from the player's chunk, reconciles the loaded and requested
//! sets against it, deduplicates deliveries, and retries requests only
//! after a timeout.

use crate::coords::{in_window, world_to_chunk, ChunkCoord};
use crate::protocol::ChunkData;
use crate::table::{
    lemma_set_push_contains,
    lemma_tbl_at_entry,
    lemma_tbl_push_contains,
    set_contains,
    set_distinct,
    tbl_at,
    tbl_contains,
    tbl_del,
    tbl_distinct,
    tbl_put,
    tbl_read,
    set_has,
};
use crate::window::{window_center_limit, window_coords};
use vstd::prelude::*;

verus! {

/// Client-side tracking state: the player's last known chunk, the visible
/// window derived from it, the coordinates already materialised, the
/// coordinates requested and the frame each request went out, and a frame
/// counter that stands in for time.
pub struct ClientWorldState {
    pub player_chunk: Option<ChunkCoord>,
    pub view_distance: i32,
    pub visible_chunks: Vec<ChunkCoord>,
    pub loaded_chunks: Vec<ChunkCoord>,
    pub requested_chunks: Vec<(ChunkCoord, u64)>,
    pub frame_counter: u64,
}

impl ClientWorldState {
    /// Structural invariant: no set holds a coordinate twice, a loaded
    /// coordinate is never also pending, no request claims to come from a
    /// future frame, the view distance is a bounded nonnegative radius, and
    /// the visible set is empty until a player chunk is known and is that
    /// chunk's full window afterwards.
    pub open spec fn wf(self) -> bool {
        &&& set_distinct(self.visible_chunks@)
        &&& set_distinct(self.loaded_chunks@)
        &&& tbl_distinct(self.requested_chunks@)
        &&& forall|c: ChunkCoord|
            #[trigger] set_contains(self.loaded_chunks@, c) ==> !tbl_contains(
                self.requested_chunks@,
                c,
            )
        &&& forall|c: ChunkCoord|
            #[trigger] tbl_contains(self.requested_chunks@, c) ==> tbl_at(
                self.requested_chunks@,
                c,
            ) <= self.frame_counter
        &&& 0 <= self.view_distance <= 1000
        &&& match self.player_chunk {
            None => self.visible_chunks@.len() == 0,
            Some(p) => {
                &&& -window_center_limit() <= p.x <= window_center_limit()
                &&& -window_center_limit() <= p.y <= window_center_limit()
                &&& self.visible_chunks@.len() == (2 * self.view_distance + 1) * (2
                    * self.view_distance + 1)
                &&& forall|c: ChunkCoord|
                    #[trigger] set_contains(self.visible_chunks@, c) <==> in_window(
                        p,
                        self.view_distance as int,
                        c,
                    )
            },
        }
    }

    /// Whether `c` is inside the current visible window.
    pub open spec fn is_visible(self, c: ChunkCoord) -> bool {
        set_contains(self.visible_chunks@, c)
    }

    /// Whether `c` has been received and materialised.
    pub open spec fn is_loaded(self, c: ChunkCoord) -> bool {
        set_contains(self.loaded_chunks@, c)
    }

    /// Whether a request for `c` is pending.
    pub open spec fn is_requested(self, c: ChunkCoord) -> bool {
        tbl_contains(self.requested_chunks@, c)
    }

    /// The frame at which the pending request for `c` was last sent.
    pub open spec fn requested_at(self, c: ChunkCoord) -> u64 {
        tbl_at(self.requested_chunks@, c)
    }

    /// A fresh tracker with the given view distance and nothing tracked.
    pub fn new(view_distance: i32) -> (s: ClientWorldState)
        requires
            0 <= view_distance <= 1000,
        ensures
            s.wf(),
            s.player_chunk is None,
            s.view_distance == view_distance,
            s.frame_counter == 0,
            s.visible_chunks@.len() == 0,
            s.loaded_chunks@.len() == 0,
            s.requested_chunks@.len() == 0,
    {
        ClientWorldState {
            player_chunk: None,
            view_distance,
            visible_chunks: Vec::new(),
            loaded_chunks: Vec::new(),
            requested_chunks: Vec::new(),
            frame_counter: 0,
        }
    }

    /// Counts one frame; nothing else changes.
    pub fn advance_frame(&mut self)
        requires
            old(self).wf(),
            old(self).frame_counter < u64::MAX,
        ensures
            final(self).wf(),
            final(self).frame_counter == old(self).frame_counter + 1,
            final(self).player_chunk == old(self).player_chunk,
            final(self).view_distance == old(self).view_distance,
            final(self).visible_chunks@ == old(self).visible_chunks@,
            final(self).loaded_chunks@ == old(self).loaded_chunks@,
            final(self).requested_chunks@ == old(self).requested_chunks@,
    {
        self.frame_counter = self.frame_counter + 1;
    }

    /// Recomputes the visible window around `center`: afterwards the
    /// visible set holds exactly the `(2 * view_distance + 1)^2`
    /// coordinates within Chebyshev distance `view_distance` of `center`,
    /// each once. Loaded and pending sets are left for `reconcile`.
    pub fn recompute(&mut self, center: ChunkCoord)
        requires
            old(self).wf(),
            -window_center_limit() <= center.x <= window_center_limit(),
            -window_center_limit() <= center.y <= window_center_limit(),
        ensures
            final(self).wf(),
            final(self).player_chunk == Some(center),
            final(self).visible_chunks@.len() == (2 * old(self).view_distance + 1) * (2 * old(self).view_distance + 1),
            forall|c: ChunkCoord|
                #[trigger] final(self).is_visible(c) <==> in_window(
                    center,
                    old(self).view_distance as int,
                    c,
                ),
            final(self).view_distance == old(self).view_distance,
            final(self).frame_counter == old(self).frame_counter,
            final(self).loaded_chunks@ == old(self).loaded_chunks@,
            final(self).requested_chunks@ == old(self).requested_chunks@,
    {
        self.visible_chunks = window_coords(center, self.view_distance);
        self.player_chunk = Some(center);
    }

    /// Drops every loaded coordinate that left the visible window —
    /// returning those dropped so the caller can release their local
    /// representations — and every pending request whose coordinate left
    /// the window. Afterwards both `loaded` and `requested` are subsets of
    /// `visible`; surviving requests keep their timestamps.
    pub fn reconcile(&mut self) -> (dropped: Vec<ChunkCoord>)
        requires
            old(self).wf(),
        ensures
            final(self).wf(),
            final(self).player_chunk == old(self).player_chunk,
            final(self).view_distance == old(self).view_distance,
            final(self).frame_counter == old(self).frame_counter,
            final(self).visible_chunks@ == old(self).visible_chunks@,
            forall|c: ChunkCoord|
                #[trigger] final(self).is_loaded(c) <==> (old(self).is_loaded(c) && old(self).is_visible(c)),
            forall|c: ChunkCoord|
                #[trigger] final(self).is_requested(c) <==> (old(self).is_requested(c) && old(self).is_visible(c)),
            forall|c: ChunkCoord|
                #[trigger] final(self).is_requested(c) ==> final(self).requested_at(c) == old(self).requested_at(c),
            forall|c: ChunkCoord| #[trigger] final(self).is_loaded(c) ==> final(self).is_visible(c),
            forall|c: ChunkCoord|
                #[trigger] final(self).is_requested(c) ==> final(self).is_visible(c),
            set_distinct(dropped@),
            forall|c: ChunkCoord|
                #[trigger] set_contains(dropped@, c) <==> (old(self).is_loaded(c) && !old(self).is_visible(c)),
    {
        let mut kept: Vec<ChunkCoord> = Vec::new();
        let mut dropped: Vec<ChunkCoord> = Vec::new();
        let mut i: usize = 0;
        while i < self.loaded_chunks.len()
            invariant
                set_distinct(self.loaded_chunks@),
                0 <= i <= self.loaded_chunks@.len(),
                set_distinct(kept@),
                set_distinct(dropped@),
                forall|c: ChunkCoord|
                    #[trigger] set_contains(kept@, c) <==> (set_contains(
                        self.loaded_chunks@.take(i as int),
                        c,
                    ) && set_contains(self.visible_chunks@, c)),
                forall|c: ChunkCoord|
                    #[trigger] set_contains(dropped@, c) <==> (set_contains(
                        self.loaded_chunks@.take(i as int),
                        c,
                    ) && !set_contains(self.visible_chunks@, c)),
            decreases self.loaded_chunks@.len() - i,
        {
            let c = self.loaded_chunks[i];
            proof {
                if set_contains(kept@, c) || set_contains(dropped@, c) {
                    let j = choose|j: int|
                        0 <= j < i && self.loaded_chunks@.take(i as int)[j] == c;
                    assert(self.loaded_chunks@[j] == self.loaded_chunks@[i as int]);
                    assert(false);
                }
                lemma_set_push_contains(kept@, c);
                lemma_set_push_contains(dropped@, c);
                lemma_set_push_contains(self.loaded_chunks@.take(i as int), c);
                assert(self.loaded_chunks@.take(i as int + 1) =~= self.loaded_chunks@.take(
                    i as int,
                ).push(c));
            }
            if set_has(&self.visible_chunks, c) {
                kept.push(c);
            } else {
                dropped.push(c);
            }
            i = i + 1;
        }
        proof {
            assert(self.loaded_chunks@.take(self.loaded_chunks@.len() as int)
                =~= self.loaded_chunks@);
        }
        self.loaded_chunks = kept;
        let mut kept_req: Vec<(ChunkCoord, u64)> = Vec::new();
        let mut k: usize = 0;
        while k < self.requested_chunks.len()
            invariant
                tbl_distinct(self.requested_chunks@),
                0 <= k <= self.requested_chunks@.len(),
                tbl_distinct(kept_req@),
                forall|c: ChunkCoord|
                    #[trigger] tbl_contains(kept_req@, c) <==> (tbl_contains(
                        self.requested_chunks@.take(k as int),
                        c,
                    ) && set_contains(self.visible_chunks@, c)),
                forall|p: int|
                    0 <= p < kept_req@.len() ==> exists|j: int|
                        0 <= j < self.requested_chunks@.len() && #[trigger] kept_req@[p]
                            == self.requested_chunks@[j],
            decreases self.requested_chunks@.len() - k,
        {
            let entry = self.requested_chunks[k];
            proof {
                if tbl_contains(kept_req@, entry.0) {
                    let j = choose|j: int|
                        0 <= j < k && self.requested_chunks@.take(k as int)[j].0 == entry.0;
                    assert(self.requested_chunks@[j].0 == self.requested_chunks@[k as int].0);
                    assert(false);
                }
                lemma_tbl_push_contains(kept_req@, entry);
                lemma_tbl_push_contains(self.requested_chunks@.take(k as int), entry);
                assert(self.requested_chunks@.take(k as int + 1) =~= self.requested_chunks@.take(
                    k as int,
                ).push(entry));
            }
            if set_has(&self.visible_chunks, entry.0) {
                kept_req.push(entry);
                proof {
                    assert(kept_req@[kept_req@.len() - 1] == self.requested_chunks@[k as int]);
                }
            }
            k = k + 1;
        }
        proof {
            assert(self.requested_chunks@.take(self.requested_chunks@.len() as int)
                =~= self.requested_chunks@);
            assert forall|c: ChunkCoord| #[trigger]
                tbl_contains(kept_req@, c) implies tbl_at(kept_req@, c) == tbl_at(
                old(self).requested_chunks@,
                c,
            ) && tbl_at(kept_req@, c) <= old(self).frame_counter by {
                let p = choose|p: int| 0 <= p < kept_req@.len() && kept_req@[p].0 == c;
                lemma_tbl_at_entry(kept_req@, p, c);
                let j = choose|j: int|
                    0 <= j < self.requested_chunks@.len() && kept_req@[p]
                        == self.requested_chunks@[j];
                lemma_tbl_at_entry(self.requested_chunks@, j, c);
            }
        }
        self.requested_chunks = kept_req;
        dropped
    }

    /// Processes one delivered chunk. A delivery whose coordinate is no
    /// longer visible is stale and discarded; one already loaded is a
    /// duplicate and discarded; otherwise the coordinate is marked loaded
    /// and its pending request cleared. Returns whether the caller should
    /// materialise the chunk: at most once per coordinate while it stays
    /// loaded.
    pub fn on_receive(&mut self, data: &ChunkData) -> (accepted: bool)
        requires
            old(self).wf(),
        ensures
            final(self).wf(),
            accepted == (old(self).is_visible(data.chunk.coord) && !old(self).is_loaded(
                data.chunk.coord,
            )),
            final(self).player_chunk == old(self).player_chunk,
            final(self).view_distance == old(self).view_distance,
            final(self).frame_counter == old(self).frame_counter,
            final(self).visible_chunks@ == old(self).visible_chunks@,
            !accepted ==> final(self).loaded_chunks@ == old(self).loaded_chunks@ && final(self).requested_chunks@ == old(self).requested_chunks@,
            accepted ==> final(self).loaded_chunks@ == old(self).loaded_chunks@.push(
                data.chunk.coord,
            ),
            forall|c: ChunkCoord|
                #[trigger] final(self).is_loaded(c) <==> (old(self).is_loaded(c) || (accepted && c
                    == data.chunk.coord)),
            forall|c: ChunkCoord|
                #[trigger] final(self).is_requested(c) <==> (old(self).is_requested(c) && !(
                accepted && c == data.chunk.coord)),
            forall|c: ChunkCoord|
                #[trigger] final(self).is_requested(c) ==> final(self).requested_at(c) == old(self).requested_at(c),
    {
        let coord = data.chunk.coord;
        if !set_has(&self.visible_chunks, coord) {
            return false;
        }
        if set_has(&self.loaded_chunks, coord) {
            return false;
        }
        proof {
            lemma_set_push_contains(self.loaded_chunks@, coord);
        }
        self.loaded_chunks.push(coord);
        tbl_del(&mut self.requested_chunks, coord);
        true
    }

    /// Whether a pass over the visible set at the current frame issues a
    /// request for `c`: it is visible, not loaded, and either was never
    /// requested or its last request is more than `timeout` frames old.
    pub open spec fn should_emit(self, c: ChunkCoord, timeout: u64) -> bool {
        &&& self.is_visible(c)
        &&& !self.is_loaded(c)
        &&& (!self.is_requested(c) || self.frame_counter - self.requested_at(c) > timeout)
    }

    /// Walks the visible set and returns the coordinates to request from
    /// the server: every visible, unloaded coordinate that was never
    /// requested or whose request has outlived `timeout` frames — no
    /// re-emission within the window, exactly one re-emission after it.
    /// Each emitted coordinate is stamped with the current frame.
    pub fn request_pass(&mut self, timeout: u64) -> (to_request: Vec<ChunkCoord>)
        requires
            old(self).wf(),
        ensures
            final(self).wf(),
            final(self).player_chunk == old(self).player_chunk,
            final(self).view_distance == old(self).view_distance,
            final(self).frame_counter == old(self).frame_counter,
            final(self).visible_chunks@ == old(self).visible_chunks@,
            final(self).loaded_chunks@ == old(self).loaded_chunks@,
            set_distinct(to_request@),
            forall|c: ChunkCoord|
                #[trigger] set_contains(to_request@, c) <==> old(self).should_emit(c, timeout),
            forall|c: ChunkCoord|
                #[trigger] final(self).is_requested(c) <==> (old(self).is_requested(c) || old(self).should_emit(c, timeout)),
            forall|c: ChunkCoord|
                old(self).should_emit(c, timeout) ==> #[trigger] final(self).requested_at(c)
                    == old(self).frame_counter,
            forall|c: ChunkCoord|
                !old(self).should_emit(c, timeout) && old(self).is_requested(c) ==> #[trigger]
                final(self).requested_at(c) == old(self).requested_at(c),
    {
        let mut to_request: Vec<ChunkCoord> = Vec::new();
        let now = self.frame_counter;
        let mut i: usize = 0;
        while i < self.visible_chunks.len()
            invariant
                self.wf(),
                self.player_chunk == old(self).player_chunk,
                self.view_distance == old(self).view_distance,
                self.frame_counter == old(self).frame_counter,
                self.visible_chunks@ == old(self).visible_chunks@,
                self.loaded_chunks@ == old(self).loaded_chunks@,
                now == old(self).frame_counter,
                0 <= i <= self.visible_chunks@.len(),
                set_distinct(to_request@),
                forall|c: ChunkCoord|
                    #[trigger] set_contains(to_request@, c) <==> (set_contains(
                        self.visible_chunks@.take(i as int),
                        c,
                    ) && old(self).should_emit(c, timeout)),
                forall|c: ChunkCoord|
                    #[trigger] self.is_requested(c) <==> (old(self).is_requested(c) || set_contains(
                        to_request@,
                        c,
                    )),
                forall|c: ChunkCoord|
                    set_contains(to_request@, c) ==> #[trigger] self.requested_at(c) == now,
                forall|c: ChunkCoord|
                    !set_contains(to_request@, c) && old(self).is_requested(c) ==> #[trigger]
                    self.requested_at(c) == old(self).requested_at(c),
            decreases self.visible_chunks@.len() - i,
        {
            let c = self.visible_chunks[i];
            proof {
                assert(set_contains(self.visible_chunks@, c));
                if set_contains(to_request@, c) {
                    let j = choose|j: int|
                        0 <= j < i && self.visible_chunks@.take(i as int)[j] == c;
                    assert(self.visible_chunks@[j] == self.visible_chunks@[i as int]);
                    assert(false);
                }
                assert(self.is_requested(c) == old(self).is_requested(c));
                if old(self).is_requested(c) {
                    assert(self.requested_at(c) == old(self).requested_at(c));
                }
            }
            let emit: bool;
            if set_has(&self.loaded_chunks, c) {
                emit = false;
            } else {
                let pending = tbl_read(&self.requested_chunks, c);
                match pending {
                    None => {
                        emit = true;
                    },
                    Some(t) => {
                        emit = now - t > timeout;
                    },
                }
            }
            proof {
                assert(emit == old(self).should_emit(c, timeout));
                lemma_set_push_contains(to_request@, c);
                lemma_set_push_contains(self.visible_chunks@.take(i as int), c);
                assert(self.visible_chunks@.take(i as int + 1) =~= self.visible_chunks@.take(
                    i as int,
                ).push(c));
            }
            if emit {
                let ghost pre_it = *self;
                let ghost prev_tr = to_request@;
                to_request.push(c);
                tbl_put(&mut self.requested_chunks, c, now);
                proof {
                    assert(to_request@ == prev_tr.push(c));
                    assert forall|x: ChunkCoord|
                        #[trigger] self.is_requested(x) <==> (old(self).is_requested(x)
                            || set_contains(to_request@, x)) by {
                        assert(pre_it.is_requested(x) <==> (old(self).is_requested(x)
                            || set_contains(prev_tr, x)));
                        assert(tbl_contains(self.requested_chunks@, x) <==> (tbl_contains(
                            pre_it.requested_chunks@,
                            x,
                        ) || x == c));
                        assert(set_contains(prev_tr.push(c), x) <==> (set_contains(prev_tr, x) || x
                            == c));
                    }
                    assert forall|x: ChunkCoord|
                        set_contains(to_request@, x) implies #[trigger] self.requested_at(x)
                        == now by {
                        assert(set_contains(prev_tr.push(c), x) <==> (set_contains(prev_tr, x) || x
                            == c));
                        if x != c {
                            assert(set_contains(prev_tr, x));
                            assert(pre_it.requested_at(x) == now);
                            assert(pre_it.is_requested(x));
                            assert(tbl_at(self.requested_chunks@, x) == tbl_at(
                                pre_it.requested_chunks@,
                                x,
                            ));
                        }
                    }
                    assert forall|x: ChunkCoord|
                        !set_contains(to_request@, x) && old(self).is_requested(x) implies #[trigger]
                        self.requested_at(x) == old(self).requested_at(x) by {
                        assert(set_contains(prev_tr.push(c), x) <==> (set_contains(prev_tr, x) || x
                            == c));
                        assert(!set_contains(prev_tr, x) && x != c);
                        assert(pre_it.is_requested(x));
                        assert(pre_it.requested_at(x) == old(self).requested_at(x));
                        assert(tbl_at(self.requested_chunks@, x) == tbl_at(
                            pre_it.requested_chunks@,
                            x,
                        ));
                    }
                }
            }
            i = i + 1;
        }
        proof {
            assert(self.visible_chunks@.take(self.visible_chunks@.len() as int)
                =~= self.visible_chunks@);
        }
        to_request
    }

    /// The chunk that contains a world position: floor division of each
    /// axis by the chunk size.
    pub open spec fn chunk_of_world(world_x: int, world_y: int, chunk_size: int) -> ChunkCoord {
        ChunkCoord { x: (world_x / chunk_size) as i32, y: (world_y / chunk_size) as i32 }
    }

    /// Tracks the player's position and recomputes the visible window only
    /// when the derived chunk coordinate actually changed — not every
    /// frame. Returns whether it changed.
    pub fn update_player_position(&mut self, world_x: i64, world_y: i64, chunk_size: i64) -> (changed:
        bool)
        requires
            old(self).wf(),
            1 <= chunk_size <= 0x7fff_ffff,
            -window_center_limit() * chunk_size <= world_x <= window_center_limit() * chunk_size,
            -window_center_limit() * chunk_size <= world_y <= window_center_limit() * chunk_size,
        ensures
            final(self).wf(),
            changed == (old(self).player_chunk != Some(
                Self::chunk_of_world(world_x as int, world_y as int, chunk_size as int),
            )),
            final(self).player_chunk == Some(
                Self::chunk_of_world(world_x as int, world_y as int, chunk_size as int),
            ),
            final(self).view_distance == old(self).view_distance,
            final(self).frame_counter == old(self).frame_counter,
            final(self).loaded_chunks@ == old(self).loaded_chunks@,
            final(self).requested_chunks@ == old(self).requested_chunks@,
            !changed ==> final(self).visible_chunks@ == old(self).visible_chunks@,
            changed ==> forall|c: ChunkCoord|
                #[trigger] final(self).is_visible(c) <==> in_window(
                    Self::chunk_of_world(world_x as int, world_y as int, chunk_size as int),
                    old(self).view_distance as int,
                    c,
                ),
            changed ==> final(self).visible_chunks@.len() == (2 * old(self).view_distance + 1) * (2
                * old(self).view_distance + 1),
    {
        proof {
            assert(window_center_limit() * chunk_size <= 0x7fff_ffff * chunk_size
                && -0x7fff_ffff * chunk_size <= -window_center_limit() * chunk_size)
                by (nonlinear_arith)
                requires
                    1 <= chunk_size,
            ;
        }
        let c = world_to_chunk(world_x, world_y, chunk_size);
        proof {
            let l = window_center_limit();
            let s = chunk_size as int;
            let wx = world_x as int;
            let wy = world_y as int;
            vstd::arithmetic::div_mod::lemma_div_is_ordered(wx, l * s, s);
            vstd::arithmetic::div_mod::lemma_div_is_ordered(-l * s, wx, s);
            vstd::arithmetic::div_mod::lemma_div_is_ordered(wy, l * s, s);
            vstd::arithmetic::div_mod::lemma_div_is_ordered(-l * s, wy, s);
            vstd::arithmetic::div_mod::lemma_div_multiples_vanish(l, s);
            vstd::arithmetic::div_mod::lemma_div_multiples_vanish(-l, s);
            assert(l * s == s * l && -l * s == s * (-l)) by (nonlinear_arith);
            assert(-l <= wx / s <= l && -l <= wy / s <= l);
        }
        let changed = match self.player_chunk {
            None => true,
            Some(p) => !(p.x == c.x && p.y == c.y),
        };
        if changed {
            self.recompute(c);
        }
        changed
    }
}

/// What one client tick hands back to its caller: the coordinates whose
/// local representations must be released, the deliveries to materialise,
/// and the requests to send to the server.
pub struct TickOutput {
    pub dropped: Vec<ChunkCoord>,
    pub accepted: Vec<ChunkData>,
    pub requests: Vec<ChunkCoord>,
}

impl ClientWorldState {
    /// One client tick in the mandated order: count the frame, derive the
    /// player's chunk and recompute visibility if it changed, reconcile
    /// the loaded and pending sets, process the frame's deliveries, then
    /// issue or retry requests. The contract pins the whole tick: the
    /// visible set is exactly the window around the derived chunk; the
    /// dropped list is exactly the loaded coordinates that left it; the
    /// loaded set is exactly the surviving chunks plus this frame's
    /// deliveries inside it; each newly loaded coordinate is accepted for
    /// materialisation exactly once; and the request list is exactly the
    /// visible, unloaded coordinates never requested or past the timeout,
    /// each stamped with the new frame.
    pub fn client_tick(
        &mut self,
        world_x: i64,
        world_y: i64,
        chunk_size: i64,
        incoming: &Vec<ChunkData>,
        timeout: u64,
    ) -> (out: TickOutput)
        requires
            old(self).wf(),
            old(self).frame_counter < u64::MAX,
            1 <= chunk_size <= 0x7fff_ffff,
            -window_center_limit() * chunk_size <= world_x <= window_center_limit() * chunk_size,
            -window_center_limit() * chunk_size <= world_y <= window_center_limit() * chunk_size,
        ensures
            final(self).wf(),
            final(self).frame_counter == old(self).frame_counter + 1,
            final(self).view_distance == old(self).view_distance,
            final(self).player_chunk == Some(
                Self::chunk_of_world(world_x as int, world_y as int, chunk_size as int),
            ),
            forall|c: ChunkCoord|
                #[trigger] final(self).is_visible(c) <==> in_window(
                    Self::chunk_of_world(world_x as int, world_y as int, chunk_size as int),
                    old(self).view_distance as int,
                    c,
                ),
            final(self).visible_chunks@.len() == (2 * old(self).view_distance + 1) * (2 * old(self).view_distance + 1),
            set_distinct(out.dropped@),
            forall|c: ChunkCoord|
                #[trigger] set_contains(out.dropped@, c) <==> (old(self).is_loaded(c)
                    && !in_window(
                    Self::chunk_of_world(world_x as int, world_y as int, chunk_size as int),
                    old(self).view_distance as int,
                    c,
                )),
            forall|c: ChunkCoord|
                #[trigger] final(self).is_loaded(c) <==> (in_window(
                    Self::chunk_of_world(world_x as int, world_y as int, chunk_size as int),
                    old(self).view_distance as int,
                    c,
                ) && (old(self).is_loaded(c) || exists|k: int|
                    0 <= k < incoming@.len() && (#[trigger] incoming@[k]).chunk.coord == c)),
            forall|k: int|
                0 <= k < out.accepted@.len() ==> final(self).is_loaded(
                    (#[trigger] out.accepted@[k]).chunk.coord,
                ),
            forall|c: ChunkCoord|
                #![trigger in_window(
                    Self::chunk_of_world(world_x as int, world_y as int, chunk_size as int),
                    old(self).view_distance as int,
                    c,
                )]
                (exists|j: int|
                    0 <= j < out.accepted@.len() && (#[trigger] out.accepted@[j]).chunk.coord
                        == c) <==> (in_window(
                    Self::chunk_of_world(world_x as int, world_y as int, chunk_size as int),
                    old(self).view_distance as int,
                    c,
                ) && !old(self).is_loaded(c) && exists|k: int|
                    0 <= k < incoming@.len() && (#[trigger] incoming@[k]).chunk.coord == c),
            forall|j1: int, j2: int|
                #![trigger out.accepted@[j1], out.accepted@[j2]]
                0 <= j1 < j2 < out.accepted@.len() ==> out.accepted@[j1].chunk.coord
                    != out.accepted@[j2].chunk.coord,
            set_distinct(out.requests@),
            forall|c: ChunkCoord|
                #[trigger] set_contains(out.requests@, c) <==> (in_window(
                    Self::chunk_of_world(world_x as int, world_y as int, chunk_size as int),
                    old(self).view_distance as int,
                    c,
                ) && !final(self).is_loaded(c) && (!old(self).is_requested(c) || old(self).frame_counter + 1 - old(self).requested_at(c) > timeout)),
            forall|c: ChunkCoord|
                #[trigger] set_contains(out.requests@, c) ==> final(self).is_requested(c) && final(self).requested_at(c) == final(self).frame_counter,
            forall|c: ChunkCoord|
                #[trigger] final(self).is_requested(c) <==> ((old(self).is_requested(c)
                    && in_window(
                    Self::chunk_of_world(world_x as int, world_y as int, chunk_size as int),
                    old(self).view_distance as int,
                    c,
                ) && !final(self).is_loaded(c)) || set_contains(out.requests@, c)),
            forall|c: ChunkCoord|
                final(self).is_requested(c) && !set_contains(out.requests@, c) ==> #[trigger]
                final(self).requested_at(c) == old(self).requested_at(c),
            forall|c: ChunkCoord| #[trigger] final(self).is_loaded(c) ==> final(self).is_visible(c),
            forall|c: ChunkCoord|
                #[trigger] final(self).is_requested(c) ==> final(self).is_visible(c),
            forall|c: ChunkCoord|
                final(self).is_visible(c) && !final(self).is_loaded(c) ==> #[trigger] final(self).is_requested(c),
            forall|c: ChunkCoord|
                final(self).is_visible(c) && !final(self).is_loaded(c) && !set_contains(
                    out.requests@,
                    c,
                ) ==> final(self).frame_counter - #[trigger] final(self).requested_at(c) <= timeout,
    {
        let ghost pc = Self::chunk_of_world(world_x as int, world_y as int, chunk_size as int);
        let ghost d = old(self).view_distance as int;
        self.advance_frame();
        let changed = self.update_player_position(world_x, world_y, chunk_size);
        let ghost upd = *self;
        proof {
            assert forall|c: ChunkCoord| #[trigger] upd.is_visible(c) <==> in_window(pc, d, c) by {
                if !changed {
                    assert(old(self).player_chunk == Some(pc));
                    assert(set_contains(old(self).visible_chunks@, c) <==> in_window(pc, d, c));
                }
            }
            assert(upd.visible_chunks@.len() == (2 * old(self).view_distance + 1) * (2 * old(self).view_distance + 1));
        }
        let dropped = self.reconcile();
        let ghost reconciled = *self;
        proof {
            assert forall|c: ChunkCoord|
                #[trigger] set_contains(dropped@, c) <==> (old(self).is_loaded(c) && !in_window(
                    pc,
                    d,
                    c,
                )) by {
                assert(set_contains(dropped@, c) <==> (upd.is_loaded(c) && !upd.is_visible(c)));
                assert(upd.is_loaded(c) == old(self).is_loaded(c));
            }
            assert forall|c: ChunkCoord|
                #[trigger] reconciled.is_loaded(c) <==> (old(self).is_loaded(c) && in_window(
                    pc,
                    d,
                    c,
                )) by {
                assert(reconciled.is_loaded(c) <==> (upd.is_loaded(c) && upd.is_visible(c)));
                assert(upd.is_loaded(c) == old(self).is_loaded(c));
            }
            assert forall|c: ChunkCoord|
                #[trigger] reconciled.is_requested(c) <==> (old(self).is_requested(c) && in_window(
                    pc,
                    d,
                    c,
                )) by {
                assert(reconciled.is_requested(c) <==> (upd.is_requested(c) && upd.is_visible(c)));
                assert(upd.is_requested(c) == old(self).is_requested(c));
            }
            assert forall|c: ChunkCoord|
                #[trigger] reconciled.is_requested(c) implies reconciled.requested_at(c) == old(self).requested_at(c) by {
                assert(upd.is_requested(c));
                assert(reconciled.requested_at(c) == upd.requested_at(c));
            }
        }
        let mut accepted: Vec<ChunkData> = Vec::new();
        let mut i: usize = 0;
        while i < incoming.len()
            invariant
                self.wf(),
                self.player_chunk == reconciled.player_chunk,
                self.view_distance == reconciled.view_distance,
                self.frame_counter == reconciled.frame_counter,
                self.visible_chunks@ == reconciled.visible_chunks@,
                forall|c: ChunkCoord| #[trigger] self.is_visible(c) <==> in_window(pc, d, c),
                forall|c: ChunkCoord| #[trigger] self.is_loaded(c) ==> self.is_visible(c),
                forall|c: ChunkCoord| #[trigger] self.is_requested(c) ==> self.is_visible(c),
                0 <= i <= incoming@.len(),
                forall|c: ChunkCoord|
                    #[trigger] self.is_loaded(c) <==> (reconciled.is_loaded(c) || ((exists|k: int|
                        0 <= k < i && (#[trigger] incoming@[k]).chunk.coord == c)
                        && self.is_visible(c))),
                forall|c: ChunkCoord|
                    #[trigger] self.is_requested(c) <==> (reconciled.is_requested(c)
                        && !self.is_loaded(c)),
                forall|c: ChunkCoord|
                    #[trigger] self.is_requested(c) ==> self.requested_at(c)
                        == reconciled.requested_at(c),
                forall|k: int|
                    0 <= k < accepted@.len() ==> self.is_loaded(
                        (#[trigger] accepted@[k]).chunk.coord,
                    ),
                forall|c: ChunkCoord|
                    #![trigger self.is_visible(c)]
                    (exists|j: int|
                        0 <= j < accepted@.len() && (#[trigger] accepted@[j]).chunk.coord == c)
                        <==> ((exists|k: int|
                        0 <= k < i && (#[trigger] incoming@[k]).chunk.coord == c)
                        && self.is_visible(c) && !reconciled.is_loaded(c)),
                forall|j1: int, j2: int|
                    #![trigger accepted@[j1], accepted@[j2]]
                    0 <= j1 < j2 < accepted@.len() ==> accepted@[j1].chunk.coord
                        != accepted@[j2].chunk.coord,
            decreases incoming@.len() - i,
        {
            let ghost pre_it = *self;
            let ghost prev_acc = accepted@;
            let acc = self.on_receive(&incoming[i]);
            if acc {
                accepted.push(incoming[i].clone());
            }
            proof {
                let co = incoming@[i as int].chunk.coord;
                assert(self.visible_chunks@ == pre_it.visible_chunks@);
                assert forall|c: ChunkCoord| #[trigger] self.is_visible(c) <==> in_window(
                    pc,
                    d,
                    c,
                ) by {
                    assert(pre_it.is_visible(c) <==> in_window(pc, d, c));
                    assert(set_contains(self.visible_chunks@, c) == set_contains(
                        pre_it.visible_chunks@,
                        c,
                    ));
                }
                assert forall|c: ChunkCoord|
                    #[trigger] self.is_loaded(c) <==> (reconciled.is_loaded(c) || ((exists|k: int|
                        0 <= k < i + 1 && (#[trigger] incoming@[k]).chunk.coord == c)
                        && self.is_visible(c))) by {
                    assert(self.is_loaded(c) <==> (pre_it.is_loaded(c) || (acc && c == co)));
                    if self.is_loaded(c) && !reconciled.is_loaded(c) {
                        assert(self.is_visible(c));
                        if pre_it.is_loaded(c) {
                            let k = choose|k: int|
                                0 <= k < i && (#[trigger] incoming@[k]).chunk.coord == c;
                            assert(0 <= k < i + 1 && incoming@[k].chunk.coord == c);
                        } else {
                            assert(acc && c == co);
                            assert(incoming@[i as int].chunk.coord == c);
                        }
                    }
                    if ((exists|k: int| 0 <= k < i + 1 && (#[trigger] incoming@[k]).chunk.coord
                        == c) && self.is_visible(c)) && !reconciled.is_loaded(c) {
                        let k = choose|k: int|
                            0 <= k < i + 1 && (#[trigger] incoming@[k]).chunk.coord == c;
                        if k < i {
                            assert(pre_it.is_loaded(c));
                        } else {
                            assert(c == co);
                            if !pre_it.is_loaded(c) {
                                assert(pre_it.is_visible(c));
                                assert(acc);
                            }
                        }
                        assert(self.is_loaded(c));
                    }
                }
                assert forall|c: ChunkCoord|
                    #[trigger] self.is_requested(c) <==> (reconciled.is_requested(c)
                        && !self.is_loaded(c)) by {
                    assert(pre_it.is_requested(c) <==> (reconciled.is_requested(c)
                        && !pre_it.is_loaded(c)));
                    assert(self.is_requested(c) <==> (pre_it.is_requested(c) && !(acc && c == co)));
                    assert(self.is_loaded(c) <==> (pre_it.is_loaded(c) || (acc && c == co)));
                }
                assert forall|c: ChunkCoord|
                    #[trigger] self.is_requested(c) implies self.requested_at(c)
                    == reconciled.requested_at(c) by {
                    assert(pre_it.is_requested(c));
                    assert(self.requested_at(c) == pre_it.requested_at(c));
                }
                assert forall|c: ChunkCoord|
                    #![trigger self.is_visible(c)]
                    (exists|j: int|
                        0 <= j < accepted@.len() && (#[trigger] accepted@[j]).chunk.coord == c)
                        <==> ((exists|k: int|
                        0 <= k < i + 1 && (#[trigger] incoming@[k]).chunk.coord == c)
                        && self.is_visible(c) && !reconciled.is_loaded(c)) by {
                    assert(self.is_visible(c) <==> in_window(pc, d, c));
                    assert(pre_it.is_visible(c) == self.is_visible(c));
                    if exists|j: int|
                        0 <= j < accepted@.len() && (#[trigger] accepted@[j]).chunk.coord == c {
                        let j = choose|j: int|
                            0 <= j < accepted@.len() && (#[trigger] accepted@[j]).chunk.coord == c;
                        if j < prev_acc.len() {
                            assert(accepted@[j] == prev_acc[j]);
                            assert(exists|jj: int|
                                0 <= jj < prev_acc.len() && (#[trigger] prev_acc[jj]).chunk.coord
                                    == c);
                            let k = choose|k: int|
                                0 <= k < i && (#[trigger] incoming@[k]).chunk.coord == c;
                            assert(0 <= k < i + 1 && incoming@[k].chunk.coord == c);
                        } else {
                            assert(acc);
                            assert(accepted@[j].chunk.coord == co);
                            assert(c == co);
                            assert(incoming@[i as int].chunk.coord == c);
                            assert(pre_it.is_visible(c) && !pre_it.is_loaded(c));
                            assert(!reconciled.is_loaded(c));
                        }
                        assert(self.is_visible(c));
                    }
                    if ((exists|k: int| 0 <= k < i + 1 && (#[trigger] incoming@[k]).chunk.coord
                        == c) && self.is_visible(c)) && !reconciled.is_loaded(c) {
                        let k = choose|k: int|
                            0 <= k < i + 1 && (#[trigger] incoming@[k]).chunk.coord == c;
                        if k < i {
                            assert(exists|jj: int|
                                0 <= jj < prev_acc.len() && (#[trigger] prev_acc[jj]).chunk.coord
                                    == c);
                            let jj = choose|jj: int|
                                0 <= jj < prev_acc.len() && (#[trigger] prev_acc[jj]).chunk.coord
                                    == c;
                            assert(accepted@[jj] == prev_acc[jj]);
                            assert(accepted@[jj].chunk.coord == c);
                        } else {
                            assert(c == co);
                            if pre_it.is_loaded(c) {
                                let k2 = choose|k2: int|
                                    0 <= k2 < i && (#[trigger] incoming@[k2]).chunk.coord == c;
                                let jj = choose|jj: int|
                                    0 <= jj < prev_acc.len() && (#[trigger] prev_acc[jj]).chunk.coord
                                        == c;
                                assert(accepted@[jj] == prev_acc[jj]);
                                assert(accepted@[jj].chunk.coord == c);
                            } else {
                                assert(acc);
                                assert(accepted@[accepted@.len() - 1].chunk.coord == co);
                            }
                        }
                    }
                }
                assert forall|j1: int, j2: int|
                    #![trigger accepted@[j1], accepted@[j2]]
                    0 <= j1 < j2 < accepted@.len() implies accepted@[j1].chunk.coord
                    != accepted@[j2].chunk.coord by {
                    if j2 == prev_acc.len() {
                        assert(acc);
                        assert(accepted@[j1] == prev_acc[j1]);
                        assert(accepted@[j2].chunk.coord == co);
                        if prev_acc[j1].chunk.coord == co {
                            assert(exists|jj: int|
                                0 <= jj < prev_acc.len() && (#[trigger] prev_acc[jj]).chunk.coord
                                    == co);
                            assert(pre_it.is_visible(co) <==> in_window(pc, d, co));
                            assert((exists|k: int|
                                0 <= k < i && (#[trigger] incoming@[k]).chunk.coord == co)
                                && pre_it.is_visible(co) && !reconciled.is_loaded(co));
                            let k = choose|k: int|
                                0 <= k < i && (#[trigger] incoming@[k]).chunk.coord == co;
                            assert(pre_it.is_loaded(co));
                            assert(false);
                        }
                    } else {
                        assert(accepted@[j1] == prev_acc[j1] && accepted@[j2] == prev_acc[j2]);
                    }
                }
            }
            i = i + 1;
        }
        let ghost received = *self;
        let requests = self.request_pass(timeout);
        proof {
            assert forall|c: ChunkCoord| #[trigger] self.is_visible(c) <==> in_window(
                pc,
                d,
                c,
            ) by {
                assert(received.is_visible(c) <==> in_window(pc, d, c));
            }
            assert forall|c: ChunkCoord|
                #[trigger] self.is_loaded(c) <==> (in_window(pc, d, c) && (old(self).is_loaded(c)
                    || exists|k: int|
                    0 <= k < incoming@.len() && (#[trigger] incoming@[k]).chunk.coord == c)) by {
                assert(self.is_loaded(c) == received.is_loaded(c));
                assert(received.is_loaded(c) <==> (reconciled.is_loaded(c) || ((exists|k: int|
                    0 <= k < incoming@.len() && (#[trigger] incoming@[k]).chunk.coord == c)
                    && received.is_visible(c))));
                assert(received.is_visible(c) <==> in_window(pc, d, c));
                assert(reconciled.is_loaded(c) <==> (old(self).is_loaded(c) && in_window(
                    pc,
                    d,
                    c,
                )));
            }
            assert forall|c: ChunkCoord|
                #[trigger] set_contains(requests@, c) <==> (in_window(pc, d, c)
                    && !self.is_loaded(c) && (!old(self).is_requested(c) || old(self).frame_counter + 1 - old(self).requested_at(c) > timeout)) by {
                assert(set_contains(requests@, c) == received.should_emit(c, timeout));
                assert(received.is_visible(c) <==> in_window(pc, d, c));
                assert(received.is_loaded(c) == self.is_loaded(c));
                assert(received.frame_counter == old(self).frame_counter + 1);
                assert(received.is_requested(c) <==> (reconciled.is_requested(c)
                    && !received.is_loaded(c)));
                assert(reconciled.is_requested(c) <==> (old(self).is_requested(c) && in_window(
                    pc,
                    d,
                    c,
                )));
                if received.is_requested(c) {
                    assert(received.requested_at(c) == reconciled.requested_at(c));
                    assert(reconciled.requested_at(c) == old(self).requested_at(c));
                }
            }
            assert forall|c: ChunkCoord|
                #[trigger] self.is_requested(c) <==> ((old(self).is_requested(c) && in_window(
                    pc,
                    d,
                    c,
                ) && !self.is_loaded(c)) || set_contains(requests@, c)) by {
                assert(self.is_requested(c) <==> (received.is_requested(c) || received.should_emit(
                    c,
                    timeout,
                )));
                assert(set_contains(requests@, c) == received.should_emit(c, timeout));
                assert(received.is_requested(c) <==> (reconciled.is_requested(c)
                    && !received.is_loaded(c)));
                assert(reconciled.is_requested(c) <==> (old(self).is_requested(c) && in_window(
                    pc,
                    d,
                    c,
                )));
                assert(received.is_loaded(c) == self.is_loaded(c));
            }
            assert forall|c: ChunkCoord|
                self.is_requested(c) && !set_contains(requests@, c) implies #[trigger]
                self.requested_at(c) == old(self).requested_at(c) by {
                assert(!received.should_emit(c, timeout));
                assert(received.is_requested(c));
                assert(self.requested_at(c) == received.requested_at(c));
                assert(received.requested_at(c) == reconciled.requested_at(c));
                assert(reconciled.requested_at(c) == old(self).requested_at(c));
            }
            assert forall|c: ChunkCoord|
                #[trigger] set_contains(requests@, c) implies self.is_requested(c)
                && self.requested_at(c) == self.frame_counter by {
                assert(received.should_emit(c, timeout));
            }
            assert forall|c: ChunkCoord|
                #![trigger in_window(pc, d, c)]
                (exists|j: int|
                    0 <= j < accepted@.len() && (#[trigger] accepted@[j]).chunk.coord == c) <==> (
                in_window(pc, d, c) && !old(self).is_loaded(c) && exists|k: int|
                    0 <= k < incoming@.len() && (#[trigger] incoming@[k]).chunk.coord == c) by {
                assert((exists|j: int|
                    0 <= j < accepted@.len() && (#[trigger] accepted@[j]).chunk.coord == c) <==> ((
                exists|k: int| 0 <= k < incoming@.len() && (#[trigger] incoming@[k]).chunk.coord
                    == c) && received.is_visible(c) && !reconciled.is_loaded(c)));
                assert(received.is_visible(c) <==> in_window(pc, d, c));
                assert(reconciled.is_loaded(c) <==> (old(self).is_loaded(c) && in_window(
                    pc,
                    d,
                    c,
                )));
            }
            assert forall|k: int|
                0 <= k < accepted@.len() implies self.is_loaded(
                (#[trigger] accepted@[k]).chunk.coord,
            ) by {
                assert(received.is_loaded(accepted@[k].chunk.coord));
            }
            assert forall|c: ChunkCoord| #[trigger] self.is_loaded(c) implies self.is_visible(
                c,
            ) by {
                assert(received.is_loaded(c));
                assert(received.is_visible(c));
            }
            assert forall|c: ChunkCoord| #[trigger] self.is_requested(c) implies self.is_visible(
                c,
            ) by {
                if received.is_requested(c) {
                    assert(received.is_visible(c));
                } else {
                    assert(received.should_emit(c, timeout));
                    assert(received.is_visible(c));
                }
            }
            assert forall|c: ChunkCoord|
                self.is_visible(c) && !self.is_loaded(c) implies #[trigger] self.is_requested(
                c,
            ) by {
                assert(received.is_visible(c) && !received.is_loaded(c));
                if !received.is_requested(c) {
                    assert(received.should_emit(c, timeout));
                }
            }
            assert forall|c: ChunkCoord|
                self.is_visible(c) && !self.is_loaded(c) && !set_contains(requests@, c) implies
                self.frame_counter - #[trigger] self.requested_at(c) <= timeout by {
                assert(!received.should_emit(c, timeout));
                assert(received.is_visible(c) && !received.is_loaded(c));
                assert(received.is_requested(c));
                assert(self.requested_at(c) == received.requested_at(c));
            }
        }
        TickOutput { dropped, accepted, requests }
    }
}

} // verus!
