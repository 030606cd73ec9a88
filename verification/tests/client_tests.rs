use chunkstream::client::ClientWorldState;
use chunkstream::coords::{chebyshev_distance, world_to_chunk, ChunkCoord};
use chunkstream::generation::generate_chunk;
use chunkstream::protocol::ChunkData;
use chunkstream::table::set_has;
use chunkstream::terrain::WorldConfig;

fn data_for(coord: ChunkCoord) -> ChunkData {
    let config = WorldConfig::default();
    ChunkData { chunk: generate_chunk(&config, coord, 0) }
}

#[test]
fn recompute_yields_exactly_25_coords_within_distance_2() {
    let mut cl = ClientWorldState::new(2);
    let origin = ChunkCoord { x: 0, y: 0 };
    cl.recompute(origin);
    assert_eq!(cl.visible_chunks.len(), 25);
    for c in cl.visible_chunks.iter() {
        assert!(chebyshev_distance(origin, *c) <= 2);
    }
    // No duplicates: every window member occurs, and there are exactly 25.
    for dy in -2..=2 {
        for dx in -2..=2 {
            assert!(set_has(&cl.visible_chunks, ChunkCoord { x: dx, y: dy }));
        }
    }
}

#[test]
fn reconcile_drops_what_left_the_window() {
    let mut cl = ClientWorldState::new(1);
    cl.recompute(ChunkCoord { x: 0, y: 0 });
    // Load two chunks, request one more.
    assert!(cl.on_receive(&data_for(ChunkCoord { x: 0, y: 0 })));
    assert!(cl.on_receive(&data_for(ChunkCoord { x: 1, y: 1 })));
    let sent = cl.request_pass(120);
    assert_eq!(sent.len(), 7);
    // The player moves far away: everything is now out of the window.
    cl.recompute(ChunkCoord { x: 10, y: 10 });
    let dropped = cl.reconcile();
    assert_eq!(dropped.len(), 2);
    assert!(set_has(&dropped, ChunkCoord { x: 0, y: 0 }));
    assert!(set_has(&dropped, ChunkCoord { x: 1, y: 1 }));
    assert_eq!(cl.loaded_chunks.len(), 0);
    assert_eq!(cl.requested_chunks.len(), 0);
    // Reconciliation safety: loaded and requested are subsets of visible.
    for c in cl.loaded_chunks.iter() {
        assert!(set_has(&cl.visible_chunks, *c));
    }
    for (c, _) in cl.requested_chunks.iter() {
        assert!(set_has(&cl.visible_chunks, *c));
    }
}

#[test]
fn duplicate_delivery_is_discarded() {
    let mut cl = ClientWorldState::new(1);
    cl.recompute(ChunkCoord { x: 0, y: 0 });
    let d = data_for(ChunkCoord { x: 0, y: 1 });
    assert!(cl.on_receive(&d));
    assert_eq!(cl.loaded_chunks.len(), 1);
    // The same coordinate again: discarded, still loaded exactly once.
    assert!(!cl.on_receive(&d));
    assert_eq!(cl.loaded_chunks.len(), 1);
    let mut occurrences: usize = 0;
    for c in cl.loaded_chunks.iter() {
        if *c == (ChunkCoord { x: 0, y: 1 }) {
            occurrences += 1;
        }
    }
    assert_eq!(occurrences, 1);
}

#[test]
fn stale_delivery_is_discarded() {
    let mut cl = ClientWorldState::new(1);
    cl.recompute(ChunkCoord { x: 0, y: 0 });
    // A chunk far outside the window arrives: ignored entirely.
    assert!(!cl.on_receive(&data_for(ChunkCoord { x: 50, y: 50 })));
    assert_eq!(cl.loaded_chunks.len(), 0);
}

#[test]
fn request_pass_respects_the_timeout_window() {
    let mut cl = ClientWorldState::new(0);
    cl.recompute(ChunkCoord { x: 0, y: 0 });
    // Window of size 1: a single coordinate to fetch.
    let first = cl.request_pass(120);
    assert_eq!(first, vec![ChunkCoord { x: 0, y: 0 }]);
    // Within the timeout window nothing is re-emitted.
    for _ in 0..120 {
        cl.advance_frame();
        assert_eq!(cl.request_pass(120).len(), 0);
    }
    // One more frame: the window has elapsed, re-emitted exactly once.
    cl.advance_frame();
    let again = cl.request_pass(120);
    assert_eq!(again, vec![ChunkCoord { x: 0, y: 0 }]);
    // And the retry clock starts over.
    cl.advance_frame();
    assert_eq!(cl.request_pass(120).len(), 0);
}

#[test]
fn request_pass_skips_loaded_chunks() {
    let mut cl = ClientWorldState::new(1);
    cl.recompute(ChunkCoord { x: 0, y: 0 });
    assert!(cl.on_receive(&data_for(ChunkCoord { x: 0, y: 0 })));
    let sent = cl.request_pass(120);
    assert_eq!(sent.len(), 8);
    assert!(!set_has(&sent, ChunkCoord { x: 0, y: 0 }));
}

#[test]
fn player_chunk_uses_floor_division() {
    // Truncating division would put world (-1, -1) in chunk (0, 0).
    let c = world_to_chunk(-1, -1, 32);
    assert_eq!(c, ChunkCoord { x: -1, y: -1 });
    assert_eq!(world_to_chunk(-32, 31, 32), ChunkCoord { x: -1, y: 0 });
    assert_eq!(world_to_chunk(-33, 32, 32), ChunkCoord { x: -2, y: 1 });
    assert_eq!(world_to_chunk(0, 0, 32), ChunkCoord { x: 0, y: 0 });
}

#[test]
fn visibility_recomputed_only_on_chunk_change() {
    let mut cl = ClientWorldState::new(1);
    assert!(cl.update_player_position(0, 0, 32));
    assert!(!cl.update_player_position(31, 31, 32));
    assert!(cl.update_player_position(32, 0, 32));
    assert_eq!(cl.player_chunk, Some(ChunkCoord { x: 1, y: 0 }));
}

#[test]
fn one_tick_accepts_each_coordinate_once() {
    let mut cl = ClientWorldState::new(1);
    let _ = cl.client_tick(0, 0, 32, &Vec::new(), 120);
    // Two deliveries of the same chunk and one for a far-away coordinate:
    // one materialisation, the stale one discarded.
    let mut incoming: Vec<ChunkData> = Vec::new();
    incoming.push(data_for(ChunkCoord { x: 0, y: 0 }));
    incoming.push(data_for(ChunkCoord { x: 0, y: 0 }));
    incoming.push(data_for(ChunkCoord { x: 5, y: 5 }));
    let out = cl.client_tick(0, 0, 32, &incoming, 120);
    assert_eq!(out.accepted.len(), 1);
    assert_eq!(out.accepted[0].chunk.coord, ChunkCoord { x: 0, y: 0 });
    assert_eq!(cl.loaded_chunks.len(), 1);
}

#[test]
fn one_tick_reports_exactly_the_dropped_chunks() {
    let mut cl = ClientWorldState::new(1);
    let _ = cl.client_tick(0, 0, 32, &Vec::new(), 120);
    let mut incoming: Vec<ChunkData> = Vec::new();
    incoming.push(data_for(ChunkCoord { x: 0, y: 0 }));
    incoming.push(data_for(ChunkCoord { x: 1, y: 1 }));
    let _ = cl.client_tick(0, 0, 32, &incoming, 120);
    assert_eq!(cl.loaded_chunks.len(), 2);
    // The player jumps ten chunks away: both loaded chunks are reported
    // dropped, and nothing else is.
    let out = cl.client_tick(320, 320, 32, &Vec::new(), 120);
    assert_eq!(out.dropped.len(), 2);
    assert!(set_has(&out.dropped, ChunkCoord { x: 0, y: 0 }));
    assert!(set_has(&out.dropped, ChunkCoord { x: 1, y: 1 }));
    assert_eq!(cl.loaded_chunks.len(), 0);
}
