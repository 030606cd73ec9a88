use chunkstream::coords::ChunkCoord;
use chunkstream::store::{should_push, WorldState};
use chunkstream::table::set_has;
use chunkstream::terrain::WorldConfig;

#[test]
fn get_or_generate_caches_and_generates_at_most_once() {
    let config = WorldConfig::default();
    let mut s = WorldState::new();
    let coord = ChunkCoord { x: 2, y: 3 };
    let first = s.get_or_generate(&config, coord);
    assert_eq!(first.coord, coord);
    assert_eq!(first.last_accessed, 0);
    assert_eq!(s.active_chunks.len(), 1);
    // Move time forward: a cached chunk must be served, not regenerated.
    s.advance(100);
    let second = s.get_or_generate(&config, coord);
    assert_eq!(second.last_accessed, 0);
    assert_eq!(s.active_chunks.len(), 1);
    for y in 0..first.tiles.len() {
        for x in 0..first.tiles[y].len() {
            assert_eq!(first.tiles[y][x], second.tiles[y][x]);
        }
    }
}

#[test]
fn advance_accumulates_world_time() {
    let mut s = WorldState::new();
    assert_eq!(s.world_time, 0);
    s.advance(16);
    s.advance(17);
    assert_eq!(s.world_time, 33);
}

#[test]
fn eviction_removes_exactly_the_oldest() {
    let config = WorldConfig::default();
    let mut s = WorldState::new();
    // Seven chunks with distinct generation times 0, 10, ..., 60.
    let coords: Vec<ChunkCoord> = (0..7).map(|i| ChunkCoord { x: i, y: 0 }).collect();
    for c in coords.iter() {
        let _ = s.get_or_generate(&config, *c);
        s.advance(10);
    }
    assert_eq!(s.active_chunks.len(), 7);
    // Capacity 4: the three oldest (times 0, 10, 20) must leave.
    s.evict_if_over_capacity(4);
    assert_eq!(s.active_chunks.len(), 4);
    for (i, c) in coords.iter().enumerate() {
        let present = set_has(&s.active_chunks, *c);
        assert_eq!(present, i >= 3, "chunk {} presence", i);
    }
    // Already at capacity: nothing more leaves.
    s.evict_if_over_capacity(4);
    assert_eq!(s.active_chunks.len(), 4);
}

#[test]
fn eviction_under_capacity_changes_nothing() {
    let config = WorldConfig::default();
    let mut s = WorldState::new();
    let _ = s.get_or_generate(&config, ChunkCoord { x: 0, y: 0 });
    let _ = s.get_or_generate(&config, ChunkCoord { x: 1, y: 0 });
    s.evict_if_over_capacity(64);
    assert_eq!(s.active_chunks.len(), 2);
}

#[test]
fn setup_world_generates_spawn_neighbourhood() {
    let config = WorldConfig::default();
    let mut s = WorldState::new();
    s.setup_world(&config);
    assert_eq!(s.active_chunks.len(), 5);
    for c in [
        ChunkCoord { x: 0, y: 0 },
        ChunkCoord { x: -1, y: 0 },
        ChunkCoord { x: 1, y: 0 },
        ChunkCoord { x: 0, y: -1 },
        ChunkCoord { x: 0, y: 1 },
    ] {
        assert!(set_has(&s.active_chunks, c));
    }
}

#[test]
fn generate_around_fills_the_window() {
    let config = WorldConfig::default();
    let mut s = WorldState::new();
    s.generate_around(&config, ChunkCoord { x: 10, y: 10 }, 1);
    assert_eq!(s.active_chunks.len(), 9);
    for dy in -1..=1 {
        for dx in -1..=1 {
            assert!(set_has(
                &s.active_chunks,
                ChunkCoord { x: 10 + dx, y: 10 + dy }
            ));
        }
    }
    // Running it again generates nothing new.
    s.generate_around(&config, ChunkCoord { x: 10, y: 10 }, 1);
    assert_eq!(s.active_chunks.len(), 9);
}

#[test]
fn push_only_inside_the_players_window() {
    let p = ChunkCoord { x: 0, y: 0 };
    assert!(should_push(p, 2, ChunkCoord { x: 2, y: -2 }));
    assert!(should_push(p, 2, ChunkCoord { x: 0, y: 0 }));
    assert!(!should_push(p, 2, ChunkCoord { x: 3, y: 0 }));
    assert!(!should_push(p, 2, ChunkCoord { x: -3, y: 3 }));
}
