use chunkstream::coords::ChunkCoord;
use chunkstream::generation::generate_chunk;
use chunkstream::terrain::{ResourceType, TileType, WorldConfig};

#[test]
fn generation_is_deterministic() {
    let config = WorldConfig::default();
    let coord = ChunkCoord { x: 3, y: -2 };
    let a = generate_chunk(&config, coord, 7);
    let b = generate_chunk(&config, coord, 7);
    assert_eq!(a.coord, b.coord);
    assert_eq!(a.biome_type, b.biome_type);
    assert_eq!(a.last_accessed, b.last_accessed);
    assert_eq!(a.tiles.len(), b.tiles.len());
    for y in 0..a.tiles.len() {
        assert_eq!(a.tiles[y].len(), b.tiles[y].len());
        for x in 0..a.tiles[y].len() {
            assert_eq!(a.tiles[y][x], b.tiles[y][x]);
        }
    }
}

#[test]
fn generated_chunk_shape_and_positions() {
    let config = WorldConfig::default();
    let coord = ChunkCoord { x: -1, y: 2 };
    let c = generate_chunk(&config, coord, 0);
    assert_eq!(c.coord, coord);
    assert_eq!(c.tiles.len(), 32);
    for y in 0..32 {
        assert_eq!(c.tiles[y].len(), 32);
        for x in 0..32 {
            let t = &c.tiles[y][x];
            assert_eq!(t.position.x as i64, coord.x as i64 * 32 + x as i64);
            assert_eq!(t.position.y as i64, coord.y as i64 * 32 + y as i64);
            assert!(-1000 <= t.height && t.height <= 1000);
        }
    }
}

#[test]
fn generated_tiles_follow_traversability_rule() {
    let config = WorldConfig::default();
    for &(cx, cy) in [(0i32, 0i32), (-5, 7), (100, -100)].iter() {
        let c = generate_chunk(&config, ChunkCoord { x: cx, y: cy }, 0);
        for row in c.tiles.iter() {
            for t in row.iter() {
                let expected = !(t.tile_type == TileType::Water
                    || t.tile_type == TileType::Mountain
                    || t.resource == ResourceType::Tree);
                assert_eq!(t.traversable, expected);
            }
        }
    }
}

#[test]
fn chunk_clone_preserves_everything() {
    let config = WorldConfig::default();
    let c = generate_chunk(&config, ChunkCoord { x: 1, y: 1 }, 42);
    let d = c.clone();
    assert_eq!(c.coord, d.coord);
    assert_eq!(c.biome_type, d.biome_type);
    assert_eq!(c.last_accessed, d.last_accessed);
    for y in 0..c.tiles.len() {
        for x in 0..c.tiles[y].len() {
            assert_eq!(c.tiles[y][x], d.tiles[y][x]);
        }
    }
}
