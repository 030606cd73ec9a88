use chunkstream::coords::ChunkCoord;
use chunkstream::generation::generate_chunk;
use chunkstream::protocol::{deserialize_chunk, serialize_chunk};
use chunkstream::terrain::WorldConfig;

#[test]
fn codec_round_trips_a_generated_chunk() {
    let config = WorldConfig::default();
    let chunk = generate_chunk(&config, ChunkCoord { x: -7, y: 13 }, 99);
    let bytes = serialize_chunk(&chunk);
    assert_eq!(bytes.len(), 21 + 32 * 32 * 15);
    let back = deserialize_chunk(&bytes).expect("a serialized chunk deserializes");
    assert_eq!(back.coord, chunk.coord);
    assert_eq!(back.biome_type, chunk.biome_type);
    assert_eq!(back.last_accessed, chunk.last_accessed);
    assert_eq!(back.tiles.len(), chunk.tiles.len());
    for y in 0..chunk.tiles.len() {
        assert_eq!(back.tiles[y].len(), chunk.tiles[y].len());
        for x in 0..chunk.tiles[y].len() {
            assert_eq!(back.tiles[y][x], chunk.tiles[y][x]);
        }
    }
}

#[test]
fn serialization_is_deterministic() {
    let config = WorldConfig::default();
    let a = serialize_chunk(&generate_chunk(&config, ChunkCoord { x: 4, y: 4 }, 5));
    let b = serialize_chunk(&generate_chunk(&config, ChunkCoord { x: 4, y: 4 }, 5));
    assert_eq!(a, b);
}

#[test]
fn short_payload_is_rejected() {
    assert!(deserialize_chunk(&[]).is_none());
    assert!(deserialize_chunk(&[0u8; 20]).is_none());
}

#[test]
fn bad_biome_tag_is_rejected() {
    let config = WorldConfig::default();
    let mut bytes = serialize_chunk(&generate_chunk(&config, ChunkCoord { x: 0, y: 0 }, 0));
    bytes[8] = 6;
    assert!(deserialize_chunk(&bytes).is_none());
}

#[test]
fn bad_tile_tag_is_rejected() {
    let config = WorldConfig::default();
    let mut bytes = serialize_chunk(&generate_chunk(&config, ChunkCoord { x: 0, y: 0 }, 0));
    // First tile's type tag sits right after the 21-byte header.
    bytes[21] = 7;
    assert!(deserialize_chunk(&bytes).is_none());
    let mut bytes2 = serialize_chunk(&generate_chunk(&config, ChunkCoord { x: 0, y: 0 }, 0));
    // First tile's traversability flag.
    bytes2[21 + 14] = 2;
    assert!(deserialize_chunk(&bytes2).is_none());
}

#[test]
fn truncated_payload_is_rejected() {
    let config = WorldConfig::default();
    let mut bytes = serialize_chunk(&generate_chunk(&config, ChunkCoord { x: 0, y: 0 }, 0));
    bytes.pop();
    assert!(deserialize_chunk(&bytes).is_none());
}

#[test]
fn oversized_edge_length_is_rejected() {
    let config = WorldConfig::default();
    let mut bytes = serialize_chunk(&generate_chunk(&config, ChunkCoord { x: 0, y: 0 }, 0));
    // Declare an absurd edge length.
    bytes[17] = 0xff;
    bytes[18] = 0xff;
    bytes[19] = 0xff;
    bytes[20] = 0xff;
    assert!(deserialize_chunk(&bytes).is_none());
}
