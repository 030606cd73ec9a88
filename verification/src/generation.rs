//! The terrain generator: a pure function from configuration and chunk
//! coordinate to a fully populated chunk.
//!
//! Three independent noise fields are derived from the seed: the biome field
//! from `seed`, the height field from `seed + 1` and the resource field from
//! `seed + 2`. The biome is sampled once per chunk at the chunk coordinate
//! scaled by `biome_scale`; heights and resources are sampled per tile at
//! the tile's world position scaled by `height_scale` and by twice
//! `height_scale` respectively.

use crate::coords::ChunkCoord;
use crate::field_noise::{field_at, sample_field, sample_limit};
use crate::terrain::{
    biome_for,
    determine_biome,
    determine_resource,
    determine_tile_type,
    is_traversable,
    resource_for,
    tile_type_for,
    traversable_for,
    BiomeType,
    ResourceType,
    Tile,
    TileType,
    WorldConfig,
    WorldPos,
};
use vstd::prelude::*;

verus! {

/// A generated chunk: its coordinate, a `chunk_size` x `chunk_size` grid of
/// tiles indexed row-major as `tiles[y][x]`, the chunk's biome, and the
/// world time at which it was last touched.
#[derive(Debug)]
pub struct Chunk {
    pub coord: ChunkCoord,
    pub tiles: Vec<Vec<Tile>>,
    pub biome_type: BiomeType,
    pub last_accessed: u64,
}

impl Chunk {
    /// The tile grid as a sequence of rows.
    pub open spec fn grid(self) -> Seq<Seq<Tile>> {
        self.tiles@.map_values(|row: Vec<Tile>| row@)
    }
}

impl Clone for Chunk {
    /// Copies a chunk cell by cell: the copy has the same coordinate, biome,
    /// timestamp and grid.
    fn clone(&self) -> (c: Chunk)
        ensures
            c.coord == self.coord,
            c.biome_type == self.biome_type,
            c.last_accessed == self.last_accessed,
            c.grid() == self.grid(),
    {
        let mut tiles: Vec<Vec<Tile>> = Vec::new();
        let mut y: usize = 0;
        while y < self.tiles.len()
            invariant
                0 <= y <= self.tiles@.len(),
                tiles@.len() == y,
                forall|j: int| 0 <= j < y ==> (#[trigger] tiles@[j])@ == self.tiles@[j]@,
            decreases self.tiles@.len() - y,
        {
            let row_len = self.tiles[y].len();
            let mut row: Vec<Tile> = Vec::new();
            let mut x: usize = 0;
            while x < row_len
                invariant
                    0 <= y < self.tiles@.len(),
                    row_len == self.tiles@[y as int]@.len(),
                    0 <= x <= row_len,
                    row@.len() == x,
                    forall|i: int| 0 <= i < x ==> row@[i] == self.tiles@[y as int]@[i],
                decreases row_len - x,
            {
                row.push(self.tiles[y][x]);
                x = x + 1;
            }
            proof {
                assert(row@ =~= self.tiles@[y as int]@);
            }
            tiles.push(row);
            y = y + 1;
        }
        let c = Chunk {
            coord: self.coord,
            tiles,
            biome_type: self.biome_type,
            last_accessed: self.last_accessed,
        };
        proof {
            assert forall|j: int| 0 <= j < c.grid().len() implies c.grid()[j] =~= self.grid()[j] by {
                assert(c.tiles@[j]@ == self.tiles@[j]@);
            }
            assert(c.grid() =~= self.grid());
        }
        c
    }
}

/// Largest chunk coordinate magnitude the generator accepts; keeps world
/// positions inside `i32` and sample positions inside the noise field's
/// range for every well-formed configuration.
pub open spec fn coord_limit() -> int {
    1_000_000
}

/// Whether a chunk coordinate is within the generator's range.
pub open spec fn coord_ok(c: ChunkCoord) -> bool {
    &&& -coord_limit() <= c.x <= coord_limit()
    &&& -coord_limit() <= c.y <= coord_limit()
}

/// The chunk's biome-noise sample: the biome field (seed) at the chunk
/// coordinate scaled by `biome_scale`.
pub open spec fn biome_sample(config: WorldConfig, coord: ChunkCoord) -> int {
    field_at(config.seed as u64, coord.x * config.biome_scale, coord.y * config.biome_scale)
}

/// The biome generated for a chunk.
pub open spec fn chunk_biome(config: WorldConfig, coord: ChunkCoord) -> BiomeType {
    biome_for(biome_sample(config, coord))
}

/// The height sample at a world position: the height field (seed + 1) at
/// the position scaled by `height_scale`.
pub open spec fn height_sample(config: WorldConfig, wx: int, wy: int) -> int {
    field_at((config.seed + 1) as u64, wx * config.height_scale, wy * config.height_scale)
}

/// The resource sample at a world position: the resource field (seed + 2)
/// at the position scaled by twice `height_scale`.
pub open spec fn resource_sample(config: WorldConfig, wx: int, wy: int) -> int {
    field_at(
        (config.seed + 2) as u64,
        wx * (2 * config.height_scale),
        wy * (2 * config.height_scale),
    )
}

/// The tile generated at local position `(lx, ly)` of the chunk at `coord`.
pub open spec fn tile_at(config: WorldConfig, coord: ChunkCoord, lx: int, ly: int) -> Tile {
    let wx = coord.x * config.chunk_size + lx;
    let wy = coord.y * config.chunk_size + ly;
    let h = height_sample(config, wx, wy);
    let tt = tile_type_for(chunk_biome(config, coord), h);
    let rv = resource_sample(config, wx, wy);
    let rs = resource_for(tt, rv, config.resource_density as int);
    Tile {
        tile_type: tt,
        resource: rs,
        height: h as i32,
        position: WorldPos { x: wx as i32, y: wy as i32 },
        traversable: traversable_for(tt, rs),
    }
}

/// What `generate_chunk(config, coord, now)` returns: the coordinate and
/// timestamp are carried over, the biome comes from the biome field, and
/// every cell of the square grid is the tile that the three noise fields
/// and the classification tables dictate.
pub open spec fn generated_chunk(
    config: WorldConfig,
    coord: ChunkCoord,
    now: u64,
    c: Chunk,
) -> bool {
    &&& c.coord == coord
    &&& c.biome_type == chunk_biome(config, coord)
    &&& c.last_accessed == now
    &&& c.grid().len() == config.chunk_size
    &&& forall|y: int|
        0 <= y < config.chunk_size ==> (#[trigger] c.grid()[y]).len() == config.chunk_size
    &&& forall|y: int, x: int|
        0 <= y < config.chunk_size && 0 <= x < config.chunk_size ==> #[trigger] c.grid()[y][x]
            == tile_at(config, coord, x, y)
}

/// Generates the chunk at `coord`. The result is a pure function of the
/// arguments — `generated_chunk` pins every field — so identical calls
/// always reproduce identical chunks.
pub fn generate_chunk(config: &WorldConfig, coord: ChunkCoord, now: u64) -> (c: Chunk)
    requires
        config.wf(),
        coord_ok(coord),
    ensures
        generated_chunk(*config, coord, now, c),
{
    proof {
        assert(-100_000_000_000 <= coord.x as int * config.biome_scale <= 100_000_000_000
            && -100_000_000_000 <= coord.y as int * config.biome_scale <= 100_000_000_000)
            by (nonlinear_arith)
            requires
                -1_000_000 <= coord.x as int <= 1_000_000,
                -1_000_000 <= coord.y as int <= 1_000_000,
                1 <= config.biome_scale <= 100_000,
        ;
    }
    let biome_value = sample_field(
        config.seed as u64,
        coord.x as i64 * config.biome_scale,
        coord.y as i64 * config.biome_scale,
    );
    let biome_type = determine_biome(biome_value);
    let n = config.chunk_size;
    let mut tiles: Vec<Vec<Tile>> = Vec::new();
    let mut ly: usize = 0;
    while ly < n
        invariant
            config.wf(),
            coord_ok(coord),
            n == config.chunk_size,
            biome_type == chunk_biome(*config, coord),
            0 <= ly <= n,
            tiles@.len() == ly,
            forall|y: int| 0 <= y < ly ==> (#[trigger] tiles@[y]@).len() == n,
            forall|y: int, x: int|
                0 <= y < ly && 0 <= x < n ==> #[trigger] tiles@[y]@[x] == tile_at(
                    *config,
                    coord,
                    x,
                    y,
                ),
        decreases n - ly,
    {
        let mut row: Vec<Tile> = Vec::new();
        let mut lx: usize = 0;
        while lx < n
            invariant
                config.wf(),
                coord_ok(coord),
                n == config.chunk_size,
                biome_type == chunk_biome(*config, coord),
                0 <= ly < n,
                0 <= lx <= n,
                row@.len() == lx,
                forall|x: int|
                    0 <= x < lx ==> #[trigger] row@[x] == tile_at(*config, coord, x, ly as int),
            decreases n - lx,
        {
            proof {
                assert(-1_024_000_000 <= coord.x as int * n as int <= 1_024_000_000
                    && -1_024_000_000 <= coord.y as int * n as int <= 1_024_000_000)
                    by (nonlinear_arith)
                    requires
                        -1_000_000 <= coord.x as int <= 1_000_000,
                        -1_000_000 <= coord.y as int <= 1_000_000,
                        0 < n <= 1024,
                ;
            }
            let wx: i64 = coord.x as i64 * n as i64 + lx as i64;
            let wy: i64 = coord.y as i64 * n as i64 + ly as i64;
            proof {
                assert(-0x8_0000_0000_0000 <= wx as int * config.height_scale
                    <= 0x8_0000_0000_0000 && -0x8_0000_0000_0000 <= wy as int
                    * config.height_scale <= 0x8_0000_0000_0000 && -0x8_0000_0000_0000
                    <= wx as int * (2 * config.height_scale) <= 0x8_0000_0000_0000
                    && -0x8_0000_0000_0000 <= wy as int * (2 * config.height_scale)
                    <= 0x8_0000_0000_0000) by (nonlinear_arith)
                    requires
                        -1_025_000_000 <= wx as int <= 1_025_000_000,
                        -1_025_000_000 <= wy as int <= 1_025_000_000,
                        1 <= config.height_scale <= 50_000,
                ;
            }
            let h = sample_field(
                config.seed as u64 + 1,
                wx * config.height_scale,
                wy * config.height_scale,
            );
            let tt = determine_tile_type(biome_type, h);
            let rv = sample_field(
                config.seed as u64 + 2,
                wx * (2 * config.height_scale),
                wy * (2 * config.height_scale),
            );
            let rs = determine_resource(tt, rv, config.resource_density);
            let tile = Tile {
                tile_type: tt,
                resource: rs,
                height: h as i32,
                position: WorldPos { x: wx as i32, y: wy as i32 },
                traversable: is_traversable(tt, rs),
            };
            row.push(tile);
            lx = lx + 1;
        }
        tiles.push(row);
        ly = ly + 1;
    }
    Chunk { coord, tiles, biome_type, last_accessed: now }
}

/// Determinism: two chunks generated from the same configuration,
/// coordinate and timestamp are identical — same coordinate, same biome,
/// same timestamp, and the same tile in every cell of the grid.
pub proof fn lemma_generate_deterministic(
    config: WorldConfig,
    coord: ChunkCoord,
    now: u64,
    a: Chunk,
    b: Chunk,
)
    requires
        generated_chunk(config, coord, now, a),
        generated_chunk(config, coord, now, b),
    ensures
        a.coord == b.coord,
        a.biome_type == b.biome_type,
        a.last_accessed == b.last_accessed,
        a.grid() == b.grid(),
{
    assert forall|y: int| 0 <= y < config.chunk_size implies a.grid()[y] =~= b.grid()[y] by {
        assert(a.grid()[y].len() == config.chunk_size);
        assert(b.grid()[y].len() == config.chunk_size);
        assert forall|x: int| 0 <= x < config.chunk_size implies a.grid()[y][x]
            == b.grid()[y][x] by {
            assert(a.grid()[y][x] == tile_at(config, coord, x, y));
            assert(b.grid()[y][x] == tile_at(config, coord, x, y));
        }
    }
    assert(a.grid() =~= b.grid());
}

/// Traversability of every generated tile: a tile of a generated chunk can
/// be crossed exactly when its terrain is neither Water nor Mountain and it
/// carries no Tree.
pub proof fn lemma_generated_traversability(
    config: WorldConfig,
    coord: ChunkCoord,
    now: u64,
    c: Chunk,
)
    requires
        generated_chunk(config, coord, now, c),
    ensures
        forall|y: int, x: int|
            0 <= y < config.chunk_size && 0 <= x < config.chunk_size ==> ((#[trigger] c.grid(
            )[y][x]).traversable <==> !(c.grid()[y][x].tile_type == TileType::Water || c.grid(
            )[y][x].tile_type == TileType::Mountain || c.grid()[y][x].resource
                == ResourceType::Tree)),
{
    assert forall|y: int, x: int|
        0 <= y < config.chunk_size && 0 <= x < config.chunk_size implies ((#[trigger] c.grid(
    )[y][x]).traversable <==> !(c.grid()[y][x].tile_type == TileType::Water || c.grid(
    )[y][x].tile_type == TileType::Mountain || c.grid()[y][x].resource
        == ResourceType::Tree)) by {
        assert(c.grid()[y][x] == tile_at(config, coord, x, y));
    }
}

} // verus!
