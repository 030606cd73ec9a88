//! Terrain vocabulary and the classification rules that turn noise samples
//! into biomes, tile types, resources and traversability.
//!
//! All scalar samples are fixed-point thousandths: the value `v` stands for
//! `v / 1000`, so the noise range `[-1.0, 1.0]` is `[-1000, 1000]`.

use crate::coords::abs_int;
use vstd::prelude::*;

verus! {

/// Terrain type of a single tile.
#[derive(Clone, Copy, Debug, PartialEq, Eq, Structural, Hash)]
pub enum TileType {
    Grass,
    Water,
    Sand,
    Stone,
    Forest,
    Mountain,
    Snow,
}

/// Resource, if any, carried by a tile.
#[derive(Clone, Copy, Debug, PartialEq, Eq, Structural, Hash)]
pub enum ResourceType {
    NoResource,
    Iron,
    Copper,
    Coal,
    Gold,
    Tree,
    Stone,
}

/// Coarse per-chunk classification that governs tile-type thresholds.
#[derive(Clone, Copy, Debug, PartialEq, Eq, Structural, Hash)]
pub enum BiomeType {
    Plains,
    Ocean,
    Desert,
    Forest,
    Mountain,
    Tundra,
}

/// Absolute world position of a tile, in world cells.
#[derive(Clone, Copy, Debug, PartialEq, Eq, Structural, Hash)]
pub struct WorldPos {
    pub x: i32,
    pub y: i32,
}

/// One world cell: terrain type, optional resource, sampled height
/// (fixed-point thousandths), absolute world position, and whether it can be
/// walked across.
#[derive(Clone, Copy, Debug, PartialEq, Eq, Structural, Hash)]
pub struct Tile {
    pub tile_type: TileType,
    pub resource: ResourceType,
    pub height: i32,
    pub position: WorldPos,
    pub traversable: bool,
}

/// Immutable generation parameters, fixed after startup. The three scale
/// factors and the resource density are fixed-point thousandths.
#[derive(Clone, Copy, Debug, PartialEq, Eq, Structural)]
pub struct WorldConfig {
    pub seed: u32,
    pub chunk_size: usize,
    pub max_active_chunks: usize,
    pub biome_scale: i64,
    pub height_scale: i64,
    pub resource_density: i64,
}

impl WorldConfig {
    /// Machine bounds under which generation can never overflow: a positive,
    /// bounded chunk edge, positive bounded sampling scales, and a density
    /// within `[0, 1]`.
    pub open spec fn wf(self) -> bool {
        &&& 1 <= self.chunk_size <= 1024
        &&& 1 <= self.biome_scale <= 100_000
        &&& 1 <= self.height_scale <= 50_000
        &&& 0 <= self.resource_density <= 1000
    }
}

impl Default for WorldConfig {
    /// The stock configuration: a 32-tile chunk edge, at most 64 active
    /// chunks, biome scale 0.03, height scale 0.05, resource density 0.02.
    fn default() -> (c: WorldConfig)
        ensures
            c.wf(),
            c.seed == 12345,
            c.chunk_size == 32,
            c.max_active_chunks == 64,
            c.biome_scale == 30,
            c.height_scale == 50,
            c.resource_density == 20,
    {
        WorldConfig {
            seed: 12345,
            chunk_size: 32,
            max_active_chunks: 64,
            biome_scale: 30,
            height_scale: 50,
            resource_density: 20,
        }
    }
}

/// Biome selected by the chunk's biome-noise sample: below -0.6 Ocean, below
/// -0.3 Desert, below 0.1 Plains, below 0.4 Forest, below 0.7 Mountain, and
/// Tundra above.
pub open spec fn biome_for(value: int) -> BiomeType {
    if value < -600 {
        BiomeType::Ocean
    } else if value < -300 {
        BiomeType::Desert
    } else if value < 100 {
        BiomeType::Plains
    } else if value < 400 {
        BiomeType::Forest
    } else if value < 700 {
        BiomeType::Mountain
    } else {
        BiomeType::Tundra
    }
}

/// Maps a biome-noise sample to the chunk's biome via the fixed thresholds.
pub fn determine_biome(value: i64) -> (b: BiomeType)
    ensures
        b == biome_for(value as int),
{
    if value < -600 {
        BiomeType::Ocean
    } else if value < -300 {
        BiomeType::Desert
    } else if value < 100 {
        BiomeType::Plains
    } else if value < 400 {
        BiomeType::Forest
    } else if value < 700 {
        BiomeType::Mountain
    } else {
        BiomeType::Tundra
    }
}

/// Tile type given by the biome's height-threshold bands.
pub open spec fn tile_type_for(biome: BiomeType, height: int) -> TileType {
    match biome {
        BiomeType::Ocean => if height > 200 {
            TileType::Sand
        } else {
            TileType::Water
        },
        BiomeType::Desert => if height > 600 {
            TileType::Stone
        } else {
            TileType::Sand
        },
        BiomeType::Plains => if height > 700 {
            TileType::Stone
        } else {
            TileType::Grass
        },
        BiomeType::Forest => if height > 800 {
            TileType::Mountain
        } else {
            TileType::Forest
        },
        BiomeType::Mountain => if height > 600 {
            TileType::Mountain
        } else if height > 300 {
            TileType::Stone
        } else {
            TileType::Grass
        },
        BiomeType::Tundra => if height > 700 {
            TileType::Snow
        } else if height > 400 {
            TileType::Stone
        } else {
            TileType::Grass
        },
    }
}

/// Derives a tile's terrain type from its chunk's biome and its height
/// sample, following the per-biome threshold table.
pub fn determine_tile_type(biome: BiomeType, height: i64) -> (t: TileType)
    ensures
        t == tile_type_for(biome, height as int),
{
    match biome {
        BiomeType::Ocean => if height > 200 {
            TileType::Sand
        } else {
            TileType::Water
        },
        BiomeType::Desert => if height > 600 {
            TileType::Stone
        } else {
            TileType::Sand
        },
        BiomeType::Plains => if height > 700 {
            TileType::Stone
        } else {
            TileType::Grass
        },
        BiomeType::Forest => if height > 800 {
            TileType::Mountain
        } else {
            TileType::Forest
        },
        BiomeType::Mountain => if height > 600 {
            TileType::Mountain
        } else if height > 300 {
            TileType::Stone
        } else {
            TileType::Grass
        },
        BiomeType::Tundra => if height > 700 {
            TileType::Snow
        } else if height > 400 {
            TileType::Stone
        } else {
            TileType::Grass
        },
    }
}

/// Resource assigned by the resource-noise sample. A sample whose magnitude
/// is below `1 - density` yields nothing; otherwise Grass yields a Tree only
/// above 0.8, Forest always yields a Tree, and Stone or Mountain tiles yield
/// ore banded by the sample's magnitude at 0.9 / 0.7 / 0.5 / 0.3.
pub open spec fn resource_for(tile_type: TileType, value: int, density: int) -> ResourceType {
    if abs_int(value) < 1000 - density {
        ResourceType::NoResource
    } else {
        match tile_type {
            TileType::Grass => if value > 800 {
                ResourceType::Tree
            } else {
                ResourceType::NoResource
            },
            TileType::Forest => ResourceType::Tree,
            TileType::Stone | TileType::Mountain => {
                let m = abs_int(value);
                if m > 900 {
                    ResourceType::Gold
                } else if m > 700 {
                    ResourceType::Iron
                } else if m > 500 {
                    ResourceType::Copper
                } else if m > 300 {
                    ResourceType::Coal
                } else {
                    ResourceType::Stone
                }
            },
            _ => ResourceType::NoResource,
        }
    }
}

/// Assigns a tile's resource from the resource-noise sample and the
/// configured density.
pub fn determine_resource(tile_type: TileType, value: i64, density: i64) -> (r: ResourceType)
    requires
        -1000 <= value <= 1000,
        0 <= density <= 1000,
    ensures
        r == resource_for(tile_type, value as int, density as int),
{
    let magnitude: i64 = if value < 0 {
        -value
    } else {
        value
    };
    if magnitude < 1000 - density {
        return ResourceType::NoResource;
    }
    match tile_type {
        TileType::Grass => if value > 800 {
            ResourceType::Tree
        } else {
            ResourceType::NoResource
        },
        TileType::Forest => ResourceType::Tree,
        TileType::Stone | TileType::Mountain => {
            if magnitude > 900 {
                ResourceType::Gold
            } else if magnitude > 700 {
                ResourceType::Iron
            } else if magnitude > 500 {
                ResourceType::Copper
            } else if magnitude > 300 {
                ResourceType::Coal
            } else {
                ResourceType::Stone
            }
        },
        _ => ResourceType::NoResource,
    }
}

/// A tile can be crossed unless it is Water or Mountain terrain or carries a
/// Tree resource.
pub open spec fn traversable_for(tile_type: TileType, resource: ResourceType) -> bool {
    !(tile_type == TileType::Water || tile_type == TileType::Mountain || resource
        == ResourceType::Tree)
}

/// Decides traversability: false exactly for Water or Mountain terrain or a
/// Tree resource.
pub fn is_traversable(tile_type: TileType, resource: ResourceType) -> (r: bool)
    ensures
        r == traversable_for(tile_type, resource),
{
    match (tile_type, resource) {
        (TileType::Water, _) => false,
        (TileType::Mountain, _) => false,
        (_, ResourceType::Tree) => false,
        _ => true,
    }
}

/// The placeholder tile that grid rows are filled with before generation
/// writes every cell: plain traversable grass at the origin.
pub fn create_empty_tile() -> (t: Tile)
    ensures
        t == (Tile {
            tile_type: TileType::Grass,
            resource: ResourceType::NoResource,
            height: 0,
            position: WorldPos { x: 0, y: 0 },
            traversable: true,
        }),
{
    Tile {
        tile_type: TileType::Grass,
        resource: ResourceType::NoResource,
        height: 0,
        position: WorldPos { x: 0, y: 0 },
        traversable: true,
    }
}

} // verus!
