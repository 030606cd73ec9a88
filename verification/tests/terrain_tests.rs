use chunkstream::terrain::{
    determine_biome, determine_resource, determine_tile_type, is_traversable, BiomeType,
    ResourceType, TileType, WorldConfig,
};

#[test]
fn default_config_values() {
    let c = WorldConfig::default();
    assert_eq!(c.seed, 12345);
    assert_eq!(c.chunk_size, 32);
    assert_eq!(c.max_active_chunks, 64);
    assert_eq!(c.biome_scale, 30);
    assert_eq!(c.height_scale, 50);
    assert_eq!(c.resource_density, 20);
}

#[test]
fn biome_thresholds_map_to_documented_side() {
    // Thresholds in thousandths: -600, -300, 100, 400, 700.
    assert_eq!(determine_biome(-1000), BiomeType::Ocean);
    assert_eq!(determine_biome(-601), BiomeType::Ocean);
    assert_eq!(determine_biome(-600), BiomeType::Desert);
    assert_eq!(determine_biome(-301), BiomeType::Desert);
    assert_eq!(determine_biome(-300), BiomeType::Plains);
    assert_eq!(determine_biome(0), BiomeType::Plains);
    assert_eq!(determine_biome(99), BiomeType::Plains);
    assert_eq!(determine_biome(100), BiomeType::Forest);
    assert_eq!(determine_biome(399), BiomeType::Forest);
    assert_eq!(determine_biome(400), BiomeType::Mountain);
    assert_eq!(determine_biome(699), BiomeType::Mountain);
    assert_eq!(determine_biome(700), BiomeType::Tundra);
    assert_eq!(determine_biome(1000), BiomeType::Tundra);
}

#[test]
fn tile_type_bands_per_biome() {
    assert_eq!(determine_tile_type(BiomeType::Ocean, 201), TileType::Sand);
    assert_eq!(determine_tile_type(BiomeType::Ocean, 200), TileType::Water);
    assert_eq!(determine_tile_type(BiomeType::Desert, 601), TileType::Stone);
    assert_eq!(determine_tile_type(BiomeType::Desert, 600), TileType::Sand);
    assert_eq!(determine_tile_type(BiomeType::Plains, 701), TileType::Stone);
    assert_eq!(determine_tile_type(BiomeType::Plains, 700), TileType::Grass);
    assert_eq!(determine_tile_type(BiomeType::Forest, 801), TileType::Mountain);
    assert_eq!(determine_tile_type(BiomeType::Forest, 800), TileType::Forest);
    assert_eq!(determine_tile_type(BiomeType::Mountain, 601), TileType::Mountain);
    assert_eq!(determine_tile_type(BiomeType::Mountain, 600), TileType::Stone);
    assert_eq!(determine_tile_type(BiomeType::Mountain, 301), TileType::Stone);
    assert_eq!(determine_tile_type(BiomeType::Mountain, 300), TileType::Grass);
    assert_eq!(determine_tile_type(BiomeType::Tundra, 701), TileType::Snow);
    assert_eq!(determine_tile_type(BiomeType::Tundra, 700), TileType::Stone);
    assert_eq!(determine_tile_type(BiomeType::Tundra, 401), TileType::Stone);
    assert_eq!(determine_tile_type(BiomeType::Tundra, 400), TileType::Grass);
}

#[test]
fn resource_below_density_threshold_is_empty() {
    // With density 20, magnitudes below 980 yield nothing.
    assert_eq!(
        determine_resource(TileType::Forest, 979, 20),
        ResourceType::NoResource
    );
    assert_eq!(
        determine_resource(TileType::Forest, -979, 20),
        ResourceType::NoResource
    );
    assert_eq!(determine_resource(TileType::Forest, 980, 20), ResourceType::Tree);
}

#[test]
fn resource_rules_per_tile_type() {
    // Grass yields a tree only above 0.8 — trivially true past the density
    // gate — and nothing on the negative side.
    assert_eq!(determine_resource(TileType::Grass, 990, 20), ResourceType::Tree);
    assert_eq!(
        determine_resource(TileType::Grass, -990, 20),
        ResourceType::NoResource
    );
    // Stone and Mountain band ores by magnitude at 900 / 700 / 500 / 300.
    assert_eq!(determine_resource(TileType::Stone, 990, 200), ResourceType::Gold);
    assert_eq!(determine_resource(TileType::Stone, -990, 200), ResourceType::Gold);
    assert_eq!(determine_resource(TileType::Stone, 850, 200), ResourceType::Iron);
    assert_eq!(
        determine_resource(TileType::Mountain, 850, 200),
        ResourceType::Iron
    );
    // With full density every magnitude clears the threshold.
    assert_eq!(determine_resource(TileType::Stone, 600, 1000), ResourceType::Copper);
    assert_eq!(determine_resource(TileType::Stone, 400, 1000), ResourceType::Coal);
    assert_eq!(determine_resource(TileType::Stone, 100, 1000), ResourceType::Stone);
    // Other tile types never carry a resource.
    assert_eq!(
        determine_resource(TileType::Water, 1000, 20),
        ResourceType::NoResource
    );
    assert_eq!(
        determine_resource(TileType::Sand, 1000, 20),
        ResourceType::NoResource
    );
}

#[test]
fn traversability_rule() {
    // False iff Water or Mountain terrain or a Tree resource.
    let types = [
        TileType::Grass,
        TileType::Water,
        TileType::Sand,
        TileType::Stone,
        TileType::Forest,
        TileType::Mountain,
        TileType::Snow,
    ];
    let resources = [
        ResourceType::NoResource,
        ResourceType::Iron,
        ResourceType::Copper,
        ResourceType::Coal,
        ResourceType::Gold,
        ResourceType::Tree,
        ResourceType::Stone,
    ];
    for &t in types.iter() {
        for &r in resources.iter() {
            let expected = !(t == TileType::Water
                || t == TileType::Mountain
                || r == ResourceType::Tree);
            assert_eq!(is_traversable(t, r), expected);
        }
    }
}

#[test]
fn empty_tile_is_plain_grass_at_origin() {
    let t = chunkstream::terrain::create_empty_tile();
    assert_eq!(t.tile_type, TileType::Grass);
    assert_eq!(t.resource, ResourceType::NoResource);
    assert_eq!(t.height, 0);
    assert_eq!(t.position, chunkstream::terrain::WorldPos { x: 0, y: 0 });
    assert!(t.traversable);
}
