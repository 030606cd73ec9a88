//! The chunk protocol: the two message kinds exchanged between client and
//! server over a reliable ordered channel, and their wire encoding.

use crate::coords::ChunkCoord;
use crate::generation::Chunk;
use crate::terrain::{BiomeType, ResourceType, Tile, TileType, WorldPos};
use vstd::bytes::{
    spec_u32_from_le_bytes,
    spec_u32_to_le_bytes,
    spec_u64_from_le_bytes,
    spec_u64_to_le_bytes,
    u32_from_le_bytes,
    u32_to_le_bytes,
    u64_from_le_bytes,
    u64_to_le_bytes,
};
use vstd::prelude::*;
use vstd::slice::slice_subrange;

verus! {

/// Client-to-server request for one chunk. Idempotent: it may be sent
/// repeatedly for the same coordinate.
#[derive(Clone, Copy, Debug, PartialEq, Eq, Structural)]
pub struct ChunkRequest {
    pub coord: ChunkCoord,
}

/// Server-to-client delivery of a full chunk snapshot. Idempotent to
/// process: the client discards duplicates.
#[derive(Debug)]
pub struct ChunkData {
    pub chunk: Chunk,
}

impl Clone for ChunkData {
    /// Copies the message; the carried chunk keeps its coordinate, biome,
    /// timestamp and grid.
    fn clone(&self) -> (d: ChunkData)
        ensures
            d.chunk.coord == self.chunk.coord,
            d.chunk.biome_type == self.chunk.biome_type,
            d.chunk.last_accessed == self.chunk.last_accessed,
            d.chunk.grid() == self.chunk.grid(),
    {
        ChunkData { chunk: self.chunk.clone() }
    }
}

/// The unsigned word that stands for a signed coordinate on the wire:
/// shifted by `2^31`, so every `i32` maps to exactly one `u32`.
pub open spec fn i32_word(x: i32) -> u32 {
    (x + 0x8000_0000) as u32
}

/// Little-endian wire form of a signed 32-bit value.
pub open spec fn spec_encode_i32(x: i32) -> Seq<u8> {
    spec_u32_to_le_bytes(i32_word(x))
}

/// Wire tag of a tile type.
pub open spec fn tile_type_tag(t: TileType) -> u8 {
    match t {
        TileType::Grass => 0,
        TileType::Water => 1,
        TileType::Sand => 2,
        TileType::Stone => 3,
        TileType::Forest => 4,
        TileType::Mountain => 5,
        TileType::Snow => 6,
    }
}

/// Tile type named by a wire tag; meaningful for tags up to 6.
pub open spec fn tile_type_of_tag(b: u8) -> TileType {
    if b == 0 {
        TileType::Grass
    } else if b == 1 {
        TileType::Water
    } else if b == 2 {
        TileType::Sand
    } else if b == 3 {
        TileType::Stone
    } else if b == 4 {
        TileType::Forest
    } else if b == 5 {
        TileType::Mountain
    } else {
        TileType::Snow
    }
}

/// Wire tag of a resource.
pub open spec fn resource_tag(r: ResourceType) -> u8 {
    match r {
        ResourceType::NoResource => 0,
        ResourceType::Iron => 1,
        ResourceType::Copper => 2,
        ResourceType::Coal => 3,
        ResourceType::Gold => 4,
        ResourceType::Tree => 5,
        ResourceType::Stone => 6,
    }
}

/// Resource named by a wire tag; meaningful for tags up to 6.
pub open spec fn resource_of_tag(b: u8) -> ResourceType {
    if b == 0 {
        ResourceType::NoResource
    } else if b == 1 {
        ResourceType::Iron
    } else if b == 2 {
        ResourceType::Copper
    } else if b == 3 {
        ResourceType::Coal
    } else if b == 4 {
        ResourceType::Gold
    } else if b == 5 {
        ResourceType::Tree
    } else {
        ResourceType::Stone
    }
}

/// Wire tag of a biome.
pub open spec fn biome_tag(b: BiomeType) -> u8 {
    match b {
        BiomeType::Plains => 0,
        BiomeType::Ocean => 1,
        BiomeType::Desert => 2,
        BiomeType::Forest => 3,
        BiomeType::Mountain => 4,
        BiomeType::Tundra => 5,
    }
}

/// Biome named by a wire tag; meaningful for tags up to 5.
pub open spec fn biome_of_tag(b: u8) -> BiomeType {
    if b == 0 {
        BiomeType::Plains
    } else if b == 1 {
        BiomeType::Ocean
    } else if b == 2 {
        BiomeType::Desert
    } else if b == 3 {
        BiomeType::Forest
    } else if b == 4 {
        BiomeType::Mountain
    } else {
        BiomeType::Tundra
    }
}

/// Wire byte of a flag: 1 for true, 0 for false.
pub open spec fn bool_byte(b: bool) -> u8 {
    if b {
        1
    } else {
        0
    }
}

/// Wire form of one tile: type tag, resource tag, height, world position,
/// traversability flag — 15 bytes.
pub open spec fn spec_encode_tile(t: Tile) -> Seq<u8> {
    seq![tile_type_tag(t.tile_type), resource_tag(t.resource)] + spec_encode_i32(t.height)
        + spec_encode_i32(t.position.x) + spec_encode_i32(t.position.y) + seq![
        bool_byte(t.traversable),
    ]
}

/// Offset of the wire form of the tile at `(x, y)` in a chunk with edge
/// `n`: the 21-byte header, then 15 bytes per tile in row-major order.
pub open spec fn tile_offset(n: int, y: int, x: int) -> int {
    21 + (y * n + x) * 15
}

/// Whether a chunk's grid is square with a bounded edge: the shape the
/// wire format carries.
pub open spec fn is_square(c: Chunk) -> bool {
    &&& c.grid().len() <= 1024
    &&& forall|y: int| 0 <= y < c.grid().len() ==> (#[trigger] c.grid()[y]).len() == c.grid().len()
}

/// Whether `d` is the wire form of chunk `c`: the header carries the
/// coordinate, biome tag, timestamp and edge length, and each grid cell's
/// 15 bytes follow in row-major order.
pub open spec fn encoding_of(c: Chunk, d: Seq<u8>) -> bool {
    let n = c.grid().len() as int;
    &&& d.len() == 21 + n * n * 15
    &&& d.subrange(0, 4) == spec_encode_i32(c.coord.x)
    &&& d.subrange(4, 8) == spec_encode_i32(c.coord.y)
    &&& d[8] == biome_tag(c.biome_type)
    &&& d.subrange(9, 17) == spec_u64_to_le_bytes(c.last_accessed)
    &&& d.subrange(17, 21) == spec_u32_to_le_bytes(n as u32)
    &&& forall|y: int, x: int|
        0 <= y < n && 0 <= x < n ==> d.subrange(
            tile_offset(n, y, x),
            tile_offset(n, y, x) + 15,
        ) == spec_encode_tile(#[trigger] c.grid()[y][x])
}

/// Whether `d` is a well-formed wire chunk: its declared edge length fits,
/// the total length matches, and every tag byte names a real variant.
pub open spec fn valid_encoding(d: Seq<u8>) -> bool {
    &&& d.len() >= 21
    &&& {
        let n = spec_u32_from_le_bytes(d.subrange(17, 21)) as int;
        &&& n <= 1024
        &&& d.len() == 21 + n * n * 15
        &&& d[8] <= 5
        &&& forall|y: int, x: int|
            0 <= y < n && 0 <= x < n ==> (d[#[trigger] tile_offset(n, y, x)] <= 6 && d[tile_offset(
                n,
                y,
                x,
            ) + 1] <= 6 && d[tile_offset(n, y, x) + 14] <= 1)
    }
}

/// A sequence extended on the right keeps all its subranges.
proof fn lemma_append_keeps_subranges(a: Seq<u8>, b: Seq<u8>)
    ensures
        forall|i: int, j: int|
            0 <= i <= j <= a.len() ==> (a + b).subrange(i, j) == #[trigger] a.subrange(i, j),
{
    assert forall|i: int, j: int|
        0 <= i <= j <= a.len() implies (a + b).subrange(i, j) == #[trigger] a.subrange(i, j) by {
        assert((a + b).subrange(i, j) =~= a.subrange(i, j));
    }
}

/// Encodes a signed value as its shifted little-endian word, appended to
/// the output.
fn encode_i32_into(out: &mut Vec<u8>, x: i32)
    ensures
        final(out)@ == old(out)@ + spec_encode_i32(x),
{
    let w: u32 = ((x as i64) + 0x8000_0000) as u32;
    proof {
        assert(w == i32_word(x));
    }
    let mut bs = u32_to_le_bytes(w);
    out.append(&mut bs);
}

/// Reads the signed value whose shifted little-endian word sits at `off`.
fn decode_i32_at(data: &[u8], off: usize) -> (x: i32)
    requires
        off + 4 <= data@.len(),
        data@.len() <= usize::MAX,
    ensures
        spec_encode_i32(x) == data@.subrange(off as int, off as int + 4),
{
    let w = u32_from_le_bytes(slice_subrange(data, off, off + 4));
    let x: i32 = ((w as i64) - 0x8000_0000) as i32;
    proof {
        vstd::bytes::lemma_auto_spec_u32_to_from_le_bytes();
        assert(i32_word(x) == w);
        assert(spec_u32_to_le_bytes(w) == data@.subrange(off as int, off as int + 4));
    }
    x
}

/// Computes a tile type's wire tag.
fn tile_type_tag_exec(t: TileType) -> (b: u8)
    ensures
        b == tile_type_tag(t),
        b <= 6,
{
    match t {
        TileType::Grass => 0,
        TileType::Water => 1,
        TileType::Sand => 2,
        TileType::Stone => 3,
        TileType::Forest => 4,
        TileType::Mountain => 5,
        TileType::Snow => 6,
    }
}

/// Computes a resource's wire tag.
fn resource_tag_exec(r: ResourceType) -> (b: u8)
    ensures
        b == resource_tag(r),
        b <= 6,
{
    match r {
        ResourceType::NoResource => 0,
        ResourceType::Iron => 1,
        ResourceType::Copper => 2,
        ResourceType::Coal => 3,
        ResourceType::Gold => 4,
        ResourceType::Tree => 5,
        ResourceType::Stone => 6,
    }
}

/// Computes a biome's wire tag.
fn biome_tag_exec(b: BiomeType) -> (t: u8)
    ensures
        t == biome_tag(b),
        t <= 5,
{
    match b {
        BiomeType::Plains => 0,
        BiomeType::Ocean => 1,
        BiomeType::Desert => 2,
        BiomeType::Forest => 3,
        BiomeType::Mountain => 4,
        BiomeType::Tundra => 5,
    }
}

/// Names the tile type of a wire tag.
fn tile_type_of_tag_exec(b: u8) -> (t: TileType)
    ensures
        t == tile_type_of_tag(b),
{
    if b == 0 {
        TileType::Grass
    } else if b == 1 {
        TileType::Water
    } else if b == 2 {
        TileType::Sand
    } else if b == 3 {
        TileType::Stone
    } else if b == 4 {
        TileType::Forest
    } else if b == 5 {
        TileType::Mountain
    } else {
        TileType::Snow
    }
}

/// Names the resource of a wire tag.
fn resource_of_tag_exec(b: u8) -> (r: ResourceType)
    ensures
        r == resource_of_tag(b),
{
    if b == 0 {
        ResourceType::NoResource
    } else if b == 1 {
        ResourceType::Iron
    } else if b == 2 {
        ResourceType::Copper
    } else if b == 3 {
        ResourceType::Coal
    } else if b == 4 {
        ResourceType::Gold
    } else if b == 5 {
        ResourceType::Tree
    } else {
        ResourceType::Stone
    }
}

/// Names the biome of a wire tag.
fn biome_of_tag_exec(b: u8) -> (t: BiomeType)
    ensures
        t == biome_of_tag(b),
{
    if b == 0 {
        BiomeType::Plains
    } else if b == 1 {
        BiomeType::Ocean
    } else if b == 2 {
        BiomeType::Desert
    } else if b == 3 {
        BiomeType::Forest
    } else if b == 4 {
        BiomeType::Mountain
    } else {
        BiomeType::Tundra
    }
}

/// Appends one tile's 15 wire bytes to the output.
fn encode_tile_into(out: &mut Vec<u8>, t: Tile)
    ensures
        final(out)@ == old(out)@ + spec_encode_tile(t),
{
    let ghost base = out@;
    out.push(tile_type_tag_exec(t.tile_type));
    out.push(resource_tag_exec(t.resource));
    encode_i32_into(out, t.height);
    encode_i32_into(out, t.position.x);
    encode_i32_into(out, t.position.y);
    out.push(if t.traversable {
        1
    } else {
        0
    });
    proof {
        assert(out@ =~= base + spec_encode_tile(t));
    }
}

/// Encodes a chunk for transmission: a 21-byte header (coordinate, biome
/// tag, last-accessed time, edge length) followed by 15 bytes per tile in
/// row-major order.
pub fn serialize_chunk(chunk: &Chunk) -> (r: Vec<u8>)
    requires
        is_square(*chunk),
    ensures
        encoding_of(*chunk, r@),
        valid_encoding(r@),
{
    let n = chunk.tiles.len();
    let ghost ni = n as int;
    let mut out: Vec<u8> = Vec::new();
    encode_i32_into(&mut out, chunk.coord.x);
    encode_i32_into(&mut out, chunk.coord.y);
    out.push(biome_tag_exec(chunk.biome_type));
    let mut ts = u64_to_le_bytes(chunk.last_accessed);
    out.append(&mut ts);
    let mut ns = u32_to_le_bytes(n as u32);
    out.append(&mut ns);
    proof {
        vstd::bytes::lemma_auto_spec_u64_to_from_le_bytes();
        vstd::bytes::lemma_auto_spec_u32_to_from_le_bytes();
        assert(out@.len() == 21);
        assert(out@.subrange(0, 4) =~= spec_encode_i32(chunk.coord.x));
        assert(out@.subrange(4, 8) =~= spec_encode_i32(chunk.coord.y));
        assert(out@.subrange(9, 17) =~= spec_u64_to_le_bytes(chunk.last_accessed));
        assert(out@.subrange(17, 21) =~= spec_u32_to_le_bytes(n as u32));
    }
    let mut y: usize = 0;
    while y < n
        invariant
            is_square(*chunk),
            n == chunk.tiles@.len(),
            ni == n as int,
            0 <= y <= n,
            out@.len() == 21 + y * ni * 15,
            out@.subrange(0, 4) == spec_encode_i32(chunk.coord.x),
            out@.subrange(4, 8) == spec_encode_i32(chunk.coord.y),
            out@[8] == biome_tag(chunk.biome_type),
            out@.subrange(9, 17) == spec_u64_to_le_bytes(chunk.last_accessed),
            out@.subrange(17, 21) == spec_u32_to_le_bytes(n as u32),
            forall|yy: int, xx: int|
                0 <= yy < ni && 0 <= xx < ni && yy * ni + xx < y * ni ==> out@.subrange(
                    #[trigger] tile_offset(ni, yy, xx),
                    tile_offset(ni, yy, xx) + 15,
                ) == spec_encode_tile(chunk.grid()[yy][xx]),
        decreases n - y,
    {
        proof {
            assert(y * ni + ni <= ni * ni && ni * ni <= 1_048_576 && (y + 1) * ni == y * ni + ni
                && 0 <= y * ni) by (nonlinear_arith)
                requires
                    0 <= y < ni <= 1024,
            ;
        }
        let mut x: usize = 0;
        while x < n
            invariant
                is_square(*chunk),
                n == chunk.tiles@.len(),
                ni == n as int,
                0 <= y < n,
                0 <= x <= n,
                y * ni + ni <= ni * ni,
                ni * ni <= 1_048_576,
                out@.len() == 21 + (y * ni + x) * 15,
                out@.subrange(0, 4) == spec_encode_i32(chunk.coord.x),
                out@.subrange(4, 8) == spec_encode_i32(chunk.coord.y),
                out@[8] == biome_tag(chunk.biome_type),
                out@.subrange(9, 17) == spec_u64_to_le_bytes(chunk.last_accessed),
                out@.subrange(17, 21) == spec_u32_to_le_bytes(n as u32),
                forall|yy: int, xx: int|
                    0 <= yy < ni && 0 <= xx < ni && yy * ni + xx < y * ni + x ==> out@.subrange(
                        #[trigger] tile_offset(ni, yy, xx),
                        tile_offset(ni, yy, xx) + 15,
                    ) == spec_encode_tile(chunk.grid()[yy][xx]),
            decreases n - x,
        {
            let ghost before = out@;
            proof {
                assert(chunk.grid()[y as int] == chunk.tiles@[y as int]@);
                assert(chunk.grid()[y as int].len() == ni);
            }
            let tile = chunk.tiles[y][x];
            encode_tile_into(&mut out, tile);
            proof {
                lemma_append_keeps_subranges(before, spec_encode_tile(tile));
                assert(spec_encode_tile(tile).len() == 15) by {
                    vstd::bytes::lemma_auto_spec_u32_to_from_le_bytes();
                }
                assert(out@.subrange(tile_offset(ni, y as int, x as int), tile_offset(
                    ni,
                    y as int,
                    x as int,
                ) + 15) =~= spec_encode_tile(chunk.grid()[y as int][x as int]));
                assert forall|yy: int, xx: int|
                    0 <= yy < ni && 0 <= xx < ni && yy * ni + xx < y * ni + x + 1 implies
                    out@.subrange(
                    #[trigger] tile_offset(ni, yy, xx),
                    tile_offset(ni, yy, xx) + 15,
                ) == spec_encode_tile(chunk.grid()[yy][xx]) by {
                    if yy * ni + xx < y * ni + x {
                        assert(tile_offset(ni, yy, xx) + 15 <= before.len()) by (nonlinear_arith)
                            requires
                                yy * ni + xx < y * ni + x,
                                before.len() == 21 + (y * ni + x) * 15,
                                tile_offset(ni, yy, xx) == 21 + (yy * ni + xx) * 15,
                                0 <= yy * ni + xx,
                        ;
                        assert(before.subrange(tile_offset(ni, yy, xx), tile_offset(ni, yy, xx)
                            + 15) == spec_encode_tile(chunk.grid()[yy][xx]));
                    } else {
                        assert(yy == y as int && xx == x as int) by (nonlinear_arith)
                            requires
                                0 <= yy < ni,
                                0 <= xx < ni,
                                0 <= y < ni,
                                0 <= x < ni,
                                y * ni + x <= yy * ni + xx < y * ni + x + 1,
                        ;
                    }
                }
            }
            x = x + 1;
        }
        y = y + 1;
    }
    proof {
        assert(out@.len() == 21 + ni * ni * 15);
        assert forall|yy: int, xx: int| 0 <= yy < ni && 0 <= xx < ni implies out@.subrange(
            #[trigger] tile_offset(ni, yy, xx),
            tile_offset(ni, yy, xx) + 15,
        ) == spec_encode_tile(chunk.grid()[yy][xx]) by {
            assert(yy * ni + xx < ni * ni) by (nonlinear_arith)
                requires
                    0 <= yy < ni,
                    0 <= xx < ni,
            ;
        }
        assert(encoding_of(*chunk, out@));
        lemma_encoding_of_valid(*chunk, out@);
    }
    out
}

/// The parts of one tile's wire form, by position.
proof fn lemma_encode_tile_bytes(t: Tile)
    ensures
        spec_encode_tile(t).len() == 15,
        spec_encode_tile(t)[0] == tile_type_tag(t.tile_type),
        spec_encode_tile(t)[1] == resource_tag(t.resource),
        spec_encode_tile(t).subrange(2, 6) == spec_encode_i32(t.height),
        spec_encode_tile(t).subrange(6, 10) == spec_encode_i32(t.position.x),
        spec_encode_tile(t).subrange(10, 14) == spec_encode_i32(t.position.y),
        spec_encode_tile(t)[14] == bool_byte(t.traversable),
{
    vstd::bytes::lemma_auto_spec_u32_to_from_le_bytes();
    assert(spec_encode_i32(t.height).len() == 4);
    assert(spec_encode_i32(t.position.x).len() == 4);
    assert(spec_encode_i32(t.position.y).len() == 4);
    assert(spec_encode_tile(t).subrange(2, 6) =~= spec_encode_i32(t.height));
    assert(spec_encode_tile(t).subrange(6, 10) =~= spec_encode_i32(t.position.x));
    assert(spec_encode_tile(t).subrange(10, 14) =~= spec_encode_i32(t.position.y));
}

/// A chunk's wire form is a well-formed wire chunk.
proof fn lemma_encoding_of_valid(c: Chunk, d: Seq<u8>)
    requires
        is_square(c),
        encoding_of(c, d),
    ensures
        valid_encoding(d),
{
    let n = c.grid().len() as int;
    vstd::bytes::lemma_auto_spec_u32_to_from_le_bytes();
    assert(0 <= n * n * 15) by (nonlinear_arith)
        requires
            0 <= n,
    ;
    assert(d.subrange(17, 21) == spec_u32_to_le_bytes(n as u32));
    assert(spec_u32_from_le_bytes(spec_u32_to_le_bytes(n as u32)) == n as u32);
    assert(spec_u32_from_le_bytes(d.subrange(17, 21)) == n as u32);
    assert forall|y: int, x: int|
        0 <= y < n && 0 <= x < n implies (d[#[trigger] tile_offset(n, y, x)] <= 6 && d[tile_offset(
        n,
        y,
        x,
    ) + 1] <= 6 && d[tile_offset(n, y, x) + 14] <= 1) by {
        let off = tile_offset(n, y, x);
        let e = spec_encode_tile(c.grid()[y][x]);
        lemma_encode_tile_bytes(c.grid()[y][x]);
        assert(0 <= off && off + 15 <= d.len()) by (nonlinear_arith)
            requires
                off == 21 + (y * n + x) * 15,
                d.len() == 21 + n * n * 15,
                0 <= y < n,
                0 <= x < n,
        ;
        assert(d.subrange(off, off + 15) == e);
        assert(d[off] == d.subrange(off, off + 15)[0]);
        assert(d[off + 1] == d.subrange(off, off + 15)[1]);
        assert(d[off + 14] == d.subrange(off, off + 15)[14]);
    }
}

/// Decodes a wire chunk. The result is the chunk exactly when the bytes
/// are a well-formed wire chunk — a malformed payload yields nothing, to
/// be dropped like an unanswered request — and a decoded chunk re-encodes
/// to the very same bytes.
pub fn deserialize_chunk(data: &[u8]) -> (r: Option<Chunk>)
    ensures
        match r {
            Some(c) => valid_encoding(data@) && encoding_of(c, data@) && is_square(c),
            None => !valid_encoding(data@),
        },
{
    let len = data.len();
    if len < 21 {
        return None;
    }
    let cx = decode_i32_at(data, 0);
    let cy = decode_i32_at(data, 4);
    let biome_b = *vstd::slice::slice_index_get(data, 8);
    if biome_b > 5 {
        return None;
    }
    let biome_type = biome_of_tag_exec(biome_b);
    let last_accessed = u64_from_le_bytes(slice_subrange(data, 9, 17));
    let nw = u32_from_le_bytes(slice_subrange(data, 17, 21));
    if nw > 1024 {
        return None;
    }
    let n = nw as usize;
    let ghost ni = n as int;
    proof {
        assert(0 <= ni * ni * 15 <= 15_728_640) by (nonlinear_arith)
            requires
                0 <= ni <= 1024,
        ;
    }
    if len != 21 + n * n * 15 {
        return None;
    }
    let mut tiles: Vec<Vec<Tile>> = Vec::new();
    let mut y: usize = 0;
    while y < n
        invariant
            n <= 1024,
            ni == n as int,
            len == data@.len(),
            data@.len() == 21 + ni * ni * 15,
            nw == spec_u32_from_le_bytes(data@.subrange(17, 21)),
            nw == n,
            0 <= y <= n,
            tiles@.len() == y,
            forall|yy: int| 0 <= yy < y ==> (#[trigger] tiles@[yy])@.len() == ni,
            forall|yy: int, xx: int|
                0 <= yy < y && 0 <= xx < ni ==> data@.subrange(
                    #[trigger] tile_offset(ni, yy, xx),
                    tile_offset(ni, yy, xx) + 15,
                ) == spec_encode_tile(tiles@[yy]@[xx]),
        decreases n - y,
    {
        proof {
            assert(0 <= y * ni && y * ni + ni <= ni * ni) by (nonlinear_arith)
                requires
                    0 <= y < ni <= 1024,
            ;
        }
        let mut row: Vec<Tile> = Vec::new();
        let mut x: usize = 0;
        while x < n
            invariant
                n <= 1024,
                ni == n as int,
                len == data@.len(),
                data@.len() == 21 + ni * ni * 15,
                nw == spec_u32_from_le_bytes(data@.subrange(17, 21)),
                nw == n,
                0 <= y < n,
                0 <= x <= n,
                0 <= y * ni && y * ni + ni <= ni * ni,
                row@.len() == x,
                forall|xx: int|
                    0 <= xx < x ==> data@.subrange(
                        #[trigger] tile_offset(ni, y as int, xx),
                        tile_offset(ni, y as int, xx) + 15,
                    ) == spec_encode_tile(row@[xx]),
            decreases n - x,
        {
            proof {
                assert(21 + (y * ni + x) * 15 + 15 <= 21 + ni * ni * 15) by (nonlinear_arith)
                    requires
                        0 <= x < ni,
                        0 <= y * ni,
                        y * ni + ni <= ni * ni,
                ;
            }
            let off: usize = 21 + (y * n + x) * 15;
            let ghost offi = off as int;
            proof {
                assert(offi == tile_offset(ni, y as int, x as int));
            }
            let tb = *vstd::slice::slice_index_get(data, off);
            if tb > 6 {
                proof {
                    if valid_encoding(data@) {
                        assert(data@[tile_offset(ni, y as int, x as int)] <= 6);
                    }
                }
                return None;
            }
            let rb = *vstd::slice::slice_index_get(data, off + 1);
            if rb > 6 {
                proof {
                    if valid_encoding(data@) {
                        assert(data@[tile_offset(ni, y as int, x as int)] <= 6);
                    }
                }
                return None;
            }
            let h = decode_i32_at(data, off + 2);
            let px = decode_i32_at(data, off + 6);
            let py = decode_i32_at(data, off + 10);
            let vb = *vstd::slice::slice_index_get(data, off + 14);
            if vb > 1 {
                proof {
                    if valid_encoding(data@) {
                        assert(data@[tile_offset(ni, y as int, x as int)] <= 6);
                    }
                }
                return None;
            }
            let tile = Tile {
                tile_type: tile_type_of_tag_exec(tb),
                resource: resource_of_tag_exec(rb),
                height: h,
                position: WorldPos { x: px, y: py },
                traversable: vb == 1,
            };
            proof {
                lemma_encode_tile_bytes(tile);
                assert(tile_type_tag(tile.tile_type) == tb);
                assert(resource_tag(tile.resource) == rb);
                assert(bool_byte(tile.traversable) == vb);
                let e = spec_encode_tile(tile);
                let sub = data@.subrange(offi, offi + 15);
                assert(spec_encode_i32(h) == data@.subrange(offi + 2, offi + 6));
                assert(spec_encode_i32(px) == data@.subrange(offi + 6, offi + 10));
                assert(spec_encode_i32(py) == data@.subrange(offi + 10, offi + 14));
                assert forall|i: int| 0 <= i < 15 implies sub[i] == e[i] by {
                    assert(sub[i] == data@[offi + i]);
                    if 2 <= i < 6 {
                        assert(e[i] == e.subrange(2, 6)[i - 2]);
                        assert(data@[offi + i] == data@.subrange(offi + 2, offi + 6)[i - 2]);
                    } else if 6 <= i < 10 {
                        assert(e[i] == e.subrange(6, 10)[i - 6]);
                        assert(data@[offi + i] == data@.subrange(offi + 6, offi + 10)[i - 6]);
                    } else if 10 <= i < 14 {
                        assert(e[i] == e.subrange(10, 14)[i - 10]);
                        assert(data@[offi + i] == data@.subrange(offi + 10, offi + 14)[i - 10]);
                    }
                }
                assert(sub =~= e);
            }
            row.push(tile);
            x = x + 1;
        }
        tiles.push(row);
        y = y + 1;
    }
    let chunk = Chunk {
        coord: ChunkCoord { x: cx, y: cy },
        tiles,
        biome_type,
        last_accessed,
    };
    proof {
        vstd::bytes::lemma_auto_spec_u32_to_from_le_bytes();
        vstd::bytes::lemma_auto_spec_u64_to_from_le_bytes();
        assert(chunk.grid().len() == ni);
        assert forall|yy: int| 0 <= yy < ni implies (#[trigger] chunk.grid()[yy]).len() == ni by {
            assert(chunk.grid()[yy] == chunk.tiles@[yy]@);
        }
        assert(is_square(chunk));
        assert(data@.subrange(17, 21) == spec_u32_to_le_bytes(ni as u32));
        assert(data@.subrange(9, 17) == spec_u64_to_le_bytes(last_accessed));
        assert(data@[8] == biome_tag(biome_type));
        assert forall|yy: int, xx: int|
            0 <= yy < ni && 0 <= xx < ni implies data@.subrange(
            #[trigger] tile_offset(ni, yy, xx),
            tile_offset(ni, yy, xx) + 15,
        ) == spec_encode_tile(chunk.grid()[yy][xx]) by {
            assert(chunk.grid()[yy] == chunk.tiles@[yy]@);
        }
        assert(encoding_of(chunk, data@));
        lemma_encoding_of_valid(chunk, data@);
    }
    Some(chunk)
}

/// The signed-value wire form is injective.
proof fn lemma_encode_i32_injective(a: i32, b: i32)
    requires
        spec_encode_i32(a) == spec_encode_i32(b),
    ensures
        a == b,
{
    vstd::bytes::lemma_auto_spec_u32_to_from_le_bytes();
    assert(spec_u32_to_le_bytes(i32_word(a)).len() == 4);
    assert(spec_u32_to_le_bytes(i32_word(b)).len() == 4);
    assert(spec_u32_from_le_bytes(spec_u32_to_le_bytes(i32_word(a))) == i32_word(a));
    assert(spec_u32_from_le_bytes(spec_u32_to_le_bytes(i32_word(b))) == i32_word(b));
    assert(i32_word(a) == i32_word(b));
}

/// Two chunks with the same wire form are the same chunk: the encoding is
/// injective, so decoding what a chunk encodes to can only give that chunk
/// back — the codec round-trips.
pub proof fn lemma_codec_round_trip(c1: Chunk, c2: Chunk, d: Seq<u8>)
    requires
        is_square(c1),
        is_square(c2),
        encoding_of(c1, d),
        encoding_of(c2, d),
    ensures
        c1.coord == c2.coord,
        c1.biome_type == c2.biome_type,
        c1.last_accessed == c2.last_accessed,
        c1.grid() == c2.grid(),
{
    vstd::bytes::lemma_auto_spec_u32_to_from_le_bytes();
    vstd::bytes::lemma_auto_spec_u64_to_from_le_bytes();
    let n1 = c1.grid().len() as int;
    let n2 = c2.grid().len() as int;
    assert(n1 * n1 * 15 == n2 * n2 * 15);
    assert(n1 == n2) by (nonlinear_arith)
        requires
            0 <= n1,
            0 <= n2,
            n1 * n1 * 15 == n2 * n2 * 15,
    ;
    lemma_encode_i32_injective(c1.coord.x, c2.coord.x);
    lemma_encode_i32_injective(c1.coord.y, c2.coord.y);
    assert(c1.coord == c2.coord);
    assert(spec_u64_to_le_bytes(c1.last_accessed).len() == 8);
    assert(spec_u64_to_le_bytes(c2.last_accessed).len() == 8);
    assert(spec_u64_from_le_bytes(spec_u64_to_le_bytes(c1.last_accessed)) == c1.last_accessed);
    assert(spec_u64_from_le_bytes(spec_u64_to_le_bytes(c2.last_accessed)) == c2.last_accessed);
    assert(biome_tag(c1.biome_type) == biome_tag(c2.biome_type));
    assert(c1.biome_type == c2.biome_type);
    assert forall|y: int| 0 <= y < n1 implies c1.grid()[y] =~= c2.grid()[y] by {
        assert forall|x: int| 0 <= x < n1 implies c1.grid()[y][x] == c2.grid()[y][x] by {
            let t1 = c1.grid()[y][x];
            let t2 = c2.grid()[y][x];
            lemma_encode_tile_bytes(t1);
            lemma_encode_tile_bytes(t2);
            assert(spec_encode_tile(t1) == spec_encode_tile(t2));
            assert(tile_type_tag(t1.tile_type) == tile_type_tag(t2.tile_type));
            assert(t1.tile_type == t2.tile_type);
            assert(resource_tag(t1.resource) == resource_tag(t2.resource));
            assert(t1.resource == t2.resource);
            assert(spec_encode_i32(t1.height) == spec_encode_i32(t2.height));
            lemma_encode_i32_injective(t1.height, t2.height);
            assert(spec_encode_i32(t1.position.x) == spec_encode_i32(t2.position.x));
            lemma_encode_i32_injective(t1.position.x, t2.position.x);
            assert(spec_encode_i32(t1.position.y) == spec_encode_i32(t2.position.y));
            lemma_encode_i32_injective(t1.position.y, t2.position.y);
            assert(t1.position == t2.position);
            assert(bool_byte(t1.traversable) == bool_byte(t2.traversable));
            assert(t1.traversable == t2.traversable);
        }
    }
    assert(c1.grid() =~= c2.grid());
}

} // verus!
