use vstd::prelude::*;

verus! {

broadcast use vstd::string::group_string_axioms;

/// Side of a square chunk of map cells.
pub const CHUNK_SIZE: usize = 32;

/// The terrain a map cell has when nothing else is said.
pub const DEFAULT_TERRAIN_ID: &'static str = "grass";

/// The name of the default terrain.
pub fn default_terrain_id() -> (r: String)
    ensures
        r@ == DEFAULT_TERRAIN_ID@,
{
    DEFAULT_TERRAIN_ID.to_string()
}

/// Terrain can be walked on unless its definition says otherwise.
pub fn default_passable() -> (r: bool)
    ensures
        r,
{
    true
}

/// Entering terrain costs one step unless its definition says otherwise
/// (in hundredths).
pub fn default_movement_cost() -> (r: u32)
    ensures
        r == 100,
{
    100
}

/// One cell of a map chunk; its coordinates within the chunk default to its
/// place in the chunk's list.
#[derive(Debug, Clone)]
pub struct Cell {
    pub x: Option<u32>,
    pub y: Option<u32>,
    pub terrain: String,
}

/// A square block of cells of a map.
#[derive(Debug, Clone)]
pub struct MapChunk {
    pub x: i32,
    pub y: i32,
    pub cells: Vec<Cell>,
}

/// The map coordinates of the `idx`-th cell of a chunk: the chunk's corner
/// plus the cell's own coordinates, or its row-major place in the chunk.
pub open spec fn spec_cell_map_coords(chunk_x: int, chunk_y: int, idx: int, cell: Cell) -> (int, int) {
    (
        chunk_x * 32 + match cell.x { Some(x) => x as int, None => idx % 32 },
        chunk_y * 32 + match cell.y { Some(y) => y as int, None => idx / 32 },
    )
}

/// The map coordinates of the `idx`-th cell of a chunk.
pub fn cell_map_coords(chunk: &MapChunk, idx: usize, cell: &Cell) -> (r: (i64, i64))
    ensures
        r.0 as int == spec_cell_map_coords(chunk.x as int, chunk.y as int, idx as int, *cell).0,
        r.1 as int == spec_cell_map_coords(chunk.x as int, chunk.y as int, idx as int, *cell).1,
{
    let cx: i64 = chunk.x as i64 * 32 + match cell.x {
        Some(x) => x as i64,
        None => (idx % CHUNK_SIZE) as i64,
    };
    let cy: i64 = chunk.y as i64 * 32 + match cell.y {
        Some(y) => y as i64,
        None => (idx / CHUNK_SIZE) as i64,
    };
    (cx, cy)
}

/// Where map cell `(x, y)` of a `width` x `height` map lies on the world
/// grid: the map is turned by 45 degrees into a diamond inside a square of
/// side `width + height`.
pub open spec fn spec_map_to_world(width: int, x: int, y: int) -> (int, int) {
    (x + y, width + y - x)
}

/// The world grid cell of map cell `(x, y)`.
pub fn map_to_world(width: u32, height: u32, x: u32, y: u32) -> (r: (i64, i64))
    ensures
        r.0 as int == spec_map_to_world(width as int, x as int, y as int).0,
        r.1 as int == spec_map_to_world(width as int, x as int, y as int).1,
{
    (x as i64 + y as i64, width as i64 + y as i64 - x as i64)
}

/// Descriptive data of a map.
#[derive(Debug, Clone)]
pub struct MapMetadata {
    pub name: String,
    pub author: String,
    pub description: String,
    pub recommended_players: usize,
}

/// Where a player's base starts, in map cells.
#[derive(Debug, Clone)]
pub struct StartingPosition {
    pub x: u32,
    pub y: u32,
}

/// An ore field placed on the map, in map cells.
#[derive(Debug, Clone)]
pub struct ResourceNode {
    pub x: u32,
    pub y: u32,
    pub resource_id: String,
    pub amount: Option<u32>,
}

/// A map: its size in cells, its terrain by chunks, the players' starting
/// positions and the ore fields.
#[derive(Debug, Clone)]
pub struct GameMap {
    pub metadata: MapMetadata,
    pub width: u32,
    pub height: u32,
    pub default_terrain: String,
    pub chunks: Vec<MapChunk>,
    pub starting_positions: Vec<StartingPosition>,
    pub resource_nodes: Vec<ResourceNode>,
}

/// A map whose terrain is given by one single cell covers the whole map
/// with that cell's terrain.
pub fn single_cell_terrain(map: &GameMap) -> (r: Option<&Cell>)
    ensures
        r matches Some(c) ==> map.chunks@.len() == 1 && map.chunks@[0].cells@.len() == 1 && *c == map.chunks@[0].cells@[0],
        r is None <==> !(map.chunks@.len() == 1 && map.chunks@[0].cells@.len() == 1),
{
    if map.chunks.len() == 1 && map.chunks[0].cells.len() == 1 {
        Some(&map.chunks[0].cells[0])
    } else {
        None
    }
}

/// Side of the square world grid that holds a map's diamond.
pub fn logical_size(map: &GameMap) -> (r: u64)
    ensures
        r == map.width + map.height,
{
    map.width as u64 + map.height as u64
}

/// Name, description and size of a map file found on disk.
#[derive(Debug, Clone)]
pub struct MapInfo {
    pub name: String,
    pub description: String,
    pub file_name: String,
    pub recommended_players: usize,
}

/// What the map list shows of a map read from `file_name`.
pub fn map_info(map: &GameMap, file_name: String) -> (r: MapInfo)
    ensures
        r.name@ == map.metadata.name@,
        r.description@ == map.metadata.description@,
        r.file_name@ == file_name@,
        r.recommended_players == map.metadata.recommended_players,
{
    MapInfo {
        name: map.metadata.name.clone(),
        description: map.metadata.description.clone(),
        file_name,
        recommended_players: map.metadata.recommended_players,
    }
}

} // verus!
