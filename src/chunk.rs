use crate::tile::{Color, Tile, TilemapError, TILE_SIZE};
use vstd::arithmetic::div_mod::lemma_fundamental_div_mod_converse;
use vstd::prelude::*;

verus! {

/// Number of tiles along each side of a chunk.
pub const CHUNK_SIZE: usize = 16;

/// Number of tile slots in a chunk.
pub const CHUNK_TILES: usize = CHUNK_SIZE * CHUNK_SIZE;

/// Number of raster pixels along each side of a chunk.
pub const RASTER_SIZE: usize = CHUNK_SIZE * TILE_SIZE;

/// Number of pixels in a chunk's raster.
pub const RASTER_PIXELS: usize = CHUNK_SIZE * TILE_SIZE * CHUNK_SIZE * TILE_SIZE;

/// Whether the raster lists the rows of tiles from the last to the first, so
/// that growing `y` runs upwards on a presentation layer that draws rows from
/// the top. The pixel rows inside one tile keep their order either way.
pub const FLIP_ROWS: bool = true;

/// The colour that an empty slot takes in the raster.
pub open spec fn background() -> Color {
    Color { r: 0, g: 0, b: 0, a: 255 }
}

/// Position of slot `(x, y)` in a chunk's slot sequence.
pub open spec fn slot_index(x: int, y: int) -> int {
    x + y * CHUNK_SIZE
}

/// Whether `(x, y)` names a slot of a chunk.
pub open spec fn slot_in_range(loc: (i32, i32)) -> bool {
    0 <= loc.0 < CHUNK_SIZE && 0 <= loc.1 < CHUNK_SIZE
}

/// The raster row of tiles that holds the tiles of slot row `y`, and back.
pub open spec fn block_row(y: int) -> int {
    if FLIP_ROWS {
        CHUNK_SIZE - 1 - y
    } else {
        y
    }
}

/// The colour of raster pixel `k` (rows of `RASTER_SIZE` pixels, one after the
/// other) for the given slots.
pub open spec fn raster_pixel(tiles: Seq<Option<Tile>>, k: int) -> Color {
    let row = k / (RASTER_SIZE as int);
    let col = k % (RASTER_SIZE as int);
    let x = col / (TILE_SIZE as int);
    let y = block_row(row / (TILE_SIZE as int));
    match tiles[slot_index(x, y)] {
        Some(t) => t.pixel(col % (TILE_SIZE as int), row % (TILE_SIZE as int)),
        None => background(),
    }
}

/// The raster that the given slots render to.
pub open spec fn rendered(tiles: Seq<Option<Tile>>) -> Seq<Color> {
    Seq::new(RASTER_PIXELS as nat, |k: int| raster_pixel(tiles, k))
}

/// Whether every occupied slot holds a well-formed tile.
pub open spec fn tiles_wf(tiles: Seq<Option<Tile>>) -> bool {
    forall|i: int| 0 <= i < tiles.len() && (#[trigger] tiles[i]) is Some ==> tiles[i]->Some_0.wf()
}

/// Whether a copy `o` holds what slot content `s` holds.
pub open spec fn same_cell(o: Option<Tile>, s: Option<Tile>) -> bool {
    match (o, s) {
        (Some(a), Some(b)) => a@ == b@,
        (None, None) => true,
        _ => false,
    }
}

/// Position in the raster of pixel `(px, py)` of the tile in slot `(x, y)`.
pub open spec fn raster_index(x: int, y: int, px: int, py: int) -> int {
    (block_row(y) * TILE_SIZE + py) * RASTER_SIZE + x * TILE_SIZE + px
}

/// What the raster shows at pixel `(px, py)` of slot content `slot`.
pub open spec fn cell_color(slot: Option<Tile>, px: int, py: int) -> Color {
    match slot {
        Some(t) => t.pixel(px, py),
        None => background(),
    }
}

/// The rendered raster holds each slot in its own block: pixel `(px, py)` of
/// the block of slot `(x, y)` is that tile's pixel `(px, py)`, or the
/// background where the slot is empty.
pub proof fn lemma_rendered_block(tiles: Seq<Option<Tile>>, x: int, y: int, px: int, py: int)
    requires
        0 <= x < CHUNK_SIZE,
        0 <= y < CHUNK_SIZE,
        0 <= px < TILE_SIZE,
        0 <= py < TILE_SIZE,
    ensures
        0 <= raster_index(x, y, px, py) < RASTER_PIXELS,
        rendered(tiles)[raster_index(x, y, px, py)] == cell_color(tiles[slot_index(x, y)], px, py),
{
    let row = block_row(y) * TILE_SIZE + py;
    let col = x * TILE_SIZE + px;
    let k = raster_index(x, y, px, py);
    lemma_fundamental_div_mod_converse(k, RASTER_SIZE as int, row, col);
    lemma_fundamental_div_mod_converse(col, TILE_SIZE as int, x, px);
    lemma_fundamental_div_mod_converse(row, TILE_SIZE as int, block_row(y), py);
}

/// The abstract state of a chunk.
pub ghost struct ChunkView {
    pub location: (i32, i32),
    pub tiles: Seq<Option<Tile>>,
    pub image: Seq<Color>,
    pub dirty: bool,
}

impl ChunkView {
    /// In a clean chunk, pixel `(px, py)` of the raster block of slot `(x, y)`
    /// is that tile's pixel `(px, py)`, or the background where the slot is
    /// empty.
    pub proof fn lemma_clean_raster(self, x: int, y: int, px: int, py: int)
        requires
            self.wf(),
            !self.dirty,
            0 <= x < CHUNK_SIZE,
            0 <= y < CHUNK_SIZE,
            0 <= px < TILE_SIZE,
            0 <= py < TILE_SIZE,
        ensures
            self.image[raster_index(x, y, px, py)] == cell_color(self.slot(x, y), px, py),
    {
        lemma_rendered_block(self.tiles, x, y, px, py);
    }

    /// Sizes are fixed, slots hold well-formed tiles, and a clean chunk's
    /// raster is the one its slots render to.
    pub open spec fn wf(&self) -> bool {
        &&& self.tiles.len() == CHUNK_TILES
        &&& self.image.len() == RASTER_PIXELS
        &&& tiles_wf(self.tiles)
        &&& !self.dirty ==> self.image == rendered(self.tiles)
    }

    /// The slot at in-chunk offset `(x, y)`.
    pub open spec fn slot(&self, x: int, y: int) -> Option<Tile> {
        self.tiles[slot_index(x, y)]
    }

    /// The chunk with slot `(x, y)` replaced by `tile` and marked dirty.
    pub open spec fn with_slot(&self, x: int, y: int, tile: Option<Tile>) -> ChunkView {
        ChunkView { tiles: self.tiles.update(slot_index(x, y), tile), dirty: true, ..*self }
    }
}

/// A freshly created chunk: every slot empty, a transparent raster, and dirty,
/// so that its first synthesis draws the background.
pub open spec fn new_chunk_view(location: (i32, i32)) -> ChunkView {
    ChunkView {
        location,
        tiles: Seq::new(CHUNK_TILES as nat, |i: int| None::<Tile>),
        image: Seq::new(RASTER_PIXELS as nat, |i: int| Color { r: 0, g: 0, b: 0, a: 0 }),
        dirty: true,
    }
}

/// A square block of `CHUNK_SIZE` by `CHUNK_SIZE` tile slots, with the raster
/// built from them and a flag that says whether that raster is stale.
pub struct Chunk {
    location: (i32, i32),
    tiles: Vec<Option<Tile>>,
    image: Vec<Color>,
    dirty: bool,
}

impl View for Chunk {
    type V = ChunkView;

    closed spec fn view(&self) -> ChunkView {
        ChunkView {
            location: self.location,
            tiles: self.tiles@,
            image: self.image@,
            dirty: self.dirty,
        }
    }
}

impl Chunk {
    /// An empty chunk at chunk coordinate `location`.
    pub fn new(location: (i32, i32)) -> (c: Chunk)
        ensures
            c@ == new_chunk_view(location),
            c@.wf(),
    {
        let mut tiles: Vec<Option<Tile>> = Vec::new();
        let mut i: usize = 0;
        while i < CHUNK_TILES
            invariant
                i <= CHUNK_TILES,
                tiles@.len() == i,
                forall|j: int| 0 <= j < i ==> (#[trigger] tiles@[j]) is None,
            decreases CHUNK_TILES - i,
        {
            tiles.push(None);
            i += 1;
        }
        let clear = Color::transparent();
        let mut image: Vec<Color> = Vec::new();
        let mut k: usize = 0;
        while k < RASTER_PIXELS
            invariant
                k <= RASTER_PIXELS,
                image@.len() == k,
                clear == (Color { r: 0, g: 0, b: 0, a: 0 }),
                forall|j: int| 0 <= j < k ==> #[trigger] image@[j] == clear,
            decreases RASTER_PIXELS - k,
        {
            image.push(clear);
            k += 1;
        }
        let c = Chunk { location, tiles, image, dirty: true };
        assert(c@.tiles =~= new_chunk_view(location).tiles);
        assert(c@.image =~= new_chunk_view(location).image);
        c
    }

    /// The chunk coordinate of this chunk.
    pub fn location(&self) -> (r: (i32, i32))
        ensures
            r == self@.location,
    {
        self.location
    }

    /// Whether the raster is stale.
    pub fn is_dirty(&self) -> (r: bool)
        ensures
            r == self@.dirty,
    {
        self.dirty
    }

    /// The raster, row by row, `RASTER_SIZE` pixels to a row.
    pub fn image(&self) -> (r: &Vec<Color>)
        ensures
            r@ == self@.image,
    {
        &self.image
    }

    /// A copy of the tile at in-chunk offset `location`. Fails when either
    /// axis lies outside `0..CHUNK_SIZE`.
    pub fn get_tile(&mut self, location: (i32, i32)) -> (r: Result<Option<Tile>, TilemapError>)
        requires
            old(self)@.wf(),
        ensures
            *final(self) == *old(self),
            r is Ok <==> slot_in_range(location),
            r is Err ==> r == Err::<Option<Tile>, TilemapError>(TilemapError::OutOfRange),
            r matches Ok(o) ==> same_cell(o, old(self)@.slot(location.0 as int, location.1 as int)),
    {
        if location.0 >= CHUNK_SIZE as i32 || location.1 >= CHUNK_SIZE as i32 || location.0 < 0
            || location.1 < 0 {
            return Err(TilemapError::OutOfRange);
        }
        let index = location.0 as usize + location.1 as usize * CHUNK_SIZE;
        match &self.tiles[index] {
            Some(t) => Ok(Some(t.duplicate())),
            None => Ok(None),
        }
    }

    /// Puts `tile` (or nothing) into the slot at in-chunk offset `location`
    /// and marks the chunk dirty, handing back what the slot held, so that the
    /// caller can release its record. Fails, changing nothing, when either
    /// axis lies outside `0..CHUNK_SIZE`.
    pub fn set_tile(&mut self, location: (i32, i32), tile: Option<Tile>) -> (r: Result<
        Option<Tile>,
        TilemapError,
    >)
        requires
            old(self)@.wf(),
            tile matches Some(t) ==> t.wf(),
        ensures
            final(self)@.wf(),
            r is Ok <==> slot_in_range(location),
            r is Err ==> r == Err::<Option<Tile>, TilemapError>(TilemapError::OutOfRange)
                && *final(self) == *old(self),
            r is Ok ==> r == Ok::<Option<Tile>, TilemapError>(
                old(self)@.slot(location.0 as int, location.1 as int),
            ) && final(self)@ == old(self)@.with_slot(location.0 as int, location.1 as int, tile),
    {
        if location.0 >= CHUNK_SIZE as i32 || location.1 >= CHUNK_SIZE as i32 || location.0 < 0
            || location.1 < 0 {
            return Err(TilemapError::OutOfRange);
        }
        let index = location.0 as usize + location.1 as usize * CHUNK_SIZE;
        let mut slot = tile;
        self.tiles.set_and_swap(index, &mut slot);
        self.dirty = true;
        Ok(slot)
    }

    /// Marks the raster stale without rebuilding it.
    pub fn request_update(&mut self)
        requires
            old(self)@.wf(),
        ensures
            final(self)@ == (ChunkView { dirty: true, ..old(self)@ }),
            final(self)@.wf(),
    {
        self.dirty = true;
    }

    /// Rebuilds the whole raster from the slots and marks the chunk clean.
    /// This costs a pass over every raster pixel: prefer `request_update` and
    /// one rebuild for many writes.
    pub fn update_texture(&mut self)
        requires
            old(self)@.wf(),
        ensures
            final(self)@ == (ChunkView { image: rendered(old(self)@.tiles), dirty: false, ..old(self)@ }),
            final(self)@.wf(),
    {
        let empty = Color::black();
        let mut image: Vec<Color> = Vec::new();
        let mut k: usize = 0;
        while k < RASTER_PIXELS
            invariant
                k <= RASTER_PIXELS,
                image@.len() == k,
                self.tiles@.len() == CHUNK_TILES,
                tiles_wf(self.tiles@),
                empty == background(),
                forall|j: int| 0 <= j < k ==> #[trigger] image@[j] == raster_pixel(self.tiles@, j),
            decreases RASTER_PIXELS - k,
        {
            let row = k / RASTER_SIZE;
            let col = k % RASTER_SIZE;
            let x = col / TILE_SIZE;
            let tile_row = row / TILE_SIZE;
            let y = if FLIP_ROWS {
                CHUNK_SIZE - 1 - tile_row
            } else {
                tile_row
            };
            let color = match &self.tiles[x + y * CHUNK_SIZE] {
                Some(t) => t.pixels[col % TILE_SIZE + (row % TILE_SIZE) * TILE_SIZE],
                None => empty,
            };
            image.push(color);
            k += 1;
        }
        self.image = image;
        self.dirty = false;
        assert(self.image@ =~= rendered(self.tiles@));
    }

    /// The raster as bytes, four to a pixel in the order red, green, blue,
    /// alpha.
    pub fn image_data(&self) -> (bytes: Vec<u8>)
        requires
            self@.wf(),
        ensures
            bytes@.len() == 4 * self@.image.len(),
            forall|i: int|
                0 <= i < self@.image.len() ==> {
                    &&& bytes@[4 * i] == (#[trigger] self@.image[i]).r
                    &&& bytes@[4 * i + 1] == self@.image[i].g
                    &&& bytes@[4 * i + 2] == self@.image[i].b
                    &&& bytes@[4 * i + 3] == self@.image[i].a
                },
    {
        let mut bytes: Vec<u8> = Vec::new();
        let mut i: usize = 0;
        while i < self.image.len()
            invariant
                i <= self.image@.len(),
                self.image@.len() == RASTER_PIXELS,
                bytes@.len() == 4 * i,
                forall|j: int|
                    0 <= j < i ==> {
                        &&& bytes@[4 * j] == (#[trigger] self.image@[j]).r
                        &&& bytes@[4 * j + 1] == self.image@[j].g
                        &&& bytes@[4 * j + 2] == self.image@[j].b
                        &&& bytes@[4 * j + 3] == self.image@[j].a
                    },
            decreases self.image@.len() - i,
        {
            let c = self.image[i];
            bytes.push(c.r);
            bytes.push(c.g);
            bytes.push(c.b);
            bytes.push(c.a);
            i += 1;
        }
        bytes
    }
}

} // verus!
