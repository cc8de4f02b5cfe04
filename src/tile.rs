use vstd::prelude::*;

verus! {

/// Number of pixels along each side of a tile.
pub const TILE_SIZE: usize = 8;

/// Number of pixels held by one tile.
pub const TILE_PIXELS: usize = TILE_SIZE * TILE_SIZE;

/// An RGBA colour with eight bits per channel.
#[derive(Clone, Copy, Debug, PartialEq, Eq, Structural)]
pub struct Color {
    pub r: u8,
    pub g: u8,
    pub b: u8,
    pub a: u8,
}

impl Color {
    pub fn rgba(r: u8, g: u8, b: u8, a: u8) -> (c: Color)
        ensures
            c == (Color { r, g, b, a }),
    {
        Color { r, g, b, a }
    }

    pub fn white() -> (c: Color)
        ensures
            c == (Color { r: 255, g: 255, b: 255, a: 255 }),
    {
        Color { r: 255, g: 255, b: 255, a: 255 }
    }

    pub fn black() -> (c: Color)
        ensures
            c == (Color { r: 0, g: 0, b: 0, a: 255 }),
    {
        Color { r: 0, g: 0, b: 0, a: 255 }
    }

    pub fn transparent() -> (c: Color)
        ensures
            c == (Color { r: 0, g: 0, b: 0, a: 0 }),
    {
        Color { r: 0, g: 0, b: 0, a: 0 }
    }

    /// The four channels in the order red, green, blue, alpha.
    pub fn as_rgba_u8(&self) -> (bytes: [u8; 4])
        ensures
            bytes@ == seq![self.r, self.g, self.b, self.a],
    {
        let bytes = [self.r, self.g, self.b, self.a];
        assert(bytes@ =~= seq![self.r, self.g, self.b, self.a]);
        bytes
    }
}

/// The one kind of failure of the grid: an offset outside a fixed-size buffer.
#[derive(Clone, Copy, Debug, PartialEq, Eq, Structural)]
pub enum TilemapError {
    OutOfRange,
}

/// The abstract content of a tile.
pub ghost struct TileView {
    pub pixels: Seq<Color>,
    pub location: Option<(i32, i32)>,
    pub record: Option<u64>,
}

/// One grid cell: a square of `TILE_SIZE` by `TILE_SIZE` pixels, stored row by row.
///
/// `location` is the global coordinate the tile was placed at, and `record`
/// an opaque handle of an outside record tied to the tile, which is handed back
/// for release when the tile leaves its slot.
pub struct Tile {
    pub pixels: Vec<Color>,
    pub location: Option<(i32, i32)>,
    pub record: Option<u64>,
}

impl View for Tile {
    type V = TileView;

    open spec fn view(&self) -> TileView {
        TileView { pixels: self.pixels@, location: self.location, record: self.record }
    }
}

/// Position of pixel `(x, y)` in a tile's row-by-row pixel sequence.
pub open spec fn pixel_index(x: int, y: int) -> int {
    x + y * TILE_SIZE
}

/// Whether `(x, y)` names a pixel of a tile.
pub open spec fn pixel_in_range(p: (usize, usize)) -> bool {
    p.0 < TILE_SIZE && p.1 < TILE_SIZE
}

impl Tile {
    /// A well-formed tile holds exactly `TILE_PIXELS` pixels.
    pub open spec fn wf(&self) -> bool {
        self.pixels@.len() == TILE_PIXELS
    }

    /// The colour of pixel `(x, y)`.
    pub open spec fn pixel(&self, x: int, y: int) -> Color {
        self.pixels@[pixel_index(x, y)]
    }

    /// A tile whose every pixel is `color`, not yet placed and tied to no record.
    pub fn new_fill(color: Color) -> (t: Tile)
        ensures
            t.wf(),
            forall|i: int| 0 <= i < TILE_PIXELS ==> #[trigger] t.pixels@[i] == color,
            t.location.is_none(),
            t.record.is_none(),
    {
        let mut pixels: Vec<Color> = Vec::new();
        let mut i: usize = 0;
        while i < TILE_PIXELS
            invariant
                i <= TILE_PIXELS,
                pixels@.len() == i,
                forall|j: int| 0 <= j < i ==> #[trigger] pixels@[j] == color,
            decreases TILE_PIXELS - i,
        {
            pixels.push(color);
            i += 1;
        }
        Tile { pixels, location: None, record: None }
    }

    /// A copy of the tile.
    pub fn duplicate(&self) -> (t: Tile)
        ensures
            t@ == self@,
    {
        let mut pixels: Vec<Color> = Vec::new();
        let mut i: usize = 0;
        while i < self.pixels.len()
            invariant
                i <= self.pixels@.len(),
                pixels@ == self.pixels@.take(i as int),
            decreases self.pixels@.len() - i,
        {
            pixels.push(self.pixels[i]);
            i += 1;
            assert(pixels@ =~= self.pixels@.take(i as int));
        }
        assert(pixels@ =~= self.pixels@);
        Tile { pixels, location: self.location, record: self.record }
    }

    /// Writes one pixel. Fails, changing nothing, when either axis is
    /// `TILE_SIZE` or more.
    pub fn set_pixel(&mut self, pixel: (usize, usize), color: Color) -> (r: Result<(), TilemapError>)
        requires
            old(self).wf(),
        ensures
            r is Ok <==> pixel_in_range(pixel),
            r is Err ==> r == Err::<(), TilemapError>(TilemapError::OutOfRange) && *final(self) == *old(self),
            r is Ok ==> final(self)@ == (TileView {
                pixels: old(self)@.pixels.update(pixel_index(pixel.0 as int, pixel.1 as int), color),
                ..old(self)@
            }),
            final(self).wf(),
    {
        if pixel.0 >= TILE_SIZE || pixel.1 >= TILE_SIZE {
            return Err(TilemapError::OutOfRange);
        }
        self.pixels.set(pixel.0 + pixel.1 * TILE_SIZE, color);
        Ok(())
    }

    /// Reads one pixel. Fails when either axis is `TILE_SIZE` or more.
    pub fn get_pixel(&mut self, pixel: (usize, usize)) -> (r: Result<Color, TilemapError>)
        requires
            old(self).wf(),
        ensures
            *final(self) == *old(self),
            r is Ok <==> pixel_in_range(pixel),
            r is Err ==> r == Err::<Color, TilemapError>(TilemapError::OutOfRange),
            r is Ok ==> r == Ok::<Color, TilemapError>(old(self).pixel(pixel.0 as int, pixel.1 as int)),
    {
        if pixel.0 >= TILE_SIZE || pixel.1 >= TILE_SIZE {
            return Err(TilemapError::OutOfRange);
        }
        Ok(self.pixels[pixel.0 + pixel.1 * TILE_SIZE])
    }
}

} // verus!
