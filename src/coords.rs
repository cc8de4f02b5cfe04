use crate::chunk::CHUNK_SIZE;
use vstd::prelude::*;

verus! {

/// The chunk coordinate of global coordinate `g`: `g` divided by the chunk
/// size, rounded towards negative infinity.
pub open spec fn chunk_of(g: int) -> int {
    g / (CHUNK_SIZE as int)
}

/// The offset of global coordinate `g` inside its chunk: the non-negative
/// remainder of `g` by the chunk size.
pub open spec fn offset_of(g: int) -> int {
    g % (CHUNK_SIZE as int)
}

/// The chunk holding global location `loc`.
pub open spec fn chunk_loc_of(loc: (i32, i32)) -> (i32, i32) {
    (chunk_of(loc.0 as int) as i32, chunk_of(loc.1 as int) as i32)
}

/// The in-chunk offset of global location `loc`.
pub open spec fn tile_loc_of(loc: (i32, i32)) -> (usize, usize) {
    (offset_of(loc.0 as int) as usize, offset_of(loc.1 as int) as usize)
}

/// Every coordinate lies inside the span of its chunk, at its offset:
/// `chunk * C <= g < (chunk + 1) * C`, `0 <= offset < C` and
/// `g == chunk * C + offset`, negative coordinates included.
pub proof fn lemma_chunk_bounds(g: i32)
    ensures
        chunk_of(g as int) * (CHUNK_SIZE as int) <= g,
        g < (chunk_of(g as int) + 1) * (CHUNK_SIZE as int),
        0 <= offset_of(g as int) < CHUNK_SIZE,
        g == chunk_of(g as int) * (CHUNK_SIZE as int) + offset_of(g as int),
        i32::MIN <= chunk_of(g as int) <= i32::MAX,
{
}

/// The chunk coordinate along one axis, rounded towards negative infinity.
pub fn align_loc_to_chunk(loc: i32) -> (r: i32)
    ensures
        r as int == chunk_of(loc as int),
{
    let size = CHUNK_SIZE as i32;
    if loc > 0 {
        loc / size
    } else if loc < 0 {
        let mut rest: i32 = loc;
        let mut result: i32 = 0;
        while rest < 0
            invariant
                loc <= rest < size,
                loc as int == rest as int + result as int * (size as int),
                result <= 0,
                size == CHUNK_SIZE,
            decreases size as int - rest as int,
        {
            rest += size;
            result -= 1;
        }
        assert(rest as int % (size as int) == rest as int);
        assert(loc as int / (size as int) == result);
        result
    } else {
        0
    }
}

/// The chunk coordinate holding global location `loc`.
pub fn chunk_from_location(loc: (i32, i32)) -> (r: (i32, i32))
    ensures
        r == chunk_loc_of(loc),
{
    (align_loc_to_chunk(loc.0), align_loc_to_chunk(loc.1))
}

/// The offset inside its chunk of global location `loc`; each axis is below
/// the chunk size.
pub fn tile_from_location(loc: (i32, i32)) -> (r: (usize, usize))
    ensures
        r == tile_loc_of(loc),
        r.0 < CHUNK_SIZE && r.1 < CHUNK_SIZE,
{
    let size = CHUNK_SIZE as i32;
    let x = loc.0 - align_loc_to_chunk(loc.0) * size;
    let y = loc.1 - align_loc_to_chunk(loc.1) * size;
    (x as usize, y as usize)
}

} // verus!
