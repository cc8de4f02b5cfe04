use starlight::chunk::{CHUNK_SIZE, RASTER_PIXELS, RASTER_SIZE};
use starlight::tile::TILE_SIZE;
use starlight::{
    align_loc_to_chunk, chunk_from_location, chunk_texture_update, handle_tilemap_tasks,
    tile_from_location, Chunk, Color, Tile, Tilemap, TilemapError,
};

fn white() -> Color {
    Color::rgba(255, 255, 255, 255)
}

fn all_pixels(tile: &Tile, color: Color) -> bool {
    tile.pixels.len() == TILE_SIZE * TILE_SIZE && tile.pixels.iter().all(|p| *p == color)
}

#[test]
fn chunk_coordinates_floor_negative_values() {
    assert_eq!(align_loc_to_chunk(-1), -1);
    assert_eq!(tile_from_location((-1, -1)), (15, 15));
    assert_eq!(align_loc_to_chunk(-16), -1);
    assert_eq!(align_loc_to_chunk(-17), -2);
    assert_eq!(tile_from_location((-17, -16)), (15, 0));
    assert_eq!(align_loc_to_chunk(0), 0);
    assert_eq!(align_loc_to_chunk(15), 0);
    assert_eq!(align_loc_to_chunk(16), 1);
    assert_eq!(chunk_from_location((20, -20)), (1, -2));
    assert_eq!(tile_from_location((20, -20)), (4, 12));
}

#[test]
fn chunk_coordinates_hold_for_a_range() {
    let c = CHUNK_SIZE as i64;
    for g in -300i32..300 {
        let chunk = align_loc_to_chunk(g) as i64;
        let (off, _) = tile_from_location((g, 0));
        assert!(chunk * c <= g as i64 && (g as i64) < (chunk + 1) * c);
        assert!(off < CHUNK_SIZE);
        assert_eq!(chunk * c + off as i64, g as i64);
    }
}

#[test]
fn chunk_coordinates_at_the_integer_limits() {
    assert_eq!(align_loc_to_chunk(i32::MIN), i32::MIN / 16);
    assert_eq!(align_loc_to_chunk(i32::MAX), i32::MAX / 16);
    assert_eq!(tile_from_location((i32::MIN, i32::MAX)), (0, 15));
}

#[test]
fn new_fill_paints_every_pixel() {
    let tile = Tile::new_fill(white());
    assert!(all_pixels(&tile, white()));
    assert_eq!(tile.location, None);
    assert_eq!(tile.record, None);
}

#[test]
fn pixel_access_at_the_boundary() {
    let mut tile = Tile::new_fill(white());
    let red = Color::rgba(255, 0, 0, 255);
    assert_eq!(tile.set_pixel((7, 7), red), Ok(()));
    assert_eq!(tile.get_pixel((7, 7)), Ok(red));
    assert_eq!(tile.pixels[63], red);
    assert_eq!(tile.set_pixel((8, 0), red), Err(TilemapError::OutOfRange));
    assert_eq!(tile.set_pixel((0, 8), red), Err(TilemapError::OutOfRange));
    assert_eq!(tile.get_pixel((8, 0)), Err(TilemapError::OutOfRange));
    assert_eq!(tile.get_pixel((0, 8)), Err(TilemapError::OutOfRange));
    assert_eq!(tile.get_pixel((0, 0)), Ok(white()));
}

#[test]
fn set_pixel_writes_row_by_row() {
    let mut tile = Tile::new_fill(white());
    let blue = Color::rgba(0, 0, 255, 255);
    assert_eq!(tile.set_pixel((3, 2), blue), Ok(()));
    assert_eq!(tile.pixels[3 + 2 * 8], blue);
    assert_eq!(tile.get_pixel((2, 3)), Ok(white()));
}

#[test]
fn color_bytes_are_rgba() {
    assert_eq!(Color::rgba(1, 2, 3, 4).as_rgba_u8(), [1, 2, 3, 4]);
    assert_eq!(Color::black().as_rgba_u8(), [0, 0, 0, 255]);
    assert_eq!(Color::transparent().as_rgba_u8(), [0, 0, 0, 0]);
    assert_eq!(Color::white(), white());
}

#[test]
fn new_chunk_is_empty_transparent_and_dirty() {
    let mut chunk = Chunk::new((3, -4));
    assert_eq!(chunk.location(), (3, -4));
    assert!(chunk.is_dirty());
    assert_eq!(chunk.image().len(), RASTER_PIXELS);
    assert!(chunk.image().iter().all(|p| *p == Color::transparent()));
    assert!(matches!(chunk.get_tile((15, 15)), Ok(None)));
}

#[test]
fn chunk_slot_range_is_checked() {
    let mut chunk = Chunk::new((0, 0));
    assert!(matches!(chunk.get_tile((16, 0)), Err(TilemapError::OutOfRange)));
    assert!(matches!(chunk.get_tile((0, 16)), Err(TilemapError::OutOfRange)));
    assert!(matches!(chunk.get_tile((-1, 0)), Err(TilemapError::OutOfRange)));
    let r = chunk.set_tile((0, -1), Some(Tile::new_fill(white())));
    assert!(matches!(r, Err(TilemapError::OutOfRange)));
}

#[test]
fn chunk_set_tile_hands_back_previous() {
    let mut chunk = Chunk::new((0, 0));
    chunk.update_texture();
    assert!(!chunk.is_dirty());
    let mut first = Tile::new_fill(white());
    first.record = Some(11);
    assert!(matches!(chunk.set_tile((2, 3), Some(first)), Ok(None)));
    assert!(chunk.is_dirty());
    match chunk.set_tile((2, 3), None) {
        Ok(Some(prev)) => assert_eq!(prev.record, Some(11)),
        _ => panic!("expected the previous tile"),
    }
    assert!(matches!(chunk.get_tile((2, 3)), Ok(None)));
}

#[test]
fn request_update_marks_dirty() {
    let mut chunk = Chunk::new((0, 0));
    chunk.update_texture();
    assert!(!chunk.is_dirty());
    chunk.request_update();
    assert!(chunk.is_dirty());
}

#[test]
fn synthesis_places_blocks_and_background() {
    let mut chunk = Chunk::new((0, 0));
    let green = Color::rgba(0, 255, 0, 255);
    let mut tile = Tile::new_fill(green);
    let red = Color::rgba(255, 0, 0, 255);
    tile.set_pixel((1, 2), red).unwrap();
    assert!(chunk.set_tile((0, 0), Some(tile)).is_ok());
    chunk.update_texture();
    assert!(!chunk.is_dirty());
    let image = chunk.image();
    // slot (0, 0) sits in the last row of blocks
    let origin = (CHUNK_SIZE - 1) * TILE_SIZE * RASTER_SIZE;
    for py in 0..TILE_SIZE {
        for px in 0..TILE_SIZE {
            let expected = if (px, py) == (1, 2) { red } else { green };
            assert_eq!(image[origin + py * RASTER_SIZE + px], expected);
        }
    }
    assert_eq!(image[0], Color::black());
    assert_eq!(image[RASTER_PIXELS - 1], Color::black());
}

#[test]
fn image_data_packs_four_bytes_per_pixel() {
    let mut chunk = Chunk::new((0, 0));
    chunk.update_texture();
    let bytes = chunk.image_data();
    assert_eq!(bytes.len(), 4 * RASTER_PIXELS);
    assert_eq!(&bytes[0..4], &[0, 0, 0, 255]);
    let fresh = Chunk::new((0, 0));
    assert_eq!(&fresh.image_data()[0..4], &[0, 0, 0, 0]);
}

#[test]
fn write_then_read_then_delete() {
    let mut map = Tilemap::new();
    map.set_tile((-5, 7), Tile::new_fill(white()));
    assert!(map.get_tile((-5, 7), false).is_none());
    let released = handle_tilemap_tasks(&mut map);
    assert!(released.is_empty());
    let tile = map.get_tile((-5, 7), false).expect("tile written");
    assert!(all_pixels(&tile, white()));
    assert_eq!(tile.location, Some((-5, 7)));
    assert!(map.has_chunk((-1, 0)));
    map.delete_tile((-5, 7));
    handle_tilemap_tasks(&mut map);
    assert!(map.get_tile((-5, 7), false).is_none());
}

#[test]
fn require_chunk_twice_makes_one_chunk() {
    let mut map = Tilemap::new();
    map.require_chunk((2, 3));
    map.require_chunk((2, 3));
    assert_eq!(map.task_count(), 2);
    handle_tilemap_tasks(&mut map);
    assert_eq!(map.chunk_count(), 1);
    assert!(map.has_chunk((2, 3)));
    map.require_chunk((2, 3));
    assert_eq!(map.task_count(), 0);
}

#[test]
fn tile_write_applies_in_its_creation_cycle() {
    let mut map = Tilemap::new();
    map.set_tile((100, -100), Tile::new_fill(white()));
    assert_eq!(map.task_count(), 2);
    handle_tilemap_tasks(&mut map);
    assert_eq!(map.task_count(), 0);
    assert!(map.get_tile((100, -100), false).is_some());
    map.set_tile((101, -100), Tile::new_fill(white()));
    assert_eq!(map.task_count(), 1);
}

#[test]
fn end_to_end_white_tile() {
    let mut map = Tilemap::default();
    map.set_tile((20, 20), Tile::new_fill(white()));
    handle_tilemap_tasks(&mut map);
    let updated = chunk_texture_update(&mut map);
    assert_eq!(updated, vec![(1, 1)]);
    let tile = map.get_tile((20, 20), false).expect("tile written");
    assert!(all_pixels(&tile, white()));
    let chunk = map.try_get_chunk((1, 1)).expect("chunk created");
    assert!(!chunk.is_dirty());
    let image = chunk.image();
    // local cell (4, 4), in block row 15 - 4 = 11
    let row0 = (CHUNK_SIZE - 1 - 4) * TILE_SIZE;
    let col0 = 4 * TILE_SIZE;
    for py in 0..TILE_SIZE {
        for px in 0..TILE_SIZE {
            assert_eq!(image[(row0 + py) * RASTER_SIZE + col0 + px], white());
        }
    }
    assert_eq!(image[0], Color::black());
    assert!(chunk_texture_update(&mut map).is_empty());
}

#[test]
fn delete_on_missing_chunk_does_nothing() {
    let mut map = Tilemap::new();
    map.delete_tile((40, 40));
    assert_eq!(map.task_count(), 0);
    assert_eq!(map.chunk_count(), 0);
    handle_tilemap_tasks(&mut map);
    assert_eq!(map.chunk_count(), 0);
}

#[test]
fn get_tile_generates_only_when_asked() {
    let mut map = Tilemap::new();
    assert!(map.get_tile((3, 3), false).is_none());
    assert_eq!(map.task_count(), 0);
    assert!(map.get_tile((3, 3), true).is_none());
    assert_eq!(map.task_count(), 1);
    handle_tilemap_tasks(&mut map);
    assert!(map.has_chunk((0, 0)));
    assert!(map.get_tile((3, 3), true).is_none());
    assert_eq!(map.task_count(), 0);
}

#[test]
fn overwrite_releases_previous_record() {
    let mut map = Tilemap::new();
    let mut first = Tile::new_fill(white());
    first.record = Some(7);
    map.set_tile((1, 1), first);
    handle_tilemap_tasks(&mut map);
    let mut second = Tile::new_fill(Color::black());
    second.record = Some(8);
    map.set_tile((1, 1), second);
    map.delete_tile((2, 2));
    assert_eq!(handle_tilemap_tasks(&mut map), vec![7]);
    map.delete_tile((1, 1));
    assert_eq!(handle_tilemap_tasks(&mut map), vec![8]);
}

#[test]
fn overwrite_in_one_cycle_keeps_order() {
    let mut map = Tilemap::new();
    let mut first = Tile::new_fill(white());
    first.record = Some(1);
    let mut second = Tile::new_fill(Color::black());
    second.record = Some(2);
    map.set_tile((-3, -3), first);
    map.set_tile((-3, -3), second);
    assert_eq!(handle_tilemap_tasks(&mut map), vec![1]);
    let tile = map.get_tile((-3, -3), false).unwrap();
    assert_eq!(tile.record, Some(2));
    assert!(all_pixels(&tile, Color::black()));
}

#[test]
fn negative_location_lands_in_last_slot() {
    let mut map = Tilemap::new();
    map.set_tile((-1, -1), Tile::new_fill(white()));
    handle_tilemap_tasks(&mut map);
    assert!(map.has_chunk((-1, -1)));
    assert!(!map.has_chunk((0, 0)));
    let chunk = map.try_get_chunk((-1, -1)).unwrap();
    assert_eq!(chunk.location(), (-1, -1));
    assert!(chunk.is_dirty());
    assert!(map.try_get_chunk((0, 0)).is_none());
}

#[test]
fn texture_update_lists_only_dirty_chunks() {
    let mut map = Tilemap::new();
    map.set_tile((0, 0), Tile::new_fill(white()));
    map.set_tile((16, 0), Tile::new_fill(white()));
    handle_tilemap_tasks(&mut map);
    assert_eq!(chunk_texture_update(&mut map), vec![(0, 0), (1, 0)]);
    map.set_tile((17, 1), Tile::new_fill(white()));
    handle_tilemap_tasks(&mut map);
    assert_eq!(chunk_texture_update(&mut map), vec![(1, 0)]);
}
