use spooky_maze::maze::{Coin, Maze};
use spooky_maze::render::{
    blit_opaque, camera_offset, draw_sprite, sprite_pixel_visible, texture_from_bmp, tile_blits, view_from_offset, visible_coins,
    visible_tiles, DecodedBmp, FastTexture, TileView, MAGIC_PINK_RGB565,
};
use spooky_maze::systems::{tile_texture_of, TileTexture};

#[test]
fn magic_pink_is_transparent() {
    assert!(!sprite_pixel_visible(3, 3, MAGIC_PINK_RGB565, 16, 16));
    assert!(sprite_pixel_visible(3, 3, 0x07E0, 16, 16));
    assert!(!sprite_pixel_visible(-1, 3, 0x07E0, 16, 16));
    assert!(!sprite_pixel_visible(3, 16, 0x07E0, 16, 16));
}

#[test]
fn the_camera_is_held_inside_the_maze() {
    assert_eq!(camera_offset(100, 300, 512, 300), (-156, 150));
    assert_eq!(camera_offset(-100, 0, 512, 300), (-288, 4));
    assert_eq!(camera_offset(500, 1000, 512, 300), (-16, 436));
    assert_eq!(camera_offset(-31, 570, 512, 300), (-287, 420));
}

#[test]
fn visible_tiles_are_clamped_to_the_maze() {
    let maze = Maze::new(64, 64, None);
    let view = visible_tiles(&maze, 160, 128, 320, 240);
    assert_eq!(view, TileView { offset_x: 0, offset_y: 8, min_tx: 0, max_tx: 20, min_ty: 0, max_ty: 15 });
    let view = view_from_offset(&maze, -40, 900, 320, 240);
    assert_eq!(view, TileView { offset_x: -40, offset_y: 900, min_tx: 0, max_tx: 17, min_ty: 56, max_ty: 63 });
}

#[test]
fn blitting_clips_on_every_side() {
    let texture = FastTexture { pixels: (0..6u16).collect::<Vec<_>>(), width: 3, height: 2 };
    let mut frame = vec![99u16; 4 * 3];
    blit_opaque(&mut frame, 4, 3, &texture, 2, 2);
    assert_eq!(frame, vec![99, 99, 99, 99, 99, 99, 99, 99, 99, 99, 0, 1]);
    let mut frame = vec![99u16; 4 * 3];
    blit_opaque(&mut frame, 4, 3, &texture, -1, -1);
    assert_eq!(frame, vec![4, 5, 99, 99, 99, 99, 99, 99, 99, 99, 99, 99]);
    let mut frame = vec![99u16; 4 * 3];
    blit_opaque(&mut frame, 4, 3, &texture, 4, 0);
    assert_eq!(frame, vec![99u16; 12]);
    let mut frame = vec![7u16; 4 * 3 + 2];
    blit_opaque(&mut frame, 4, 3, &texture, 0, 0);
    assert_eq!(frame, vec![0, 1, 2, 7, 3, 4, 5, 7, 7, 7, 7, 7, 7, 7]);
}

/// A 2 x 2 BMP file, 24 bits per pixel: blue and white in the first stored
/// row, red and green in the second.
fn two_by_two_bmp() -> Vec<u8> {
    let mut b = Vec::new();
    b.extend_from_slice(b"BM");
    b.extend_from_slice(&70u32.to_le_bytes());
    b.extend_from_slice(&[0, 0, 0, 0]);
    b.extend_from_slice(&54u32.to_le_bytes());
    b.extend_from_slice(&40u32.to_le_bytes());
    b.extend_from_slice(&2i32.to_le_bytes());
    b.extend_from_slice(&2i32.to_le_bytes());
    b.extend_from_slice(&1u16.to_le_bytes());
    b.extend_from_slice(&24u16.to_le_bytes());
    b.extend_from_slice(&0u32.to_le_bytes());
    b.extend_from_slice(&16u32.to_le_bytes());
    b.extend_from_slice(&2835u32.to_le_bytes());
    b.extend_from_slice(&2835u32.to_le_bytes());
    b.extend_from_slice(&0u32.to_le_bytes());
    b.extend_from_slice(&0u32.to_le_bytes());
    // first stored row: blue, white (each pixel blue, green, red; padded to 8 bytes)
    b.extend_from_slice(&[255, 0, 0, 255, 255, 255, 0, 0]);
    // second stored row: red, green
    b.extend_from_slice(&[0, 0, 255, 0, 255, 0, 0, 0]);
    b
}

#[test]
fn bmp_files_decode_into_textures() {
    let texture = texture_from_bmp(&two_by_two_bmp()).expect("a valid BMP file");
    assert_eq!((texture.width, texture.height), (2, 2));
    // tinybmp 0.7 yields the first stored row as the image's top row
    assert_eq!(texture.pixels, vec![0x001F, 0xFFFF, 0xF800, 0x07E0]);
}

#[test]
fn other_bytes_are_no_texture() {
    assert!(texture_from_bmp(b"not a bitmap").is_none());
    assert!(texture_from_bmp(&[]).is_none());
}

#[test]
fn decoded_pixels_off_the_image_are_skipped() {
    let bmp = DecodedBmp { width: 2, height: 1, pixels: vec![(0, 0, 5), (5, 0, 9), (1, 0, 7), (0, 0, 6), (-1, 0, 3)] };
    let texture = FastTexture::from_bmp(&bmp);
    assert_eq!(texture.pixels, vec![6, 7]);
    let empty = DecodedBmp { width: 3, height: 1, pixels: vec![] };
    assert_eq!(FastTexture::from_bmp(&empty).pixels, vec![0, 0, 0]);
}

#[test]
fn tile_blits_cover_the_view() {
    let mut maze = Maze::new(64, 64, None);
    maze.data[3 * 64 + 2] = 0;
    maze.data[3 * 64 + 3] = 2;
    let view = TileView { offset_x: 20, offset_y: 40, min_tx: 1, max_tx: 3, min_ty: 2, max_ty: 3 };
    let rows = tile_blits(&maze, &view);
    assert_eq!(rows.len(), 2);
    assert_eq!(rows[0], vec![(-4, -8, 1), (12, -8, 1), (28, -8, 1)]);
    assert_eq!(rows[1], vec![(-4, 8, 1), (12, 8, 0), (28, 8, 2)]);
    let empty = TileView { offset_x: 0, offset_y: 0, min_tx: 5, max_tx: 4, min_ty: 0, max_ty: 3 };
    assert!(tile_blits(&maze, &empty).is_empty());
}

#[test]
fn only_coins_on_screen_are_drawn() {
    let mut maze = Maze::new(64, 64, None);
    maze.coins[0] = Coin::new(100, 100);
    maze.coins[1] = Coin::new(-1, 50);
    maze.coins[2] = Coin::new(85, 100);
    maze.coins[3] = Coin::new(84, 100);
    maze.coins[4] = Coin::new(419, 100);
    maze.coins[5] = Coin::new(420, 100);
    let drawn = visible_coins(&maze, 100, 50, 320, 240);
    assert_eq!(drawn, vec![(0, 50), (-15, 50), (319, 50)]);
}

#[test]
fn tile_values_pick_textures() {
    assert_eq!(tile_texture_of(0), TileTexture::Ground);
    assert_eq!(tile_texture_of(1), TileTexture::Wall);
    assert_eq!(tile_texture_of(2), TileTexture::Scorched);
    assert_eq!(tile_texture_of(9), TileTexture::Ground);
}

#[test]
fn blits_into_nothing_or_far_left_change_nothing() {
    let texture = FastTexture { pixels: vec![1u16, 2, 3, 4], width: 2, height: 2 };
    let mut frame = vec![9u16; 6];
    blit_opaque(&mut frame, 0, 3, &texture, 0, 0);
    blit_opaque(&mut frame, 3, 2, &texture, i32::MIN, 0);
    blit_opaque(&mut frame, 3, 2, &texture, 0, i32::MIN);
    assert_eq!(frame, vec![9u16; 6]);
}

#[test]
fn sprites_skip_magic_pink_and_clip() {
    let p = MAGIC_PINK_RGB565;
    // a 3 x 2 sprite with a transparent pixel in each row
    let sprite = FastTexture { pixels: vec![1u16, p, 3, p, 5, 6], width: 3, height: 2 };
    let mut frame = vec![0u16; 4 * 3];
    draw_sprite(&mut frame, 4, 3, &sprite, 2, 1);
    assert_eq!(
        frame,
        vec![
            0, 0, 0, 0, //
            0, 0, 1, 0, //
            0, 0, 0, 5,
        ]
    );
    // partly off the top-left corner
    let mut frame = vec![9u16; 4 * 3];
    draw_sprite(&mut frame, 4, 3, &sprite, -1, -1);
    assert_eq!(
        frame,
        vec![
            5, 6, 9, 9, //
            9, 9, 9, 9, //
            9, 9, 9, 9,
        ]
    );
    // wholly off the screen, and into an empty buffer
    let mut frame = vec![9u16; 4 * 3];
    draw_sprite(&mut frame, 4, 3, &sprite, i32::MIN, 100);
    assert_eq!(frame, vec![9u16; 12]);
    let mut empty: Vec<u16> = Vec::new();
    draw_sprite(&mut empty, 0, 0, &sprite, 0, 0);
    assert!(empty.is_empty());
}
