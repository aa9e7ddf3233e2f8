//! The arithmetic of drawing the maze: which tiles the camera sees, where
//! the camera goes, which sprite pixels are drawn, and the clipped copy of an
//! opaque tile texture into a framebuffer, and the decoding of BMP textures
//! into pixel buffers.
use embedded_graphics::geometry::OriginDimensions;
use embedded_graphics::pixelcolor::raw::{RawData, RawU16};
use embedded_graphics::pixelcolor::Rgb565;
use embedded_graphics::Pixel;
use tinybmp::Bmp;
use vstd::arithmetic::div_mod::{lemma_fundamental_div_mod, lemma_fundamental_div_mod_converse};
use vstd::prelude::*;

use crate::maze::{tdiv, Coin, Maze};

verus! {

/// RGB565 representation of R=31, G=0, B=31: the colour that sprites use
/// for transparency.
pub const MAGIC_PINK_RGB565: u16 = 0xF81F;

/// Whether a sprite pixel of colour `color` at (x, y) is drawn into a
/// `width` x `height` framebuffer: it is not magic pink and lies inside.
pub open spec fn sprite_pixel_drawn(x: int, y: int, color: u16, width: int, height: int) -> bool {
    color != MAGIC_PINK_RGB565 && 0 <= x < width && 0 <= y < height
}

/// The filter of the sprite buffers.
pub fn sprite_pixel_visible(x: i32, y: i32, color: u16, width: i32, height: i32) -> (r: bool)
    ensures
        r == sprite_pixel_drawn(x as int, y as int, color, width as int, height as int),
{
    // A single RGB565 comparison stands for the check of all three colour components.
    if color == MAGIC_PINK_RGB565 {
        return false;
    }
    !(x < 0 || y < 0 || x >= width || y >= height)
}

/// The sprite pixel, as (column, row), that lands at index `i` of a
/// framebuffer `dw` pixels wide when the sprite's top-left pixel goes to
/// (x, y); `None` when no pixel of a `tw` x `th` sprite lands there.
pub open spec fn sprite_cell(dw: int, tw: int, th: int, x: int, y: int, i: int) -> Option<(int, int)> {
    let c = i % dw - x;
    let r = i / dw - y;
    if 0 <= c < tw && 0 <= r < th {
        Some((c, r))
    } else {
        None
    }
}

/// Index `i` of the framebuffer after the sprite pixels (c, r) with `done(c, r)`
/// have been drawn: a pixel that lands inside the `dw` x `dh` framebuffer
/// and is not magic pink replaces what was there.
pub open spec fn sprite_pixel_after(
    before: Seq<u16>,
    pixels: Seq<u16>,
    dw: int,
    dh: int,
    tw: int,
    th: int,
    x: int,
    y: int,
    rows_done: int,
    cols_done: int,
    i: int,
) -> u16 {
    if 0 <= i < dw * dh {
        match sprite_cell(dw, tw, th, x, y, i) {
            Some((c, r)) => if (r < rows_done || (r == rows_done && c < cols_done)) && pixels[r * tw + c]
                != MAGIC_PINK_RGB565 {
                pixels[r * tw + c]
            } else {
                before[i]
            },
            None => before[i],
        }
    } else {
        before[i]
    }
}

/// Pixel (px, py) of a `dw` x `dh` framebuffer is index `py * dw + px`.
proof fn lemma_pixel_index(dw: int, dh: int, px: int, py: int)
    requires
        0 <= px < dw,
        0 <= py < dh,
    ensures
        0 <= py * dw + px < dw * dh,
        (py * dw + px) / dw == py,
        (py * dw + px) % dw == px,
{
    assert(0 <= py * dw + px < dw * dh) by (nonlinear_arith)
        requires
            0 <= px < dw,
            0 <= py < dh,
    ;
    lemma_fundamental_div_mod_converse(py * dw + px, dw, py, px);
}

/// Draws a sprite into the framebuffer with its top-left pixel at (x, y):
/// each sprite pixel that lands inside the `destination_width` x
/// `destination_height` buffer and is not magic pink replaces the pixel
/// there; the others leave the buffer as it was.
pub fn draw_sprite(
    destination: &mut [u16],
    destination_width: usize,
    destination_height: usize,
    sprite: &FastTexture<u16>,
    x: i32,
    y: i32,
)
    requires
        sprite.wf(),
        destination_width * destination_height <= old(destination)@.len(),
        destination_width <= i32::MAX,
        destination_height <= i32::MAX,
        sprite.width <= i32::MAX,
        sprite.height <= i32::MAX,
    ensures
        final(destination)@.len() == old(destination)@.len(),
        forall|i: int|
            0 <= i < old(destination)@.len() ==> #[trigger] final(destination)@[i] == sprite_pixel_after(
                old(destination)@,
                sprite.pixels@,
                destination_width as int,
                destination_height as int,
                sprite.width as int,
                sprite.height as int,
                x as int,
                y as int,
                sprite.height as int,
                0,
                i,
            ),
{
    let ghost d0 = destination@;
    let ghost dw = destination_width as int;
    let ghost dh = destination_height as int;
    let ghost tw = sprite.width as int;
    let ghost th = sprite.height as int;
    let pixel_count = sprite.pixels.len();
    let destination_len = destination.len();
    let mut sy: usize = 0;
    while sy < sprite.height
        invariant
            sprite.wf(),
            dw == destination_width,
            dh == destination_height,
            tw == sprite.width,
            th == sprite.height,
            dw * dh <= d0.len(),
            d0.len() == destination_len,
            sprite.pixels@.len() == pixel_count,
            destination_width <= i32::MAX,
            destination_height <= i32::MAX,
            sprite.width <= i32::MAX,
            sprite.height <= i32::MAX,
            sy <= th,
            destination@.len() == d0.len(),
            forall|i: int|
                0 <= i < d0.len() ==> #[trigger] destination@[i] == sprite_pixel_after(
                    d0,
                    sprite.pixels@,
                    dw,
                    dh,
                    tw,
                    th,
                    x as int,
                    y as int,
                    sy as int,
                    0,
                    i,
                ),
        decreases th - sy,
    {
        let mut sx: usize = 0;
        while sx < sprite.width
            invariant
                sprite.wf(),
                dw == destination_width,
                dh == destination_height,
                tw == sprite.width,
                th == sprite.height,
                dw * dh <= d0.len(),
                d0.len() == destination_len,
                sprite.pixels@.len() == pixel_count,
                destination_width <= i32::MAX,
                destination_height <= i32::MAX,
                sprite.width <= i32::MAX,
                sprite.height <= i32::MAX,
                sy < th,
                sx <= tw,
                destination@.len() == d0.len(),
                forall|i: int|
                    0 <= i < d0.len() ==> #[trigger] destination@[i] == sprite_pixel_after(
                        d0,
                        sprite.pixels@,
                        dw,
                        dh,
                        tw,
                        th,
                        x as int,
                        y as int,
                        sy as int,
                        sx as int,
                        i,
                    ),
            decreases tw - sx,
        {
            proof {
                assert(0 <= sy * tw + sx < tw * th) by (nonlinear_arith)
                    requires
                        0 <= sx < tw,
                        0 <= sy < th,
                ;
                assert(0 <= sy * tw) by (nonlinear_arith)
                    requires
                        0 <= sy,
                        0 <= tw,
                ;
                assert(sprite.pixels@.len() == tw * th);
            }
            let color = sprite.pixels[sy * sprite.width + sx];
            let px: i64 = x as i64 + sx as i64;
            let py: i64 = y as i64 + sy as i64;
            let ghost before = destination@;
            if color != MAGIC_PINK_RGB565 && px >= 0 && py >= 0 && px < destination_width as i64 && py
                < destination_height as i64 {
                proof {
                    lemma_pixel_index(dw, dh, px as int, py as int);
                }
                let k = py as usize * destination_width + px as usize;
                destination[k] = color;
            }
            proof {
                assert forall|i: int| 0 <= i < d0.len() implies #[trigger] destination@[i] == sprite_pixel_after(
                    d0,
                    sprite.pixels@,
                    dw,
                    dh,
                    tw,
                    th,
                    x as int,
                    y as int,
                    sy as int,
                    sx + 1,
                    i,
                ) by {
                    assert(before[i] == sprite_pixel_after(d0, sprite.pixels@, dw, dh, tw, th, x as int, y as int, sy as int, sx as int, i));
                    if 0 <= i < dw * dh {
                        lemma_fundamental_div_mod(i, dw);
                        assert(0 <= i % dw < dw);
                        assert(0 <= i / dw) by (nonlinear_arith)
                            requires
                                0 <= i,
                                0 < dw,
                        ;
                        if i % dw == px && i / dw == py {
                            assert(i / dw < dh) by (nonlinear_arith)
                                requires
                                    i == dw * (i / dw) + i % dw,
                                    0 <= i % dw,
                                    i < dw * dh,
                                    0 < dw,
                            ;
                            lemma_pixel_index(dw, dh, px as int, py as int);
                            assert(i == py * dw + px) by (nonlinear_arith)
                                requires
                                    i == dw * (i / dw) + i % dw,
                                    i % dw == px,
                                    i / dw == py,
                            ;
                        }
                    }
                }
            }
            sx += 1;
        }
        proof {
            assert forall|i: int| 0 <= i < d0.len() implies #[trigger] destination@[i] == sprite_pixel_after(
                d0,
                sprite.pixels@,
                dw,
                dh,
                tw,
                th,
                x as int,
                y as int,
                sy + 1,
                0,
                i,
            ) by {
                assert(destination@[i] == sprite_pixel_after(d0, sprite.pixels@, dw, dh, tw, th, x as int, y as int, sy as int, tw, i));
            }
        }
        sy += 1;
    }
}

/// What the camera sees: the world offset of the screen's top-left pixel
/// and the inclusive ranges of tile columns and rows on the screen.
#[derive(Clone, Copy, Debug, PartialEq, Eq, Structural)]
pub struct TileView {
    pub offset_x: i32,
    pub offset_y: i32,
    pub min_tx: i32,
    pub max_tx: i32,
    pub min_ty: i32,
    pub max_ty: i32,
}

/// The smaller of two values.
pub open spec fn min_int(a: int, b: int) -> int {
    if a <= b {
        a
    } else {
        b
    }
}

/// The larger of two values.
pub open spec fn max_int(a: int, b: int) -> int {
    if a >= b {
        a
    } else {
        b
    }
}

/// The tiles visible on a `display_width` x `display_height` screen whose
/// top-left pixel is world pixel (offset_x, offset_y), clamped to the maze.
pub open spec fn view_at(maze: Maze, offset_x: int, offset_y: int, display_width: int, display_height: int) -> TileView {
    let tw = maze.tile_width as int;
    let th = maze.tile_height as int;
    TileView {
        offset_x: offset_x as i32,
        offset_y: offset_y as i32,
        min_tx: max_int(tdiv(offset_x, tw), 0) as i32,
        max_tx: min_int(tdiv(offset_x + display_width, tw), maze.width - 1) as i32,
        min_ty: max_int(tdiv(offset_y, th), 0) as i32,
        max_ty: min_int(tdiv(offset_y + display_height, th), maze.height - 1) as i32,
    }
}

/// The tiles to draw when the camera centres the player at world pixel
/// (player_x, player_y).
pub fn visible_tiles(maze: &Maze, player_x: i32, player_y: i32, display_width: i32, display_height: i32) -> (r: TileView)
    requires
        maze.wf(),
        0 <= display_width,
        0 <= display_height,
        i32::MIN <= player_x - display_width / 2,
        i32::MIN <= player_y - display_height / 2,
        player_x - display_width / 2 + display_width <= i32::MAX,
        player_y - display_height / 2 + display_height <= i32::MAX,
    ensures
        r == view_at(
            *maze,
            player_x - display_width / 2,
            player_y - display_height / 2,
            display_width as int,
            display_height as int,
        ),
{
    let offset_x = player_x - display_width / 2;
    let offset_y = player_y - display_height / 2;
    view_from_offset(maze, offset_x, offset_y, display_width, display_height)
}

/// The tiles to draw for a camera whose top-left pixel is world pixel (offset_x, offset_y).
pub fn view_from_offset(maze: &Maze, offset_x: i32, offset_y: i32, display_width: i32, display_height: i32) -> (r: TileView)
    requires
        maze.wf(),
        0 <= display_width,
        0 <= display_height,
        offset_x + display_width <= i32::MAX,
        offset_y + display_height <= i32::MAX,
    ensures
        r == view_at(*maze, offset_x as int, offset_y as int, display_width as int, display_height as int),
{
    proof {
        let w = maze.width as int;
        let h = maze.height as int;
        assert(w <= 4096 && h <= 4096) by (nonlinear_arith)
            requires
                1 <= w,
                1 <= h,
                w * h <= 4096,
        ;
    }
    let (maze_left, maze_bottom, _maze_right, _maze_top) = maze.playable_bounds();
    let tile_w = maze.tile_width as i32;
    let tile_h = maze.tile_height as i32;
    // Determine the visible region in world space.
    let visible_left = offset_x;
    let visible_right = offset_x + display_width;
    let visible_bottom = offset_y;
    let visible_top = offset_y + display_height;
    // Compute visible tile indices (clamped to maze dimensions).
    let a = (visible_left - maze_left) / tile_w;
    let min_tx = if a >= 0 { a } else { 0 };
    let b = (visible_right - maze_left) / tile_w;
    let max_tx = if b <= maze.width as i32 - 1 { b } else { maze.width as i32 - 1 };
    let c = (visible_bottom - maze_bottom) / tile_h;
    let min_ty = if c >= 0 { c } else { 0 };
    let d = (visible_top - maze_bottom) / tile_h;
    let max_ty = if d <= maze.height as i32 - 1 { d } else { maze.height as i32 - 1 };
    TileView { offset_x, offset_y, min_tx, max_tx, min_ty, max_ty }
}

/// The blit of tile (tx, ty) for a camera at (offset_x, offset_y): the
/// screen position of the tile's top-left corner and the tile's value.
pub open spec fn blit_entry(maze: Maze, offset_x: int, offset_y: int, tx: int, ty: int) -> (i32, i32, u8) {
    (
        (tx * maze.tile_width - offset_x) as i32,
        (ty * maze.tile_height - offset_y) as i32,
        maze.data@[ty * maze.width + tx],
    )
}

/// The tile blits of a view, row by row: for each row from `min_ty` to
/// `max_ty`, the tiles of the columns from `min_tx` to `max_tx` (nothing
/// when either range is empty). Which texture each value takes, and the
/// copying, are left to the caller.
pub fn tile_blits(maze: &Maze, view: &TileView) -> (r: Vec<Vec<(i32, i32, u8)>>)
    requires
        maze.wf(),
        0 <= view.min_tx,
        view.max_tx < maze.width,
        0 <= view.min_ty,
        view.max_ty < maze.height,
        -0x4000_0000 <= view.offset_x <= 0x4000_0000,
        -0x4000_0000 <= view.offset_y <= 0x4000_0000,
    ensures
        view.min_tx > view.max_tx || view.min_ty > view.max_ty ==> r@.len() == 0,
        view.min_tx <= view.max_tx && view.min_ty <= view.max_ty ==> {
            &&& r@.len() == view.max_ty - view.min_ty + 1
            &&& forall|j: int|
                0 <= j < r@.len() ==> (#[trigger] r@[j])@.len() == view.max_tx - view.min_tx + 1 && forall|i: int|
                    0 <= i < r@[j]@.len() ==> #[trigger] r@[j]@[i] == blit_entry(
                        *maze,
                        view.offset_x as int,
                        view.offset_y as int,
                        view.min_tx + i,
                        view.min_ty + j,
                    )
        },
{
    let mut r: Vec<Vec<(i32, i32, u8)>> = Vec::new();
    if view.min_tx > view.max_tx || view.min_ty > view.max_ty {
        return r;
    }
    proof {
        let w = maze.width as int;
        let h = maze.height as int;
        assert(w <= 4096 && h <= 4096) by (nonlinear_arith)
            requires
                1 <= w,
                1 <= h,
                w * h <= 4096,
        ;
    }
    let tile_w = maze.tile_width as i32;
    let tile_h = maze.tile_height as i32;
    let width = maze.width as usize;
    proof {
        let (a, b, c, d) = (view.min_tx as int, view.min_ty as int, tile_w as int, tile_h as int);
        assert(0 <= a * c <= 4096 * 4096 && 0 <= b * d <= 4096 * 4096) by (nonlinear_arith)
            requires
                0 <= a < 4096,
                0 <= b < 4096,
                1 <= c <= 4096,
                1 <= d <= 4096,
        ;
    }
    let first_screen_x = view.min_tx * tile_w - view.offset_x;
    let first_screen_y = view.min_ty * tile_h - view.offset_y;
    let mut ty = view.min_ty;
    while ty <= view.max_ty
        invariant
            maze.wf(),
            maze.width <= 4096,
            maze.height <= 4096,
            0 <= view.min_tx <= view.max_tx < maze.width,
            0 <= view.min_ty <= view.max_ty < maze.height,
            -0x4000_0000 <= view.offset_x <= 0x4000_0000,
            -0x4000_0000 <= view.offset_y <= 0x4000_0000,
            view.min_ty <= ty <= view.max_ty + 1,
            tile_w == maze.tile_width,
            tile_h == maze.tile_height,
            width == maze.width,
            first_screen_x == view.min_tx * tile_w - view.offset_x,
            first_screen_y == view.min_ty * tile_h - view.offset_y,
            0 <= view.min_tx * tile_w <= 4096 * 4096,
            0 <= view.min_ty * tile_h <= 4096 * 4096,
            r@.len() == ty - view.min_ty,
            forall|j: int|
                0 <= j < r@.len() ==> (#[trigger] r@[j])@.len() == view.max_tx - view.min_tx + 1 && forall|i: int|
                    0 <= i < r@[j]@.len() ==> #[trigger] r@[j]@[i] == blit_entry(
                        *maze,
                        view.offset_x as int,
                        view.offset_y as int,
                        view.min_tx + i,
                        view.min_ty + j,
                    ),
        decreases view.max_ty + 1 - ty,
    {
        proof {
            let (k, m, d) = ((ty - view.min_ty) as int, view.min_ty as int, tile_h as int);
            assert(0 <= k * d <= 4096 * 4096 && (m + k) * d == m * d + k * d) by (nonlinear_arith)
                requires
                    0 <= k < 4096,
                    1 <= d <= 4096,
            ;
        }
        let screen_y = first_screen_y + (ty - view.min_ty) * tile_h;
        proof {
            let (t, w) = (ty as int, maze.width as int);
            assert(0 <= t * w && t * w + w <= 4096) by (nonlinear_arith)
                requires
                    0 <= t < maze.height,
                    1 <= w,
                    maze.height * w <= 4096,
            ;
        }
        let maze_row_start = ty as usize * width;
        let mut row: Vec<(i32, i32, u8)> = Vec::new();
        let mut tx = view.min_tx;
        while tx <= view.max_tx
            invariant
                maze.wf(),
                0 <= view.min_tx <= view.max_tx < maze.width,
                view.min_ty <= ty <= view.max_ty,
                0 <= view.min_ty,
                view.max_ty < maze.height,
                maze.width <= 4096,
                -0x4000_0000 <= view.offset_x <= 0x4000_0000,
                view.min_tx <= tx <= view.max_tx + 1,
                tile_w == maze.tile_width,
                tile_h == maze.tile_height,
                width == maze.width,
                maze_row_start == ty * maze.width,
                maze_row_start + maze.width <= 4096,
                first_screen_x == view.min_tx * tile_w - view.offset_x,
                0 <= view.min_tx * tile_w <= 4096 * 4096,
                screen_y == (ty * maze.tile_height - view.offset_y),
                row@.len() == tx - view.min_tx,
                forall|i: int|
                    0 <= i < row@.len() ==> #[trigger] row@[i] == blit_entry(
                        *maze,
                        view.offset_x as int,
                        view.offset_y as int,
                        view.min_tx + i,
                        ty as int,
                    ),
            decreases view.max_tx + 1 - tx,
        {
            proof {
                let (k, m, c) = ((tx - view.min_tx) as int, view.min_tx as int, tile_w as int);
                assert(0 <= k * c <= 4096 * 4096 && (m + k) * c == m * c + k * c) by (nonlinear_arith)
                    requires
                        0 <= k < 4096,
                        1 <= c <= 4096,
                ;
            }
            let screen_x = first_screen_x + (tx - view.min_tx) * tile_w;
            let tile_index = maze_row_start + tx as usize;
            let tile = maze.data[tile_index];
            row.push((screen_x, screen_y, tile));
            tx += 1;
        }
        r.push(row);
        ty += 1;
    }
    r
}

/// Where a coin goes on a `display_width` x `display_height` screen whose
/// top-left pixel is world pixel (offset_x, offset_y): `None` for a removed
/// coin (either coordinate -1) and for one that lies wholly off the screen.
pub open spec fn coin_screen_spot(
    c: Coin,
    offset_x: int,
    offset_y: int,
    tile_w: int,
    tile_h: int,
    display_width: int,
    display_height: int,
) -> Option<(i32, i32)> {
    let sx = c.x - offset_x;
    let sy = c.y - offset_y;
    if c.x == -1 || c.y == -1 {
        None
    } else if sx + tile_w <= 0 || sy + tile_h <= 0 || sx >= display_width || sy >= display_height {
        None
    } else {
        Some((sx as i32, sy as i32))
    }
}

/// The screen positions of the coins of `s` that are drawn, in order.
pub open spec fn coins_drawn(
    s: Seq<Coin>,
    offset_x: int,
    offset_y: int,
    tile_w: int,
    tile_h: int,
    display_width: int,
    display_height: int,
) -> Seq<(i32, i32)>
    decreases s.len(),
{
    if s.len() == 0 {
        Seq::empty()
    } else {
        let rest = coins_drawn(s.drop_last(), offset_x, offset_y, tile_w, tile_h, display_width, display_height);
        match coin_screen_spot(s.last(), offset_x, offset_y, tile_w, tile_h, display_width, display_height) {
            Some(p) => rest.push(p),
            None => rest,
        }
    }
}

/// The coins to draw for a camera at (offset_x, offset_y); see
/// [`coin_screen_spot`].
pub fn visible_coins(maze: &Maze, offset_x: i32, offset_y: i32, display_width: i32, display_height: i32) -> (r: Vec<
    (i32, i32),
>)
    requires
        maze.wf(),
        forall|i: int|
            0 <= i < maze.coins@.len() ==> {
                let c = #[trigger] maze.coins@[i];
                &&& i32::MIN <= c.x - offset_x
                &&& c.x - offset_x + maze.tile_width <= i32::MAX
                &&& i32::MIN <= c.y - offset_y
                &&& c.y - offset_y + maze.tile_height <= i32::MAX
            },
    ensures
        r@ == coins_drawn(
            maze.coins@,
            offset_x as int,
            offset_y as int,
            maze.tile_width as int,
            maze.tile_height as int,
            display_width as int,
            display_height as int,
        ),
{
    let tile_w = maze.tile_width as i32;
    let tile_h = maze.tile_height as i32;
    let ghost s = maze.coins@;
    let mut r: Vec<(i32, i32)> = Vec::new();
    let mut k: usize = 0;
    assert(s.take(0) =~= Seq::<Coin>::empty());
    while k < maze.coins.len()
        invariant
            k <= s.len(),
            s == maze.coins@,
            maze.wf(),
            tile_w == maze.tile_width,
            tile_h == maze.tile_height,
            forall|i: int|
                0 <= i < s.len() ==> {
                    let c = #[trigger] s[i];
                    &&& i32::MIN <= c.x - offset_x
                    &&& c.x - offset_x + tile_w <= i32::MAX
                    &&& i32::MIN <= c.y - offset_y
                    &&& c.y - offset_y + tile_h <= i32::MAX
                },
            r@ == coins_drawn(
                s.take(k as int),
                offset_x as int,
                offset_y as int,
                tile_w as int,
                tile_h as int,
                display_width as int,
                display_height as int,
            ),
        decreases s.len() - k,
    {
        let coin = maze.coins[k];
        proof {
            assert(s.take(k + 1).drop_last() =~= s.take(k as int));
            assert(s.take(k + 1).last() == coin);
        }
        if coin.x == -1 || coin.y == -1 {
            k += 1;
            continue;
        }
        let screen_x = coin.x - offset_x;
        let screen_y = coin.y - offset_y;
        if screen_x + tile_w <= 0 || screen_y + tile_h <= 0 || screen_x >= display_width || screen_y
            >= display_height {
            k += 1;
            continue;
        }
        r.push((screen_x, screen_y));
        k += 1;
    }
    assert(s.take(s.len() as int) =~= s);
    r
}

/// The camera offset of the ESP32-P4 board: centred on the player, then
/// held inside the maze's drawn area (horizontally between -288 and -16,
/// vertically between 4 and 436, with the jumps at -287 and 420 that the
/// board shows).
pub open spec fn capped_offset(player_x: int, player_y: int, display_width: int, display_height: int) -> (int, int) {
    let ox = player_x - display_width / 2;
    let oy = player_y - display_height / 2;
    let cx = if ox < -287 {
        -288
    } else if ox > -16 {
        -16
    } else {
        ox
    };
    let cy = if oy < 4 {
        4
    } else if oy > 420 {
        436
    } else {
        oy
    };
    (cx, cy)
}

/// The camera offset for a player at world pixel (player_x, player_y); see [`capped_offset`].
pub fn camera_offset(player_x: i32, player_y: i32, display_width: i32, display_height: i32) -> (r: (i32, i32))
    requires
        0 <= display_width,
        0 <= display_height,
        i32::MIN + display_width / 2 <= player_x,
        i32::MIN + display_height / 2 <= player_y,
    ensures
        (r.0 as int, r.1 as int) == capped_offset(
            player_x as int,
            player_y as int,
            display_width as int,
            display_height as int,
        ),
{
    let display_center_x = display_width / 2;
    let display_center_y = display_height / 2;
    let mut offset_x: i32 = player_x - display_center_x;
    let mut offset_y: i32 = player_y - display_center_y;
    // capping movement of the camera on the horizontal axis
    if offset_x < -287 {
        offset_x = -288;
    } else if offset_x > -16 {
        offset_x = -16;
    }
    // capping movement of the camera on the vertical axis
    if offset_y < 4 {
        offset_y = 4;
    } else if offset_y > 420 {
        offset_y = 436;
    }
    (offset_x, offset_y)
}

/// A texture decoded once into a contiguous pixel buffer, row by row.
pub struct FastTexture<T> {
    pub pixels: Vec<T>,
    pub width: usize,
    pub height: usize,
}

impl<T> FastTexture<T> {
    pub open spec fn wf(self) -> bool {
        self.pixels@.len() == self.width * self.height
    }
}

/// The region that `blit_opaque` copies: the first source column and row,
/// the first destination column and row, and the width and height copied
/// (both 0 when nothing is copied).
pub open spec fn blit_region(dw: int, dh: int, tw: int, th: int, dx: int, dy: int) -> (int, int, int, int, int, int) {
    let sx0 = if dx < 0 { -dx } else { 0 };
    let sy0 = if dy < 0 { -dy } else { 0 };
    let dx0 = max_int(dx, 0);
    let dy0 = max_int(dy, 0);
    if dx >= dw || dy >= dh || dx + tw <= 0 || dy + th <= 0 {
        (0, 0, 0, 0, 0, 0)
    } else if sx0 >= tw || sy0 >= th || dx0 >= dw || dy0 >= dh {
        (0, 0, 0, 0, 0, 0)
    } else {
        (sx0, sy0, dx0, dy0, min_int(tw - sx0, dw - dx0), min_int(th - sy0, dh - dy0))
    }
}

/// The source pixel that ends up at destination index `i`, if any.
pub open spec fn blit_source(dw: int, dh: int, tw: int, th: int, dx: int, dy: int, i: int) -> Option<int> {
    let (sx0, sy0, dx0, dy0, cw, ch) = blit_region(dw, dh, tw, th, dx, dy);
    let row = i / dw;
    let col = i % dw;
    if dy0 <= row < dy0 + ch && dx0 <= col < dx0 + cw {
        Some((sy0 + row - dy0) * tw + sx0 + col - dx0)
    } else {
        None
    }
}

/// Same as `blit_source`, for the rows before `r` and the first `c` columns of row `r`.
pub open spec fn blit_source_upto(dw: int, dh: int, tw: int, th: int, dx: int, dy: int, r: int, c: int, i: int) -> Option<int> {
    let (sx0, sy0, dx0, dy0, cw, ch) = blit_region(dw, dh, tw, th, dx, dy);
    let row = i / dw;
    let col = i % dw;
    if (dy0 <= row < dy0 + r && dx0 <= col < dx0 + cw) || (row == dy0 + r && dx0 <= col < dx0 + c) {
        Some((sy0 + row - dy0) * tw + sx0 + col - dx0)
    } else {
        None
    }
}

/// A blit that lies wholly inside the framebuffer reads back as the
/// texture: the pixel `c` columns right of and `r` rows below the spot where
/// the texture's corner went comes from the texture's pixel (c, r).
pub proof fn lemma_blit_reads_back(dw: int, dh: int, tw: int, th: int, dx: int, dy: int, c: int, r: int)
    requires
        0 <= dx,
        dx + tw <= dw,
        0 <= dy,
        dy + th <= dh,
        0 <= c < tw,
        0 <= r < th,
    ensures
        blit_source(dw, dh, tw, th, dx, dy, (dy + r) * dw + dx + c) == Some(r * tw + c),
{
    let i = (dy + r) * dw + dx + c;
    lemma_fundamental_div_mod_converse(i, dw, dy + r, dx + c);
    assert(blit_region(dw, dh, tw, th, dx, dy) == (0int, 0int, dx, dy, tw, th));
}

/// Copies an opaque texture directly into the framebuffer, clipped against
/// all four sides of the `destination_width` x `destination_height` buffer,
/// with the texture's top-left pixel going to (destination_x, destination_y).
#[verifier::spinoff_prover]
pub fn blit_opaque<T: Copy>(
    destination: &mut [T],
    destination_width: usize,
    destination_height: usize,
    texture: &FastTexture<T>,
    destination_x: i32,
    destination_y: i32,
)
    requires
        texture.wf(),
        destination_width * destination_height <= old(destination)@.len(),
        destination_width <= i32::MAX,
        destination_height <= i32::MAX,
        texture.width <= i32::MAX,
        texture.height <= i32::MAX,
        destination_x + texture.width <= i32::MAX,
        destination_y + texture.height <= i32::MAX,
    ensures
        final(destination)@.len() == old(destination)@.len(),
        forall|i: int|
            0 <= i < old(destination)@.len() ==> #[trigger] final(destination)@[i] == match blit_source(
                destination_width as int,
                destination_height as int,
                texture.width as int,
                texture.height as int,
                destination_x as int,
                destination_y as int,
                i,
            ) {
                Some(j) => texture.pixels@[j],
                None => old(destination)@[i],
            },
{
    let ghost dw = destination_width as int;
    let ghost dh = destination_height as int;
    let ghost tw = texture.width as int;
    let ghost th = texture.height as int;
    let ghost dxi = destination_x as int;
    let ghost dyi = destination_y as int;
    let ghost d0 = destination@;
    // Reject textures completely outside the display.
    if destination_x >= destination_width as i32 || destination_y >= destination_height as i32
        || destination_x + texture.width as i32 <= 0 || destination_y + texture.height as i32 <= 0 {
        return;
    }
    // Clip the source against the left side of the framebuffer.
    let source_x_start = if destination_x < 0 {
        (-destination_x) as usize
    } else {
        0
    };
    // Clip the source against the top side of the framebuffer.
    let source_y_start = if destination_y < 0 {
        (-destination_y) as usize
    } else {
        0
    };
    let destination_x_start = if destination_x > 0 {
        destination_x as usize
    } else {
        0
    };
    let destination_y_start = if destination_y > 0 {
        destination_y as usize
    } else {
        0
    };
    if source_x_start >= texture.width || source_y_start >= texture.height || destination_x_start
        >= destination_width || destination_y_start >= destination_height {
        return;
    }
    // Clip against the right side of the framebuffer.
    let copy_width = if texture.width - source_x_start <= destination_width - destination_x_start {
        texture.width - source_x_start
    } else {
        destination_width - destination_x_start
    };
    // Clip against the bottom side of the framebuffer.
    let copy_height = if texture.height - source_y_start <= destination_height - destination_y_start {
        texture.height - source_y_start
    } else {
        destination_height - destination_y_start
    };
    let ghost region = blit_region(dw, dh, tw, th, dxi, dyi);
    assert(region == (
        source_x_start as int,
        source_y_start as int,
        destination_x_start as int,
        destination_y_start as int,
        copy_width as int,
        copy_height as int,
    ));
    if copy_width == 0 || copy_height == 0 {
        return;
    }
    let tex_len = texture.pixels.len();
    let dest_len = destination.len();
    let mut row: usize = 0;
    while row < copy_height
        invariant
            tex_len == texture.pixels@.len(),
            dest_len == destination@.len(),
            row <= copy_height,
            destination@.len() == d0.len(),
            dw == destination_width,
            dh == destination_height,
            tw == texture.width,
            th == texture.height,
            texture.wf(),
            dw * dh <= d0.len(),
            1 <= dw,
            region == (
                source_x_start as int,
                source_y_start as int,
                destination_x_start as int,
                destination_y_start as int,
                copy_width as int,
                copy_height as int,
            ),
            region == blit_region(dw, dh, tw, th, dxi, dyi),
            source_x_start + copy_width <= tw,
            source_y_start + copy_height <= th,
            destination_x_start + copy_width <= dw,
            destination_y_start + copy_height <= dh,
            forall|i: int|
                0 <= i < d0.len() ==> #[trigger] destination@[i] == match blit_source_upto(
                    dw,
                    dh,
                    tw,
                    th,
                    dxi,
                    dyi,
                    row as int,
                    0,
                    i,
                ) {
                    Some(j) => texture.pixels@[j],
                    None => d0[i],
                },
        decreases copy_height - row,
    {
        let mut col: usize = 0;
        while col < copy_width
            invariant
                tex_len == texture.pixels@.len(),
                dest_len == destination@.len(),
                row < copy_height,
                col <= copy_width,
                destination@.len() == d0.len(),
                dw == destination_width,
                dh == destination_height,
                tw == texture.width,
                th == texture.height,
                texture.wf(),
                dw * dh <= d0.len(),
                1 <= dw,
                region == (
                    source_x_start as int,
                    source_y_start as int,
                    destination_x_start as int,
                    destination_y_start as int,
                    copy_width as int,
                    copy_height as int,
                ),
                region == blit_region(dw, dh, tw, th, dxi, dyi),
                source_x_start + copy_width <= tw,
                source_y_start + copy_height <= th,
                destination_x_start + copy_width <= dw,
                destination_y_start + copy_height <= dh,
                forall|i: int|
                    0 <= i < d0.len() ==> #[trigger] destination@[i] == match blit_source_upto(
                        dw,
                        dh,
                        tw,
                        th,
                        dxi,
                        dyi,
                        row as int,
                        col as int,
                        i,
                    ) {
                        Some(j) => texture.pixels@[j],
                        None => d0[i],
                    },
            decreases copy_width - col,
        {
            let ghost srow = source_y_start + row;
            let ghost drow = destination_y_start + row;
            proof {
                assert(srow * tw + source_x_start + col < tw * th) by (nonlinear_arith)
                    requires
                        srow < th,
                        source_x_start + col < tw,
                        0 <= srow,
                ;
                assert(drow * dw + destination_x_start + col < dw * dh) by (nonlinear_arith)
                    requires
                        drow < dh,
                        destination_x_start + col < dw,
                        0 <= drow,
                ;
                assert(0 <= srow * tw) by (nonlinear_arith)
                    requires
                        0 <= srow,
                        0 <= tw,
                ;
                assert(0 <= drow * dw) by (nonlinear_arith)
                    requires
                        0 <= drow,
                        0 <= dw,
                ;
            }
            let source_index = (source_y_start + row) * texture.width + source_x_start + col;
            let destination_index = (destination_y_start + row) * destination_width + destination_x_start + col;
            let ghost before = destination@;
            let v = texture.pixels[source_index];
            destination[destination_index] = v;
            proof {
                let k = destination_index as int;
                lemma_fundamental_div_mod_converse(k, dw, drow as int, (destination_x_start + col) as int);
                assert forall|i: int|
                    0 <= i < d0.len() implies #[trigger] destination@[i] == match blit_source_upto(
                        dw,
                        dh,
                        tw,
                        th,
                        dxi,
                        dyi,
                        row as int,
                        col + 1,
                        i,
                    ) {
                        Some(j) => texture.pixels@[j],
                        None => d0[i],
                    } by {
                    lemma_fundamental_div_mod(i, dw);
                    if i == k {
                    } else {
                        assert(before[i] == destination@[i]);
                        if i / dw == drow && i % dw == destination_x_start + col {
                            let q = i / dw;
                            assert(dw * q == drow * dw) by (nonlinear_arith)
                                requires
                                    q == drow,
                            ;
                            assert(i == k);
                        }
                    }
                }
            }
            col += 1;
        }
        proof {
            assert forall|i: int|
                0 <= i < d0.len() implies #[trigger] destination@[i] == match blit_source_upto(
                    dw,
                    dh,
                    tw,
                    th,
                    dxi,
                    dyi,
                    row + 1,
                    0,
                    i,
                ) {
                    Some(j) => texture.pixels@[j],
                    None => d0[i],
                } by {
                assert(blit_source_upto(dw, dh, tw, th, dxi, dyi, row + 1, 0, i) == blit_source_upto(
                    dw,
                    dh,
                    tw,
                    th,
                    dxi,
                    dyi,
                    row as int,
                    copy_width as int,
                    i,
                ));
            }
        }
        row += 1;
    }
    proof {
        assert forall|i: int|
            0 <= i < d0.len() implies #[trigger] destination@[i] == match blit_source(dw, dh, tw, th, dxi, dyi, i) {
                Some(j) => texture.pixels@[j],
                None => d0[i],
            } by {
            assert(blit_source(dw, dh, tw, th, dxi, dyi, i) == blit_source_upto(
                dw,
                dh,
                tw,
                th,
                dxi,
                dyi,
                copy_height as int,
                0,
                i,
            ));
        }
    }
}

/// A decoded BMP image: its size and its pixels as the decoder yields them,
/// each a position and an RGB565 colour.
pub struct DecodedBmp {
    pub width: u32,
    pub height: u32,
    pub pixels: Vec<(i32, i32, u16)>,
}

/// What tinybmp makes of a byte string read as an RGB565 image: `None` when
/// it is not a BMP file that tinybmp reads, otherwise the image's width and
/// height and the pixels that it yields, in order.
pub uninterp spec fn bmp_decoded(bytes: Seq<u8>) -> Option<(u32, u32, Seq<(i32, i32, u16)>)>;

/// `tinybmp::Bmp::<Rgb565>::from_slice`, then the image's `size` and the
/// positions and raw colours of its `pixels`. What comes out is stated only
/// through the name `bmp_decoded` of the bytes.
#[verifier::external_body]
fn bmp_decode(bytes: &[u8]) -> (r: Option<DecodedBmp>)
    ensures
        match r {
            Some(d) => bmp_decoded(bytes@) == Some((d.width, d.height, d.pixels@)),
            None => bmp_decoded(bytes@) is None,
        },
{
    let bmp = Bmp::<Rgb565>::from_slice(bytes).ok()?;
    let size = bmp.size();
    let pixels = bmp.pixels().map(|Pixel(p, c)| (p.x, p.y, RawU16::from(c).into_inner())).collect();
    Some(DecodedBmp { width: size.width, height: size.height, pixels })
}

/// The colour that decoding leaves at index `i` of a `w` x `h` buffer after
/// the first `k` pixels: the last of them that lies on the buffer and falls
/// on `i`, or black (0) when none does.
pub open spec fn painted(px: Seq<(i32, i32, u16)>, w: int, h: int, i: int, k: int) -> u16
    decreases k,
{
    if k <= 0 {
        0u16
    } else {
        let (x, y, c) = px[k - 1];
        if 0 <= x < w && 0 <= y < h && y * w + x == i {
            c
        } else {
            painted(px, w, h, i, k - 1)
        }
    }
}

impl FastTexture<u16> {
    /// Decode an image once into a row-by-row buffer: black where no pixel
    /// lands, and pixels off the image skipped.
    pub fn from_bmp(bmp: &DecodedBmp) -> (r: FastTexture<u16>)
        requires
            bmp.width * bmp.height <= usize::MAX,
        ensures
            r.wf(),
            r.width == bmp.width,
            r.height == bmp.height,
            forall|i: int|
                0 <= i < r.pixels@.len() ==> #[trigger] r.pixels@[i] == painted(
                    bmp.pixels@,
                    bmp.width as int,
                    bmp.height as int,
                    i,
                    bmp.pixels@.len() as int,
                ),
    {
        let width = bmp.width as usize;
        let height = bmp.height as usize;
        let ghost w = width as int;
        let ghost h = height as int;
        let mut pixels: Vec<u16> = vec![0u16; width * height];
        assert forall|i: int| 0 <= i < pixels@.len() implies #[trigger] pixels@[i] == painted(
            bmp.pixels@,
            w,
            h,
            i,
            0,
        ) by {}
        let mut k: usize = 0;
        while k < bmp.pixels.len()
            invariant
                k <= bmp.pixels@.len(),
                width == bmp.width,
                height == bmp.height,
                w == width,
                h == height,
                pixels@.len() == width * height,
                width * height <= usize::MAX,
                forall|i: int|
                    0 <= i < pixels@.len() ==> #[trigger] pixels@[i] == painted(bmp.pixels@, w, h, i, k as int),
            decreases bmp.pixels@.len() - k,
        {
            let (x, y, c) = bmp.pixels[k];
            if x >= 0 && y >= 0 && (x as usize) < width && (y as usize) < height {
                proof {
                    assert(0 <= y * w + x < w * h) by (nonlinear_arith)
                        requires
                            0 <= x < w,
                            0 <= y < h,
                    ;
                }
                let index = y as usize * width + x as usize;
                pixels.set(index, c);
            }
            k += 1;
        }
        FastTexture { pixels, width, height }
    }
}

/// Decode a BMP file into a texture, or `None` when tinybmp does not read it
/// or its pixel count does not fit in memory addresses.
pub fn texture_from_bmp(bytes: &[u8]) -> (r: Option<FastTexture<u16>>)
    ensures
        match bmp_decoded(bytes@) {
            Some((w, h, px)) => if w * h <= usize::MAX {
                r matches Some(t) && t.wf() && t.width == w && t.height == h && forall|i: int|
                    0 <= i < t.pixels@.len() ==> #[trigger] t.pixels@[i] == painted(
                        px,
                        w as int,
                        h as int,
                        i,
                        px.len() as int,
                    )
            } else {
                r is None
            },
            None => r is None,
        },
{
    match bmp_decode(bytes) {
        Some(decoded) => {
            let w = decoded.width as usize;
            let h = decoded.height as usize;
            match w.checked_mul(h) {
                Some(_) => Some(FastTexture::from_bmp(&decoded)),
                None => None,
            }
        },
        None => None,
    }
}

} // verus!
