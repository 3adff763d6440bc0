//! A picture of the cells of a terminal, for debugging.

use crate::ratty_vt::attrs::Color;
use crate::ratty_vt::cell::CellModel;
use crate::ratty_vt::screen_model::ScreenModel;
use crate::ratty_vt::Screen;
use vstd::prelude::*;

verus! {

/// A color with its alpha channel.
#[derive(Clone, Copy, Debug, PartialEq, Eq, Structural)]
pub struct Rgba {
    pub red: u8,
    pub green: u8,
    pub blue: u8,
    pub alpha: u8,
}

impl Rgba {
    /// One of the four bytes of a pixel.
    pub open spec fn channel(self, k: int) -> u8 {
        if k == 0 {
            self.red
        } else if k == 1 {
            self.green
        } else if k == 2 {
            self.blue
        } else {
            self.alpha
        }
    }
}

pub open spec fn solid(red: u8, green: u8, blue: u8) -> Rgba {
    Rgba { red, green, blue, alpha: 255 }
}

pub open spec fn debug_background() -> Rgba {
    solid(18, 20, 28)
}

pub open spec fn debug_grid() -> Rgba {
    solid(33, 36, 48)
}

pub open spec fn debug_grid_outline() -> Rgba {
    solid(51, 57, 72)
}

pub open spec fn debug_cursor() -> Rgba {
    solid(126, 156, 216)
}

pub open spec fn debug_foreground_fallback() -> Rgba {
    solid(220, 215, 186)
}

pub open spec fn debug_background_fallback() -> Rgba {
    solid(31, 31, 40)
}

pub open spec fn bold_outline() -> Rgba {
    Rgba { red: 255, green: 255, blue: 255, alpha: 90 }
}

fn opaque(red: u8, green: u8, blue: u8) -> (r: Rgba)
    ensures
        r == solid(red, green, blue),
{
    Rgba { red, green, blue, alpha: 255 }
}

/// A step of the color cube.
pub open spec fn cube_channel(step: int) -> u8 {
    if step == 0 {
        0
    } else {
        (55 + step * 40) as u8
    }
}

/// One of the sixteen named colors.
pub open spec fn named_color(index: u8) -> Rgba {
    if index == 7 {
        solid(192, 192, 192)
    } else if index == 8 {
        solid(128, 128, 128)
    } else {
        let level: u8 = if index < 8 {
            128
        } else {
            255
        };
        solid(
            if index % 2 == 1 {
                level
            } else {
                0
            },
            if index / 2 % 2 == 1 {
                level
            } else {
                0
            },
            if index / 4 % 2 == 1 {
                level
            } else {
                0
            },
        )
    }
}

/// The color of an index: the named colors, a cube of six steps for each channel,
/// and a ramp of grays.
pub open spec fn indexed_color(index: u8) -> Rgba {
    if index < 16 {
        named_color(index)
    } else if index < 232 {
        let place = index - 16;
        solid(
            cube_channel(place / 36),
            cube_channel(place % 36 / 6),
            cube_channel(place % 6),
        )
    } else {
        let shade = (8 + (index - 232) * 10) as u8;
        solid(shade, shade, shade)
    }
}

fn cube_step(step: u8) -> (r: u8)
    requires
        step < 6,
    ensures
        r == cube_channel(step as int),
{
    if step == 0 {
        0
    } else {
        55 + step * 40
    }
}

pub fn ansi_index_to_rgba(index: u8) -> (r: Rgba)
    ensures
        r == indexed_color(index),
{
    match index {
        0 => opaque(0, 0, 0),
        1 => opaque(128, 0, 0),
        2 => opaque(0, 128, 0),
        3 => opaque(128, 128, 0),
        4 => opaque(0, 0, 128),
        5 => opaque(128, 0, 128),
        6 => opaque(0, 128, 128),
        7 => opaque(192, 192, 192),
        8 => opaque(128, 128, 128),
        9 => opaque(255, 0, 0),
        10 => opaque(0, 255, 0),
        11 => opaque(255, 255, 0),
        12 => opaque(0, 0, 255),
        13 => opaque(255, 0, 255),
        14 => opaque(0, 255, 255),
        15 => opaque(255, 255, 255),
        _ => {
            if index < 232 {
                let place: u8 = index - 16;
                opaque(cube_step(place / 36), cube_step(place % 36 / 6), cube_step(place % 6))
            } else {
                let shade: u8 = 8 + (index - 232) * 10;
                opaque(shade, shade, shade)
            }
        },
    }
}

/// The color that a cell asks for, if it does.
pub open spec fn debug_color(color: Color) -> Option<Rgba> {
    match color {
        Color::Default => None,
        Color::Idx(index) => Some(indexed_color(index)),
        Color::Rgb(red, green, blue) => Some(solid(red, green, blue)),
    }
}

pub fn color_to_rgba(color: Color) -> (r: Option<Rgba>)
    ensures
        r == debug_color(color),
{
    match color {
        Color::Default => None,
        Color::Idx(index) => Some(ansi_index_to_rgba(index)),
        Color::Rgb(red, green, blue) => Some(opaque(red, green, blue)),
    }
}

/// What each value of a channel becomes when it fades into the background.
#[derive(Debug)]
pub struct FadeTable {
    pub red: [u8; 256],
    pub green: [u8; 256],
    pub blue: [u8; 256],
}

impl FadeTable {
    pub open spec fn faded(&self, color: Rgba) -> Rgba {
        solid(
            self.red@[color.red as int],
            self.green@[color.green as int],
            self.blue@[color.blue as int],
        )
    }

    pub fn fade(&self, color: Rgba) -> (r: Rgba)
        ensures
            r == self.faded(color),
    {
        opaque(
            self.red[color.red as usize],
            self.green[color.green as usize],
            self.blue[color.blue as usize],
        )
    }
}

/// A rectangle of pixels, without its right and its bottom.
#[derive(Clone, Copy, Debug, PartialEq, Eq, Structural)]
pub struct CellRect {
    pub x0: u32,
    pub y0: u32,
    pub x1: u32,
    pub y1: u32,
}

pub open spec fn less(a: u32, b: u32) -> u32 {
    if a < b {
        0
    } else {
        (a - b) as u32
    }
}

pub open spec fn more(a: u32, b: u32) -> u32 {
    if a + b > u32::MAX {
        u32::MAX
    } else {
        (a + b) as u32
    }
}

pub open spec fn min_u32(a: u32, b: u32) -> u32 {
    if a < b {
        a
    } else {
        b
    }
}

pub open spec fn max_u32(a: u32, b: u32) -> u32 {
    if a < b {
        b
    } else {
        a
    }
}

fn smaller_of(a: u32, b: u32) -> (r: u32)
    ensures
        r == min_u32(a, b),
{
    if a < b {
        a
    } else {
        b
    }
}

fn larger_of(a: u32, b: u32) -> (r: u32)
    ensures
        r == max_u32(a, b),
{
    if a < b {
        b
    } else {
        a
    }
}

impl CellRect {
    pub open spec fn holds(self, x: int, y: int) -> bool {
        self.x0 <= x < self.x1 && self.y0 <= y < self.y1
    }

    /// Whether no part lies outside an image, seen from its right and its bottom.
    pub open spec fn fits(self, width: u32, height: u32) -> bool {
        self.x1 <= width && self.y1 <= height
    }

    pub open spec fn spec_inset(self, amount: u32) -> CellRect {
        CellRect {
            x0: more(self.x0, amount),
            y0: more(self.y0, amount),
            x1: less(self.x1, amount),
            y1: less(self.y1, amount),
        }
    }

    pub fn inset(self, amount: u32) -> (r: Self)
        ensures
            r == self.spec_inset(amount),
    {
        CellRect {
            x0: self.x0.saturating_add(amount),
            y0: self.y0.saturating_add(amount),
            x1: self.x1.saturating_sub(amount),
            y1: self.y1.saturating_sub(amount),
        }
    }

    pub open spec fn spec_width(self) -> u32 {
        less(self.x1, self.x0)
    }

    pub open spec fn spec_height(self) -> u32 {
        less(self.y1, self.y0)
    }

    pub fn width(self) -> (r: u32)
        ensures
            r == self.spec_width(),
    {
        self.x1.saturating_sub(self.x0)
    }

    pub fn height(self) -> (r: u32)
        ensures
            r == self.spec_height(),
    {
        self.y1.saturating_sub(self.y0)
    }

    pub open spec fn centered(self, width: u32, height: u32) -> CellRect {
        let x0 = more(self.x0, less(self.spec_width(), width) / 2);
        let y0 = more(self.y0, less(self.spec_height(), height) / 2);
        CellRect {
            x0,
            y0,
            x1: min_u32(more(x0, width), self.x1),
            y1: min_u32(more(y0, height), self.y1),
        }
    }

    /// A part of some width and height in the middle, as far as it fits.
    pub fn centered_subrect(self, width: u32, height: u32) -> (r: Self)
        ensures
            r == self.centered(width, height),
    {
        let x0: u32 = self.x0.saturating_add(self.width().saturating_sub(width) / 2);
        let y0: u32 = self.y0.saturating_add(self.height().saturating_sub(height) / 2);
        CellRect {
            x0,
            y0,
            x1: smaller_of(x0.saturating_add(width), self.x1),
            y1: smaller_of(y0.saturating_add(height), self.y1),
        }
    }
}

/// Pixels of one color.
pub open spec fn filled(len: nat, color: Rgba) -> Seq<u8> {
    Seq::new(len, |i: int| color.channel(i % 4))
}

/// An image with a rectangle of one color. Pixels are row by row, four bytes each.
pub open spec fn rect_drawn(data: Seq<u8>, width: u32, rect: CellRect, color: Rgba) -> Seq<u8> {
    Seq::new(
        data.len(),
        |i: int|
            if rect.holds(i / 4 % (width as int), i / 4 / (width as int)) {
                color.channel(i % 4)
            } else {
                data[i]
            },
    )
}

/// An image with the four sides of a rectangle in one color.
pub open spec fn outline_drawn(data: Seq<u8>, width: u32, rect: CellRect, color: Rgba) -> Seq<u8> {
    if rect.x0 >= rect.x1 || rect.y0 >= rect.y1 {
        data
    } else {
        let top = rect_drawn(
            data,
            width,
            CellRect { y1: (rect.y0 + 1) as u32, ..rect },
            color,
        );
        let bottom = rect_drawn(top, width, CellRect { y0: (rect.y1 - 1) as u32, ..rect }, color);
        let left = rect_drawn(
            bottom,
            width,
            CellRect { x1: (rect.x0 + 1) as u32, ..rect },
            color,
        );
        rect_drawn(left, width, CellRect { x0: (rect.x1 - 1) as u32, ..rect }, color)
    }
}

/// The grid of cells on an image.
#[derive(Clone, Copy, Debug, PartialEq, Eq, Structural)]
pub struct CellGrid {
    pub width: u32,
    pub height: u32,
    pub cols: u32,
    pub rows: u32,
    pub cell_width: u32,
    pub cell_height: u32,
}

pub open spec fn cell_grid(width: u32, height: u32, cols: u16, rows: u16) -> CellGrid {
    let cols = max_u32(cols as u32, 1);
    let rows = max_u32(rows as u32, 1);
    CellGrid {
        width,
        height,
        cols,
        rows,
        cell_width: max_u32(width / cols, 1),
        cell_height: max_u32(height / rows, 1),
    }
}

impl CellGrid {
    pub open spec fn wf(self) -> bool {
        &&& 0 < self.cols <= u16::MAX
        &&& 0 < self.rows <= u16::MAX
        &&& self.cell_width == max_u32(self.width / self.cols, 1)
        &&& self.cell_height == max_u32(self.height / self.rows, 1)
        &&& self.width * self.height * 4 <= u32::MAX
    }

    pub fn new(width: u32, height: u32, cols: u16, rows: u16) -> (r: Self)
        ensures
            r == cell_grid(width, height, cols, rows),
            width * height * 4 <= u32::MAX ==> r.wf(),
    {
        let cols: u32 = larger_of(cols as u32, 1);
        let rows: u32 = larger_of(rows as u32, 1);
        CellGrid {
            width,
            height,
            cols,
            rows,
            cell_width: larger_of(width / cols, 1),
            cell_height: larger_of(height / rows, 1),
        }
    }

    /// The place of a cell. The picture is seen from behind: the first column is at
    /// the right. The last column and the last row take what is left.
    pub open spec fn rect(self, row: int, col: int) -> CellRect {
        let row = if row < self.rows {
            row
        } else {
            self.rows - 1
        };
        let col = if col < self.cols {
            col
        } else {
            self.cols - 1
        };
        let place = self.cols - 1 - col;
        CellRect {
            x0: (place * self.cell_width) as u32,
            y0: (row * self.cell_height) as u32,
            x1: if place + 1 == self.cols {
                self.width
            } else {
                min_u32(((place + 1) * self.cell_width) as u32, self.width)
            },
            y1: if row + 1 == self.rows {
                self.height
            } else {
                min_u32(((row + 1) * self.cell_height) as u32, self.height)
            },
        }
    }

    pub fn cell_rect(&self, row: u32, col: u32) -> (r: CellRect)
        requires
            self.wf(),
        ensures
            r == self.rect(row as int, col as int),
            r.fits(self.width, self.height),
    {
        let row: u32 = smaller_of(row, self.rows - 1);
        let col: u32 = smaller_of(col, self.cols - 1);
        let place: u32 = self.cols - 1 - col;
        proof {
            lemma_place_fits(self.width, self.cols, self.cell_width, place);
            lemma_place_fits(self.height, self.rows, self.cell_height, row);
        }
        let x0: u32 = place * self.cell_width;
        let y0: u32 = row * self.cell_height;
        let x1: u32 = if place + 1 == self.cols {
            self.width
        } else {
            smaller_of((place + 1) * self.cell_width, self.width)
        };
        let y1: u32 = if row + 1 == self.rows {
            self.height
        } else {
            smaller_of((row + 1) * self.cell_height, self.height)
        };
        CellRect { x0, y0, x1, y1 }
    }
}

proof fn lemma_place_fits(size: u32, count: u32, step: u32, place: u32)
    requires
        0 < count <= u16::MAX,
        place < count,
        step == max_u32(size / count, 1),
    ensures
        0 <= place * step <= u32::MAX,
        0 <= (place + 1) * step <= u32::MAX,
{
    if size / count >= 1 {
        assert(0 <= place * step <= (place + 1) * step <= count * step) by (nonlinear_arith)
            requires
                0 <= place < count,
                0 <= step,
        ;
        assert(count * (size / count) <= size) by (nonlinear_arith)
            requires
                0 < count,
                0 <= size,
        ;
    } else {
        assert(place * step == place && (place + 1) * step == place + 1) by (nonlinear_arith)
            requires
                step == 1,
        ;
    }
}

/// An image with the background of a cell.
pub open spec fn grid_drawn(data: Seq<u8>, grid: CellGrid, row: int, col: int) -> Seq<u8> {
    let rect = grid.rect(row, col);
    outline_drawn(
        rect_drawn(data, grid.width, rect, debug_grid()),
        grid.width,
        rect,
        debug_grid_outline(),
    )
}

/// The place of an underline: near the bottom of a cell.
pub open spec fn underline_rect(rect: CellRect) -> CellRect {
    CellRect {
        x0: more(rect.x0, 2),
        y0: less(rect.y1, 2),
        x1: less(rect.x1, 2),
        y1: less(rect.y1, 1),
    }
}

/// An image with what a cell looks like: its background, faded where there is no
/// text; a mark in its foreground where there is some; its underline, and an outline
/// where it is bold.
pub open spec fn cell_drawn(
    data: Seq<u8>,
    width: u32,
    rect: CellRect,
    cell: CellModel,
    fade: FadeTable,
) -> Seq<u8> {
    let background = match debug_color(cell.attrs.bgcolor) {
        Some(color) => color,
        None => debug_background_fallback(),
    };
    let foreground = match debug_color(cell.attrs.fgcolor) {
        Some(color) => color,
        None => debug_foreground_fallback(),
    };
    let active = cell.text.len() > 0 && !cell.continuation;
    let inside = rect_drawn(
        data,
        width,
        rect.spec_inset(1),
        if active {
            background
        } else {
            fade.faded(background)
        },
    );
    let marked = if active {
        rect_drawn(
            inside,
            width,
            rect.centered(
                max_u32(rect.spec_width() / 2, 2),
                max_u32(rect.spec_height() / 2, 2),
            ),
            foreground,
        )
    } else {
        inside
    };
    let underlined = if cell.attrs.underline {
        rect_drawn(marked, width, underline_rect(rect), foreground)
    } else {
        marked
    };
    if cell.attrs.intensity == crate::ratty_vt::attrs::Intensity::Bold {
        outline_drawn(underlined, width, rect.spec_inset(1), bold_outline())
    } else {
        underlined
    }
}

/// An image with the first cells of a row.
pub open spec fn row_drawn(
    data: Seq<u8>,
    grid: CellGrid,
    screen: ScreenModel,
    fade: FadeTable,
    row: int,
    cols: int,
) -> Seq<u8>
    decreases cols,
{
    if cols <= 0 {
        data
    } else {
        let before = row_drawn(data, grid, screen, fade, row, cols - 1);
        let blank = grid_drawn(before, grid, row, cols - 1);
        if row < screen.size().rows && cols - 1 < screen.active().visible()[row].cells.len() {
            cell_drawn(
                blank,
                grid.width,
                grid.rect(row, cols - 1),
                screen.active().visible()[row].cells[cols - 1],
                fade,
            )
        } else {
            blank
        }
    }
}

/// An image with the first rows.
pub open spec fn rows_drawn(
    data: Seq<u8>,
    grid: CellGrid,
    screen: ScreenModel,
    fade: FadeTable,
    rows: int,
) -> Seq<u8>
    decreases rows,
{
    if rows <= 0 {
        data
    } else {
        row_drawn(
            rows_drawn(data, grid, screen, fade, rows - 1),
            grid,
            screen,
            fade,
            rows - 1,
            grid.cols as int,
        )
    }
}

/// The picture of a screen: its cells, and an outline around its cursor.
pub open spec fn rendered(
    len: nat,
    grid: CellGrid,
    screen: ScreenModel,
    fade: FadeTable,
) -> Seq<u8> {
    let cells = rows_drawn(
        filled(len, debug_background()),
        grid,
        screen,
        fade,
        grid.rows as int,
    );
    if screen.modes.hide_cursor {
        cells
    } else {
        outline_drawn(
            cells,
            grid.width,
            grid.rect(screen.active().pos.row as int, screen.active().pos.col as int),
            debug_cursor(),
        )
    }
}

fn fill(data: &mut Vec<u8>, color: Rgba)
    requires
        old(data)@.len() % 4 == 0,
    ensures
        final(data)@ == filled(old(data)@.len(), color),
{
    let len: usize = data.len();
    let mut i: usize = 0;
    while i < len
        invariant
            i <= len == data@.len(),
            len % 4 == 0,
            i % 4 == 0,
            forall|k: int| 0 <= k < i ==> #[trigger] data@[k] == color.channel(k % 4),
        decreases len - i,
    {
        set_pixel(data, i, color);
        i = i + 4;
    }
    assert(data@ =~= filled(len as nat, color));
}

fn set_pixel(data: &mut Vec<u8>, place: usize, color: Rgba)
    requires
        place + 4 <= old(data)@.len(),
        place % 4 == 0,
    ensures
        final(data)@.len() == old(data)@.len(),
        forall|k: int|
            0 <= k < old(data)@.len() ==> #[trigger] final(data)@[k] == (if place <= k < place + 4 {
                color.channel(k % 4)
            } else {
                old(data)@[k]
            }),
{
    data[place] = color.red;
    data[place + 1] = color.green;
    data[place + 2] = color.blue;
    data[place + 3] = color.alpha;
}

/// Draws a rectangle.
pub fn draw_rect(data: &mut Vec<u8>, width: u32, height: u32, rect: CellRect, color: Rgba)
    requires
        old(data)@.len() == width * height * 4,
        width * height * 4 <= u32::MAX,
        rect.fits(width, height),
    ensures
        final(data)@ == rect_drawn(old(data)@, width, rect, color),
{
    if rect.x0 >= rect.x1 || rect.y0 >= rect.y1 {
        assert(data@ =~= rect_drawn(old(data)@, width, rect, color));
        return ;
    }
    let ghost start = data@;
    let mut y: u32 = rect.y0;
    while y < rect.y1
        invariant
            rect.x0 < rect.x1 <= width,
            rect.y0 <= y <= rect.y1 <= height,
            width * height * 4 <= u32::MAX,
            start.len() == width * height * 4,
            data@ =~= rect_drawn(start, width, CellRect { y1: y, ..rect }, color),
        decreases rect.y1 - y,
    {
        let mut x: u32 = rect.x0;
        let ghost above = data@;
        while x < rect.x1
            invariant
                rect.x0 <= x <= rect.x1 <= width,
                rect.y0 <= y < rect.y1 <= height,
                0 < width,
                width * height * 4 <= u32::MAX,
                start.len() == width * height * 4,
                above.len() == start.len(),
                data@ =~= rect_drawn(
                    above,
                    width,
                    CellRect { x0: rect.x0, x1: x, y0: y, y1: (y + 1) as u32 },
                    color,
                ),
            decreases rect.x1 - x,
        {
            proof {
                lemma_pixel_fits(width as int, height as int, x as int, y as int);
            }
            let place: u32 = (y * width + x) * 4;
            let ghost before = data@;
            set_pixel(data, place as usize, color);
            proof {
                let next = rect_drawn(
                    above,
                    width,
                    CellRect { x0: rect.x0, x1: (x + 1) as u32, y0: y, y1: (y + 1) as u32 },
                    color,
                );
                assert forall|k: int| 0 <= k < data@.len() implies data@[k] == next[k] by {
                    lemma_pixel_place(width as int, k, x as int, y as int);
                }
            }
            x = x + 1;
        }
        proof {
            let next = rect_drawn(start, width, CellRect { y1: (y + 1) as u32, ..rect }, color);
            assert forall|k: int| 0 <= k < data@.len() implies data@[k] == next[k] by {
                assert(above[k] == rect_drawn(start, width, CellRect { y1: y, ..rect }, color)[k]);
            }
        }
        y = y + 1;
    }
}

proof fn lemma_pixel_fits(width: int, height: int, x: int, y: int)
    requires
        0 <= x < width,
        0 <= y < height,
    ensures
        0 <= y * width,
        (y * width + x) * 4 + 4 <= width * height * 4,
{
    assert(y * width + width <= width * height) by (nonlinear_arith)
        requires
            0 <= y < height,
            0 <= width,
    ;
    assert(0 <= y * width) by (nonlinear_arith)
        requires
            0 <= y,
            0 <= width,
    ;
}

/// The bytes of a pixel are those whose place says so.
proof fn lemma_pixel_place(width: int, k: int, x: int, y: int)
    requires
        0 <= x < width,
        0 <= y,
        0 <= k,
    ensures
        ((y * width + x) * 4 <= k < (y * width + x) * 4 + 4) <==> (k / 4 % width == x && k / 4
            / width == y),
{
    let pixel = k / 4;
    assert(((y * width + x) * 4 <= k < (y * width + x) * 4 + 4) <==> pixel == y * width + x);
    if pixel == y * width + x {
        vstd::arithmetic::div_mod::lemma_fundamental_div_mod_converse(pixel, width, y, x);
    }
    if pixel % width == x && pixel / width == y {
        vstd::arithmetic::div_mod::lemma_fundamental_div_mod(pixel, width);
        assert(width * y == y * width) by (nonlinear_arith);
    }
}

/// Draws the four sides of a rectangle.
pub fn draw_rect_outline(data: &mut Vec<u8>, width: u32, height: u32, rect: CellRect, color: Rgba)
    requires
        old(data)@.len() == width * height * 4,
        width * height * 4 <= u32::MAX,
        rect.fits(width, height),
    ensures
        final(data)@ == outline_drawn(old(data)@, width, rect, color),
{
    if rect.x0 >= rect.x1 || rect.y0 >= rect.y1 {
        return ;
    }
    draw_rect(
        data,
        width,
        height,
        CellRect { x0: rect.x0, y0: rect.y0, x1: rect.x1, y1: rect.y0 + 1 },
        color,
    );
    draw_rect(
        data,
        width,
        height,
        CellRect { x0: rect.x0, y0: rect.y1 - 1, x1: rect.x1, y1: rect.y1 },
        color,
    );
    draw_rect(
        data,
        width,
        height,
        CellRect { x0: rect.x0, y0: rect.y0, x1: rect.x0 + 1, y1: rect.y1 },
        color,
    );
    draw_rect(
        data,
        width,
        height,
        CellRect { x0: rect.x1 - 1, y0: rect.y0, x1: rect.x1, y1: rect.y1 },
        color,
    );
}

/// Draws what a cell looks like.
fn draw_cell(
    data: &mut Vec<u8>,
    grid: &CellGrid,
    rect: CellRect,
    cell: &crate::ratty_vt::Cell,
    fade: &FadeTable,
)
    requires
        old(data)@.len() == grid.width * grid.height * 4,
        grid.width * grid.height * 4 <= u32::MAX,
        rect.fits(grid.width, grid.height),
    ensures
        final(data)@ == cell_drawn(old(data)@, grid.width, rect, cell@, *fade),
        final(data)@.len() == old(data)@.len(),
{
    let width: u32 = grid.width;
    let height: u32 = grid.height;
    let background = match color_to_rgba(cell.bgcolor()) {
        Some(color) => color,
        None => opaque(31, 31, 40),
    };
    let foreground = match color_to_rgba(cell.fgcolor()) {
        Some(color) => color,
        None => opaque(220, 215, 186),
    };
    let active = cell.has_contents() && !cell.is_wide_continuation();
    draw_rect(
        data,
        width,
        height,
        rect.inset(1),
        if active {
            background
        } else {
            fade.fade(background)
        },
    );
    if active {
        let mark = rect.centered_subrect(
            larger_of(rect.width() / 2, 2),
            larger_of(rect.height() / 2, 2),
        );
        draw_rect(data, width, height, mark, foreground);
    }
    if cell.underline() {
        let line = CellRect {
            x0: rect.x0.saturating_add(2),
            y0: rect.y1.saturating_sub(2),
            x1: rect.x1.saturating_sub(2),
            y1: rect.y1.saturating_sub(1),
        };
        draw_rect(data, width, height, line, foreground);
    }
    if cell.bold() {
        draw_rect_outline(
            data,
            width,
            height,
            rect.inset(1),
            Rgba { red: 255, green: 255, blue: 255, alpha: 90 },
        );
    }
}

/// Draws a row of cells.
fn draw_row(data: &mut Vec<u8>, grid: &CellGrid, screen: &Screen, fade: &FadeTable, row: u32)
    requires
        grid.wf(),
        row < grid.rows,
        screen@.wf(),
        old(data)@.len() == grid.width * grid.height * 4,
    ensures
        final(data)@ == row_drawn(
            old(data)@,
            *grid,
            screen@,
            *fade,
            row as int,
            grid.cols as int,
        ),
        final(data)@.len() == old(data)@.len(),
{
    let mut col: u32 = 0;
    while col < grid.cols
        invariant
            grid.wf(),
            row < grid.rows,
            col <= grid.cols,
            screen@.wf(),
            data@.len() == grid.width * grid.height * 4,
            data@.len() == old(data)@.len(),
            data@ == row_drawn(old(data)@, *grid, screen@, *fade, row as int, col as int),
        decreases grid.cols - col,
    {
        let rect = grid.cell_rect(row, col);
        draw_rect(data, grid.width, grid.height, rect, opaque(33, 36, 48));
        draw_rect_outline(data, grid.width, grid.height, rect, opaque(51, 57, 72));
        if let Some(cell) = screen.cell(row as u16, col as u16) {
            draw_cell(data, grid, rect, cell, fade);
        }
        col = col + 1;
    }
}

/// Draws the picture of a screen.
pub fn render_debug_image(data: &mut Vec<u8>, grid: &CellGrid, screen: &Screen, fade: &FadeTable)
    requires
        grid.wf(),
        screen@.wf(),
        old(data)@.len() == grid.width * grid.height * 4,
    ensures
        final(data)@ == rendered(old(data)@.len(), *grid, screen@, *fade),
{
    fill(data, opaque(18, 20, 28));
    let ghost start = data@;
    let mut row: u32 = 0;
    while row < grid.rows
        invariant
            grid.wf(),
            row <= grid.rows,
            screen@.wf(),
            data@.len() == grid.width * grid.height * 4,
            data@ == rows_drawn(start, *grid, screen@, *fade, row as int),
        decreases grid.rows - row,
    {
        draw_row(data, grid, screen, fade, row);
        row = row + 1;
    }
    if !screen.hide_cursor() {
        let (cursor_row, cursor_col) = screen.cursor_position();
        let rect = grid.cell_rect(cursor_row as u32, cursor_col as u32);
        draw_rect_outline(data, grid.width, grid.height, rect, opaque(126, 156, 216));
    }
}

} // verus!
