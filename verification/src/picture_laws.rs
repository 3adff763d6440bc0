//! What the pictures of screens show, pixel by pixel.

use crate::ratty_vt::attrs::{Color, Intensity};
use crate::ratty_vt::cell::CellModel;
use crate::ratty_vt::screen_model::ScreenModel;
use crate::rendering::{
    cell_drawn, cell_grid, debug_color, filled, grid_drawn, indexed_color, outline_drawn, rect_drawn,
    rendered, row_drawn, rows_drawn, CellGrid, CellRect, FadeTable, Rgba,
};
use crate::scene::plane_index;
use vstd::prelude::*;

verus! {

/// The pixel in a column and a row of an image with four bytes for each: red, green, blue and
/// alpha.
pub open spec fn pixel(data: Seq<u8>, width: int, x: int, y: int) -> Rgba {
    Rgba {
        red: data[(y * width + x) * 4],
        green: data[(y * width + x) * 4 + 1],
        blue: data[(y * width + x) * 4 + 2],
        alpha: data[(y * width + x) * 4 + 3],
    }
}

/// An image of some width and height has a pixel there.
pub open spec fn has_pixel(data: Seq<u8>, width: u32, height: u32, x: int, y: int) -> bool {
    &&& data.len() == width * height * 4
    &&& 0 <= x < width
    &&& 0 <= y < height
}

proof fn lemma_pixel(data: Seq<u8>, width: u32, height: u32, x: int, y: int, k: int)
    requires
        has_pixel(data, width, height, x, y),
        0 <= k < 4,
    ensures
        ({
            let i = (y * width + x) * 4 + k;
            0 <= i < data.len() && i % 4 == k && i / 4 % (width as int) == x && i / 4 / (
            width as int) == y
        }),
{
    let w = width as int;
    let h = height as int;
    let place = y * w + x;
    assert(0 <= y * w && y * w + w <= w * h) by (nonlinear_arith)
        requires
            0 <= y < h,
            0 <= w,
    ;
    assert((place * 4 + k) / 4 == place && (place * 4 + k) % 4 == k);
    vstd::arithmetic::div_mod::lemma_fundamental_div_mod_converse(place, w, y, x);
}

/// An image of one color has that color everywhere.
pub proof fn law_fillings_have_one_color(
    data: Seq<u8>,
    width: u32,
    height: u32,
    color: Rgba,
    x: int,
    y: int,
)
    requires
        has_pixel(data, width, height, x, y),
    ensures
        filled(data.len(), color).len() == data.len(),
        pixel(filled(data.len(), color), width as int, x, y) == color,
{
    lemma_pixel(data, width, height, x, y, 0);
    lemma_pixel(data, width, height, x, y, 1);
    lemma_pixel(data, width, height, x, y, 2);
    lemma_pixel(data, width, height, x, y, 3);
}

/// Drawing a rectangle gives the pixels from its left to before its right and from its top to
/// before its bottom its color, and leaves all others.
pub proof fn law_rectangles_are_drawn(
    data: Seq<u8>,
    width: u32,
    height: u32,
    rect: CellRect,
    color: Rgba,
    x: int,
    y: int,
)
    requires
        has_pixel(data, width, height, x, y),
    ensures
        rect_drawn(data, width, rect, color).len() == data.len(),
        pixel(rect_drawn(data, width, rect, color), width as int, x, y) == if rect.x0 <= x < rect.x1
            && rect.y0 <= y < rect.y1 {
            color
        } else {
            pixel(data, width as int, x, y)
        },
{
    lemma_pixel(data, width, height, x, y, 0);
    lemma_pixel(data, width, height, x, y, 1);
    lemma_pixel(data, width, height, x, y, 2);
    lemma_pixel(data, width, height, x, y, 3);
}

/// Whether a pixel lies on one of the four sides of a rectangle.
pub open spec fn on_side(rect: CellRect, x: int, y: int) -> bool {
    &&& rect.x0 <= x < rect.x1
    &&& rect.y0 <= y < rect.y1
    &&& x == rect.x0 || x == rect.x1 - 1 || y == rect.y0 || y == rect.y1 - 1
}

/// Drawing an outline gives the pixels on the sides of a rectangle its color, and leaves all
/// others.
pub proof fn law_outlines_are_drawn(
    data: Seq<u8>,
    width: u32,
    height: u32,
    rect: CellRect,
    color: Rgba,
    x: int,
    y: int,
)
    requires
        has_pixel(data, width, height, x, y),
    ensures
        outline_drawn(data, width, rect, color).len() == data.len(),
        pixel(outline_drawn(data, width, rect, color), width as int, x, y) == if on_side(rect, x, y) {
            color
        } else {
            pixel(data, width as int, x, y)
        },
{
    if rect.x0 < rect.x1 && rect.y0 < rect.y1 {
        let a = CellRect { y1: (rect.y0 + 1) as u32, ..rect };
        let b = CellRect { y0: (rect.y1 - 1) as u32, ..rect };
        let c = CellRect { x1: (rect.x0 + 1) as u32, ..rect };
        let d = CellRect { x0: (rect.x1 - 1) as u32, ..rect };
        let top = rect_drawn(data, width, a, color);
        let bottom = rect_drawn(top, width, b, color);
        let left = rect_drawn(bottom, width, c, color);
        law_rectangles_are_drawn(data, width, height, a, color, x, y);
        law_rectangles_are_drawn(top, width, height, b, color, x, y);
        law_rectangles_are_drawn(bottom, width, height, c, color, x, y);
        law_rectangles_are_drawn(left, width, height, d, color, x, y);
    }
}

pub open spec fn full(red: int, green: int, blue: int) -> Rgba {
    Rgba { red: red as u8, green: green as u8, blue: blue as u8, alpha: 255 }
}

/// The steps of the color cube.
pub open spec fn level(step: int) -> int {
    seq![0int, 95, 135, 175, 215, 255][step]
}

/// Colors by number: the sixteen named ones, then a cube of six steps of red, of green and of
/// blue, then 24 grays from dark to light.
pub proof fn law_numbered_colors(red: int, green: int, blue: int, gray: int)
    requires
        0 <= red < 6,
        0 <= green < 6,
        0 <= blue < 6,
        0 <= gray < 24,
    ensures
        indexed_color(0) == full(0, 0, 0),
        indexed_color(1) == full(128, 0, 0),
        indexed_color(2) == full(0, 128, 0),
        indexed_color(3) == full(128, 128, 0),
        indexed_color(4) == full(0, 0, 128),
        indexed_color(5) == full(128, 0, 128),
        indexed_color(6) == full(0, 128, 128),
        indexed_color(7) == full(192, 192, 192),
        indexed_color(8) == full(128, 128, 128),
        indexed_color(9) == full(255, 0, 0),
        indexed_color(10) == full(0, 255, 0),
        indexed_color(11) == full(255, 255, 0),
        indexed_color(12) == full(0, 0, 255),
        indexed_color(13) == full(255, 0, 255),
        indexed_color(14) == full(0, 255, 255),
        indexed_color(15) == full(255, 255, 255),
        indexed_color((16 + 36 * red + 6 * green + blue) as u8) == full(
            level(red),
            level(green),
            level(blue),
        ),
        indexed_color((232 + gray) as u8) == full(8 + 10 * gray, 8 + 10 * gray, 8 + 10 * gray),
{
    let place = 36 * red + 6 * green + blue;
    assert(place / 36 == red && place % 36 / 6 == green && place % 6 == blue);
}

/// A color given by its parts is drawn as it is, and one given by its number as what the
/// number stands for.
pub proof fn law_colors_are_drawn_as_they_are(red: u8, green: u8, blue: u8, index: u8)
    ensures
        debug_color(Color::Rgb(red, green, blue)) == Some(full(red as int, green as int, blue as int)),
        debug_color(Color::Idx(index)) == Some(indexed_color(index)),
        debug_color(Color::Default) is None,
{
}

/// The cells of a grid have one width and one height. Columns go from the right to the left,
/// and the first one ends where the image ends; rows go down, and the last one does.
pub proof fn law_cells_share_the_image(width: u32, height: u32, cols: u16, rows: u16, row: int, col: int)
    requires
        0 < cols <= width,
        0 < rows <= height,
        0 <= row < rows,
        0 <= col < cols,
    ensures
        ({
            let rect = cell_grid(width, height, cols, rows).rect(row, col);
            let w = width as int / cols as int;
            let h = height as int / rows as int;
            &&& rect.x0 == (cols - 1 - col) * w
            &&& rect.x1 == if col == 0 {
                width as int
            } else {
                (cols - col) * w
            }
            &&& rect.y0 == row * h
            &&& rect.y1 == if row == rows - 1 {
                height as int
            } else {
                (row + 1) * h
            }
            &&& rect.x0 + w <= rect.x1 <= width
            &&& rect.y0 + h <= rect.y1 <= height
            &&& w >= 1
            &&& h >= 1
        }),
{
    let w = width as int / cols as int;
    let h = height as int / rows as int;
    let place = cols - 1 - col;
    lemma_share(width as int, cols as int, w, place);
    lemma_share(height as int, rows as int, h, row);
}

proof fn lemma_share(size: int, count: int, step: int, place: int)
    requires
        0 < count <= size,
        step == size / count,
        0 <= place < count,
    ensures
        step >= 1,
        0 <= place * step,
        (place + 1) * step == place * step + step,
        (place + 1) * step <= size,
{
    vstd::arithmetic::div_mod::lemma_fundamental_div_mod(size, count);
    vstd::arithmetic::div_mod::lemma_mod_bound(size, count);
    assert(step >= 1) by (nonlinear_arith)
        requires
            size == count * step + size % count,
            size % count < count,
            0 < count <= size,
    ;
    assert(0 <= place * step && (place + 1) * step == place * step + step && (place + 1) * step
        <= count * step) by (nonlinear_arith)
        requires
            0 <= place,
            place + 1 <= count,
            step >= 1,
    ;
}

/// What a pixel of an empty cell shows: a dark ground with a border.
pub open spec fn ground(rect: CellRect, x: int, y: int, under: Rgba) -> Rgba {
    if on_side(rect, x, y) {
        full(51, 57, 72)
    } else if rect.x0 <= x < rect.x1 && rect.y0 <= y < rect.y1 {
        full(33, 36, 48)
    } else {
        under
    }
}

/// The larger of two numbers.
pub open spec fn larger(a: int, b: int) -> int {
    if a < b {
        b
    } else {
        a
    }
}

/// Whether a pixel lies in the middle of a rectangle: in the half of each of its sides, or in
/// two pixels of it where half of it is less.
pub open spec fn in_middle(rect: CellRect, x: int, y: int) -> bool {
    let width = rect.x1 - rect.x0;
    let height = rect.y1 - rect.y0;
    let w = larger(width / 2, 2);
    let h = larger(height / 2, 2);
    let left = rect.x0 + larger(width - w, 0) / 2;
    let top = rect.y0 + larger(height - h, 0) / 2;
    left <= x < left + w && x < rect.x1 && top <= y < top + h && y < rect.y1
}

/// What a pixel of a cell shows: the outline of bold text, over the underline, over the mark
/// for text, both in the color of the text, over the ground in the color of the background,
/// which is faded where there is no text.
pub open spec fn look(
    rect: CellRect,
    cell: CellModel,
    fade: FadeTable,
    x: int,
    y: int,
    under: Rgba,
) -> Rgba {
    let text = match debug_color(cell.attrs.fgcolor) {
        Some(color) => color,
        None => full(220, 215, 186),
    };
    let back = match debug_color(cell.attrs.bgcolor) {
        Some(color) => color,
        None => full(31, 31, 40),
    };
    let inner = rect.x0 < x < rect.x1 - 1 && rect.y0 < y < rect.y1 - 1;
    let rim = x == rect.x0 + 1 || x == rect.x1 - 2 || y == rect.y0 + 1 || y == rect.y1 - 2;
    let shows = cell.text.len() > 0 && !cell.continuation;
    if cell.attrs.intensity == Intensity::Bold && inner && rim {
        Rgba { red: 255, green: 255, blue: 255, alpha: 90 }
    } else if cell.attrs.underline && y == rect.y1 - 2 && rect.x0 + 2 <= x < rect.x1 - 2 {
        text
    } else if shows && in_middle(rect, x, y) {
        text
    } else if inner && shows {
        back
    } else if inner {
        full(
            fade.red@[back.red as int] as int,
            fade.green@[back.green as int] as int,
            fade.blue@[back.blue as int] as int,
        )
    } else {
        under
    }
}

/// Drawing a cell gives each pixel what it is to show.
pub proof fn law_cells_are_drawn(
    data: Seq<u8>,
    width: u32,
    height: u32,
    rect: CellRect,
    cell: CellModel,
    fade: FadeTable,
    x: int,
    y: int,
)
    requires
        has_pixel(data, width, height, x, y),
        rect.x0 < rect.x1 <= width,
        rect.y0 < rect.y1 <= height,
    ensures
        cell_drawn(data, width, rect, cell, fade).len() == data.len(),
        pixel(cell_drawn(data, width, rect, cell, fade), width as int, x, y) == look(
            rect,
            cell,
            fade,
            x,
            y,
            pixel(data, width as int, x, y),
        ),
{
    let background = match debug_color(cell.attrs.bgcolor) {
        Some(color) => color,
        None => crate::rendering::debug_background_fallback(),
    };
    let foreground = match debug_color(cell.attrs.fgcolor) {
        Some(color) => color,
        None => crate::rendering::debug_foreground_fallback(),
    };
    let active = cell.text.len() > 0 && !cell.continuation;
    let inset = rect.spec_inset(1);
    let ground = if active {
        background
    } else {
        fade.faded(background)
    };
    let inside = rect_drawn(data, width, inset, ground);
    law_rectangles_are_drawn(data, width, height, inset, ground, x, y);
    let middle = rect.centered(
        crate::rendering::max_u32(rect.spec_width() / 2, 2),
        crate::rendering::max_u32(rect.spec_height() / 2, 2),
    );
    let marked = if active {
        rect_drawn(inside, width, middle, foreground)
    } else {
        inside
    };
    law_rectangles_are_drawn(inside, width, height, middle, foreground, x, y);
    let line = crate::rendering::underline_rect(rect);
    let underlined = if cell.attrs.underline {
        rect_drawn(marked, width, line, foreground)
    } else {
        marked
    };
    law_rectangles_are_drawn(marked, width, height, line, foreground, x, y);
    law_outlines_are_drawn(
        underlined,
        width,
        height,
        inset,
        crate::rendering::bold_outline(),
        x,
        y,
    );
}

/// The backgrounds of cells are drawn with their borders.
pub proof fn law_grounds_are_drawn(
    data: Seq<u8>,
    grid: CellGrid,
    row: int,
    col: int,
    x: int,
    y: int,
)
    requires
        has_pixel(data, grid.width, grid.height, x, y),
    ensures
        grid_drawn(data, grid, row, col).len() == data.len(),
        pixel(grid_drawn(data, grid, row, col), grid.width as int, x, y) == ground(
            grid.rect(row, col),
            x,
            y,
            pixel(data, grid.width as int, x, y),
        ),
{
    let rect = grid.rect(row, col);
    let color = crate::rendering::debug_grid();
    law_rectangles_are_drawn(data, grid.width, grid.height, rect, color, x, y);
    law_outlines_are_drawn(
        rect_drawn(data, grid.width, rect, color),
        grid.width,
        grid.height,
        rect,
        crate::rendering::debug_grid_outline(),
        x,
        y,
    );
}

/// The vertices of a plane are counted row by row, and each segment has two triangles: one
/// of its corners at the top left, the bottom left and the top right, and one of those at the
/// top right, the bottom left and the bottom right.
pub proof fn law_segments_have_two_triangles(columns: int, x: int, y: int)
    requires
        0 <= x < columns,
        0 <= y,
    ensures
        ({
            let first = (y * columns + x) * 6;
            let left = y * (columns + 1) + x;
            let below = left + columns + 1;
            &&& plane_index(columns, first) == left
            &&& plane_index(columns, first + 1) == below
            &&& plane_index(columns, first + 2) == left + 1
            &&& plane_index(columns, first + 3) == left + 1
            &&& plane_index(columns, first + 4) == below
            &&& plane_index(columns, first + 5) == below + 1
        }),
{
    let place = y * columns + x;
    let first = place * 6;
    vstd::arithmetic::div_mod::lemma_fundamental_div_mod_converse(place, columns, y, x);
    assert((y + 1) * (columns + 1) == y * (columns + 1) + columns + 1) by (nonlinear_arith);
    assert(first / 6 == place && first % 6 == 0);
    assert((first + 1) / 6 == place && (first + 1) % 6 == 1);
    assert((first + 2) / 6 == place && (first + 2) % 6 == 2);
    assert((first + 3) / 6 == place && (first + 3) % 6 == 3);
    assert((first + 4) / 6 == place && (first + 4) % 6 == 4);
    assert((first + 5) / 6 == place && (first + 5) % 6 == 5);
}

/// A grid of which no cell is less than a pixel wide or two high.
pub open spec fn roomy(grid: CellGrid) -> bool {
    &&& 0 < grid.cols <= u16::MAX
    &&& 0 < grid.rows <= u16::MAX
    &&& grid.cols <= grid.width
    &&& 2 * grid.rows <= grid.height
    &&& grid == cell_grid(grid.width, grid.height, grid.cols as u16, grid.rows as u16)
}

/// Whether a rectangle has a pixel.
pub open spec fn covers(rect: CellRect, x: int, y: int) -> bool {
    rect.x0 <= x < rect.x1 && rect.y0 <= y < rect.y1
}

/// No two cells share a pixel.
pub proof fn law_cells_lie_apart(
    grid: CellGrid,
    row: int,
    col: int,
    other_row: int,
    other_col: int,
    x: int,
    y: int,
)
    requires
        roomy(grid),
        0 <= row < grid.rows,
        0 <= col < grid.cols,
        0 <= other_row < grid.rows,
        0 <= other_col < grid.cols,
        covers(grid.rect(row, col), x, y),
        covers(grid.rect(other_row, other_col), x, y),
    ensures
        row == other_row,
        col == other_col,
{
    let cols = grid.cols as u16;
    let rows = grid.rows as u16;
    law_cells_share_the_image(grid.width, grid.height, cols, rows, row, col);
    law_cells_share_the_image(grid.width, grid.height, cols, rows, other_row, other_col);
    let w = grid.width as int / cols as int;
    let h = grid.height as int / rows as int;
    if col < other_col {
        assert((cols - other_col) * w <= (cols - 1 - col) * w) by (nonlinear_arith)
            requires
                col < other_col,
                w >= 1,
        ;
    }
    if other_col < col {
        assert((cols - col) * w <= (cols - 1 - other_col) * w) by (nonlinear_arith)
            requires
                other_col < col,
                w >= 1,
        ;
    }
    if row < other_row {
        assert((row + 1) * h <= other_row * h) by (nonlinear_arith)
            requires
                row < other_row,
                h >= 1,
        ;
    }
    if other_row < row {
        assert((other_row + 1) * h <= row * h) by (nonlinear_arith)
            requires
                other_row < row,
                h >= 1,
        ;
    }
}

/// What a pixel of a cell of a grid shows.
pub open spec fn shown_at(
    grid: CellGrid,
    screen: ScreenModel,
    fade: FadeTable,
    row: int,
    col: int,
    x: int,
    y: int,
    under: Rgba,
) -> Rgba {
    let rect = grid.rect(row, col);
    let rows = screen.active().visible();
    let back = ground(rect, x, y, under);
    if row < screen.size().rows && col < rows[row].cells.len() {
        look(rect, rows[row].cells[col], fade, x, y, back)
    } else {
        back
    }
}

proof fn lemma_other_cells(
    grid: CellGrid,
    screen: ScreenModel,
    fade: FadeTable,
    row: int,
    col: int,
    x: int,
    y: int,
    under: Rgba,
)
    requires
        roomy(grid),
        0 <= row < grid.rows,
        0 <= col < grid.cols,
    ensures
        !covers(grid.rect(row, col), x, y) ==> shown_at(
            grid,
            screen,
            fade,
            row,
            col,
            x,
            y,
            under,
        ) == under,
        covers(grid.rect(row, col), x, y) ==> forall|other: Rgba| #[trigger]
            shown_at(grid, screen, fade, row, col, x, y, other) == shown_at(
                grid,
                screen,
                fade,
                row,
                col,
                x,
                y,
                under,
            ),
{
    law_cells_share_the_image(
        grid.width,
        grid.height,
        grid.cols as u16,
        grid.rows as u16,
        row,
        col,
    );
    assert(grid.height as int / grid.rows as int >= 2) by (nonlinear_arith)
        requires
            0 < grid.rows,
            2 * grid.rows <= grid.height,
    ;
}

proof fn lemma_row(
    data: Seq<u8>,
    grid: CellGrid,
    screen: ScreenModel,
    fade: FadeTable,
    row: int,
    cols: int,
    x: int,
    y: int,
)
    requires
        roomy(grid),
        has_pixel(data, grid.width, grid.height, x, y),
        0 <= row < grid.rows,
        0 <= cols <= grid.cols,
    ensures
        row_drawn(data, grid, screen, fade, row, cols).len() == data.len(),
        ({
            let after = pixel(
                row_drawn(data, grid, screen, fade, row, cols),
                grid.width as int,
                x,
                y,
            );
            let before = pixel(data, grid.width as int, x, y);
            &&& forall|col: int|
                0 <= col < cols && #[trigger] covers(grid.rect(row, col), x, y) ==> after
                    == shown_at(grid, screen, fade, row, col, x, y, before)
            &&& (forall|col: int| 0 <= col < cols ==> !#[trigger] covers(grid.rect(row, col), x, y))
                ==> after == before
        }),
    decreases cols,
{
    if cols > 0 {
        let col = cols - 1;
        lemma_row(data, grid, screen, fade, row, col, x, y);
        let before = row_drawn(data, grid, screen, fade, row, col);
        let blank = grid_drawn(before, grid, row, col);
        let rect = grid.rect(row, col);
        law_grounds_are_drawn(before, grid, row, col, x, y);
        law_cells_share_the_image(
            grid.width,
            grid.height,
            grid.cols as u16,
            grid.rows as u16,
            row,
            col,
        );
        if row < screen.size().rows && col < screen.active().visible()[row].cells.len() {
            law_cells_are_drawn(
                blank,
                grid.width,
                grid.height,
                rect,
                screen.active().visible()[row].cells[col],
                fade,
                x,
                y,
            );
        }
        let start = pixel(data, grid.width as int, x, y);
        let between = pixel(before, grid.width as int, x, y);
        lemma_other_cells(grid, screen, fade, row, col, x, y, start);
        lemma_other_cells(grid, screen, fade, row, col, x, y, between);
        assert forall|other: int|
            0 <= other < cols && #[trigger] covers(grid.rect(row, other), x, y) implies pixel(
            row_drawn(data, grid, screen, fade, row, cols),
            grid.width as int,
            x,
            y,
        ) == shown_at(grid, screen, fade, row, other, x, y, start) by {
            if other < col && covers(rect, x, y) {
                law_cells_lie_apart(grid, row, col, row, other, x, y);
            }
        }
        if forall|other: int| 0 <= other < cols ==> !#[trigger] covers(grid.rect(row, other), x, y) {
            assert(!covers(grid.rect(row, col), x, y));
        }
    }
}

proof fn lemma_rows(
    data: Seq<u8>,
    grid: CellGrid,
    screen: ScreenModel,
    fade: FadeTable,
    rows: int,
    row: int,
    col: int,
    x: int,
    y: int,
)
    requires
        roomy(grid),
        has_pixel(data, grid.width, grid.height, x, y),
        0 <= rows <= grid.rows,
        0 <= row < grid.rows,
        0 <= col < grid.cols,
        covers(grid.rect(row, col), x, y),
    ensures
        rows_drawn(data, grid, screen, fade, rows).len() == data.len(),
        pixel(rows_drawn(data, grid, screen, fade, rows), grid.width as int, x, y) == if row < rows {
            shown_at(grid, screen, fade, row, col, x, y, pixel(data, grid.width as int, x, y))
        } else {
            pixel(data, grid.width as int, x, y)
        },
    decreases rows,
{
    if rows > 0 {
        let last = rows - 1;
        let before = rows_drawn(data, grid, screen, fade, last);
        lemma_rows(data, grid, screen, fade, last, row, col, x, y);
        lemma_row(before, grid, screen, fade, last, grid.cols as int, x, y);
        if last != row {
            assert forall|other: int| 0 <= other < grid.cols implies !#[trigger] covers(
                grid.rect(last, other),
                x,
                y,
            ) by {
                if covers(grid.rect(last, other), x, y) {
                    law_cells_lie_apart(grid, row, col, last, other, x, y);
                }
            }
        } else {
            lemma_other_cells(
                grid,
                screen,
                fade,
                row,
                col,
                x,
                y,
                pixel(data, grid.width as int, x, y),
            );
        }
    }
}

/// The picture of a screen shows in each pixel of a cell what that cell is to show there, and
/// around the cell of the cursor an outline, unless the cursor is hidden.
pub proof fn law_pictures_show_screens(
    len: nat,
    grid: CellGrid,
    screen: ScreenModel,
    fade: FadeTable,
    row: int,
    col: int,
    x: int,
    y: int,
)
    requires
        roomy(grid),
        len == grid.width * grid.height * 4,
        0 <= row < grid.rows,
        0 <= col < grid.cols,
        screen.active().pos.row < grid.rows,
        screen.active().pos.col < grid.cols,
        covers(grid.rect(row, col), x, y),
    ensures
        ({
            let cursor = screen.active().pos.row == row && screen.active().pos.col == col;
            pixel(rendered(len, grid, screen, fade), grid.width as int, x, y) == if cursor
                && !screen.modes.hide_cursor && on_side(grid.rect(row, col), x, y) {
                full(126, 156, 216)
            } else {
                shown_at(grid, screen, fade, row, col, x, y, full(18, 20, 28))
            }
        }),
{
    let color = crate::rendering::debug_background();
    let start = filled(len, color);
    law_cells_share_the_image(
        grid.width,
        grid.height,
        grid.cols as u16,
        grid.rows as u16,
        row,
        col,
    );
    assert(has_pixel(start, grid.width, grid.height, x, y));
    law_fillings_have_one_color(start, grid.width, grid.height, color, x, y);
    lemma_rows(start, grid, screen, fade, grid.rows as int, row, col, x, y);
    let cells = rows_drawn(start, grid, screen, fade, grid.rows as int);
    let pos = screen.active().pos;
    let rect = grid.rect(pos.row as int, pos.col as int);
    law_outlines_are_drawn(
        cells,
        grid.width,
        grid.height,
        rect,
        crate::rendering::debug_cursor(),
        x,
        y,
    );
    if covers(rect, x, y) {
        law_cells_lie_apart(grid, row, col, pos.row as int, pos.col as int, x, y);
    }
}

/// A side of a plane has the segments that are wanted, and at least two.
pub proof fn law_planes_have_segments(wanted: u32)
    ensures
        wanted >= 2 ==> crate::scene::segments(wanted) == wanted,
        wanted < 2 ==> crate::scene::segments(wanted) == 2,
{
}

} // verus!
