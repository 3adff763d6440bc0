//! Images of the kitty graphics protocol and where they are drawn.

use crate::number::{Number, ONE, ZERO};
use crate::ratty_vt::attrs::Color;
use crate::ratty_vt::screen_model::ScreenModel;
use crate::ratty_vt::Screen;
use crate::table::IdTable;
use crate::text::chars_of;
use rio_vt::ansi::graphics;
use vstd::prelude::*;

verus! {

/// The character that stands where a part of an image is drawn.
pub const PLACEHOLDER: char = '\u{10EEEE}';
/// The numbers that fit in a color.
pub const COLOR_IDS: u32 = 0x100_0000;

/// How pixels are given.
#[derive(Clone, Copy, Debug, PartialEq, Eq, Structural)]
pub enum ColorType {
    Rgb,
    Rgba,
}

/// An image as it was sent.
#[derive(Debug)]
pub struct GraphicData {
    pub width: usize,
    pub height: usize,
    pub color_type: ColorType,
    pub pixels: Vec<u8>,
}

/// An image as it is drawn, four bytes for each pixel.
#[derive(Debug)]
pub struct RasterObject {
    pub width: u32,
    pub height: u32,
    pub rgba: Vec<u8>,
}

/// What an image looks like.
pub struct RasterModel {
    pub width: u32,
    pub height: u32,
    pub rgba: Seq<u8>,
}

impl View for RasterObject {
    type V = RasterModel;

    open spec fn view(&self) -> RasterModel {
        RasterModel { width: self.width, height: self.height, rgba: self.rgba@ }
    }
}

/// Pixels with an opaque alpha channel added.
pub open spec fn opaque(pixels: Seq<u8>) -> Seq<u8> {
    Seq::new(
        pixels.len() / 3 * 4,
        |i: int|
            if i % 4 == 3 {
                255
            } else {
                pixels[i / 4 * 3 + i % 4]
            },
    )
}

/// How many bytes a pixel takes.
pub open spec fn channels(color_type: ColorType) -> int {
    match color_type {
        ColorType::Rgb => 3,
        ColorType::Rgba => 4,
    }
}

/// The raster of an image, if its size fits and it has all its pixels.
pub open spec fn raster(data: GraphicData) -> Option<RasterModel> {
    if data.width <= u32::MAX && data.height <= u32::MAX && data.pixels@.len() == data.width
        * data.height * channels(data.color_type) {
        Some(
            RasterModel {
                width: data.width as u32,
                height: data.height as u32,
                rgba: match data.color_type {
                    ColorType::Rgba => data.pixels@,
                    ColorType::Rgb => opaque(data.pixels@),
                },
            },
        )
    } else {
        None
    }
}

/// Converts pixel data into RGBA form.
pub fn rasterize(data: GraphicData) -> (r: Option<RasterObject>)
    ensures
        match r {
            Some(object) => raster(data) == Some(object@),
            None => raster(data) is None,
        },
{
    if data.width as u64 > u32::MAX as u64 || data.height as u64 > u32::MAX as u64 {
        return None;
    }
    let width: u32 = data.width as u32;
    let height: u32 = data.height as u32;
    assert(0 <= width * height <= 0xffff_ffff * 0xffff_ffff) by (nonlinear_arith)
        requires
            0 <= width <= 0xffff_ffff,
            0 <= height <= 0xffff_ffff,
    ;
    let count: u128 = (width as u128) * (height as u128);
    match data.color_type {
        ColorType::Rgba => {
            if data.pixels.len() as u128 != count * 4 {
                return None;
            }
            Some(RasterObject { width, height, rgba: data.pixels })
        },
        ColorType::Rgb => {
            if data.pixels.len() as u128 != count * 3 {
                return None;
            }
            let rgba = add_alpha(&data.pixels);
            Some(RasterObject { width, height, rgba })
        },
    }
}

fn add_alpha(pixels: &Vec<u8>) -> (r: Vec<u8>)
    requires
        pixels@.len() % 3 == 0,
    ensures
        r@ == opaque(pixels@),
{
    let mut r: Vec<u8> = Vec::new();
    let mut i: usize = 0;
    while i < pixels.len()
        invariant
            i <= pixels@.len(),
            i % 3 == 0,
            pixels@.len() % 3 == 0,
            r@ =~= opaque(pixels@.take(i as int)),
        decreases pixels@.len() - i,
    {
        let ghost before = r@;
        r.push(pixels[i]);
        r.push(pixels[i + 1]);
        r.push(pixels[i + 2]);
        r.push(255);
        proof {
            let next = opaque(pixels@.take(i + 3));
            assert(next.len() == before.len() + 4);
            assert forall|k: int| 0 <= k < next.len() implies r@[k] == next[k] by {
                if k < before.len() {
                    assert(before[k] == opaque(pixels@.take(i as int))[k]);
                } else {
                    assert(k / 4 * 3 == i);
                }
            }
        }
        i = i + 3;
    }
    assert(pixels@.take(i as int) =~= pixels@);
    r
}

/// A part of an image: its left, its top, its width and its height.
pub struct SourceModel {
    pub x: int,
    pub y: int,
    pub width: int,
    pub height: int,
}

pub open spec fn cut(wanted: int, rest: int) -> int {
    if 0 < wanted < rest {
        wanted
    } else {
        rest
    }
}

/// The part of an image that is wanted, as far as it lies in the image. A width or
/// a height of zero goes to the edge.
pub open spec fn source_rect(
    x: int,
    y: int,
    width: int,
    height: int,
    image_width: int,
    image_height: int,
) -> Option<SourceModel> {
    if x < image_width && y < image_height {
        Some(
            SourceModel {
                x,
                y,
                width: cut(width, image_width - x),
                height: cut(height, image_height - y),
            },
        )
    } else {
        None
    }
}

/// Calls `rio_vt::ansi::graphics::resolve_source_rect`. The part starts where it is
/// asked to and ends where it is asked to or at the edge of the image, and there is
/// none where it starts outside the image or the image is empty.
#[verifier::external_body]
fn resolve_source_rect(
    source_x: u32,
    source_y: u32,
    source_width: u32,
    source_height: u32,
    image_width: usize,
    image_height: usize,
) -> (r: Option<(usize, usize, usize, usize)>)
    ensures
        match r {
            Some((x, y, width, height)) => source_rect(
                source_x as int,
                source_y as int,
                source_width as int,
                source_height as int,
                image_width as int,
                image_height as int,
            ) == Some(
                SourceModel {
                    x: x as int,
                    y: y as int,
                    width: width as int,
                    height: height as int,
                },
            ),
            None => source_rect(
                source_x as int,
                source_y as int,
                source_width as int,
                source_height as int,
                image_width as int,
                image_height as int,
            ) is None,
        },
{
    graphics::resolve_source_rect(
        source_x,
        source_y,
        source_width,
        source_height,
        image_width,
        image_height,
    )
}

/// The size at which `rio_vt::ansi::graphics::kitty_display_size` shows a part of an
/// image, given its width and height, the columns and rows it is to take, and the
/// width and height of a cell.
pub uninterp spec fn display_size(
    source_width: usize,
    source_height: usize,
    requested_columns: u32,
    requested_rows: u32,
    cell_width: usize,
    cell_height: usize,
) -> (usize, usize);

/// Calls `rio_vt::ansi::graphics::kitty_display_size`. Where both or neither of the
/// columns and the rows are given, the size is that of the cells or that of the part
/// itself; where one is given, that side is the size of its cells, and the other
/// side keeps the proportions, rounded by floating point, which is left to the name.
#[verifier::external_body]
fn kitty_display_size(
    source_width: usize,
    source_height: usize,
    requested_columns: u32,
    requested_rows: u32,
    cell_width: usize,
    cell_height: usize,
) -> (r: (usize, usize))
    requires
        requested_columns * cell_width <= usize::MAX,
        requested_rows * cell_height <= usize::MAX,
    ensures
        r == display_size(
            source_width,
            source_height,
            requested_columns,
            requested_rows,
            cell_width,
            cell_height,
        ),
        source_width > 0 && source_height > 0 && requested_columns == 0 && requested_rows == 0
            ==> r == (source_width, source_height),
        source_width > 0 && source_height > 0 && requested_columns > 0 ==> r.0 == requested_columns
            * cell_width,
        source_width > 0 && source_height > 0 && requested_rows > 0 ==> r.1 == requested_rows
            * cell_height,
{
    graphics::kitty_display_size(
        source_width,
        source_height,
        requested_columns,
        requested_rows,
        cell_width,
        cell_height,
    )
}

/// A placement of an image in the text, as it was asked for.
#[derive(Clone, Copy, Debug, PartialEq, Eq, Structural)]
pub struct DirectPlacement {
    pub image_id: u32,
    pub placement_id: u32,
    pub source_x: u32,
    pub source_y: u32,
    pub source_width: u32,
    pub source_height: u32,
    pub requested_columns: u32,
    pub requested_rows: u32,
    /// The row among all rows there ever were.
    pub dest_row: i64,
    pub dest_col: usize,
    pub z_index: i32,
}

/// A placement of an image in the text, as it is drawn: in rows from the top of the
/// view, and in pixels.
#[derive(Clone, Copy, Debug, PartialEq, Eq, Structural)]
pub struct DirectView {
    pub image_id: u32,
    pub placement_id: u32,
    pub row: i64,
    pub col: usize,
    pub display_width: usize,
    pub display_height: usize,
    pub source_x: usize,
    pub source_y: usize,
    pub source_width: usize,
    pub source_height: usize,
    pub z: i32,
}

/// The first row of the view among all rows there ever were.
pub open spec fn viewport_top(evicted: u32, history: u32, offset: u32) -> int {
    evicted + history - offset
}

/// The first row of the view among all rows there ever were: behind those that were
/// given up and those in history, as far as the view is not scrolled back.
pub fn top_of_viewport(evicted: u32, history: u32, offset: u32) -> (r: i64)
    ensures
        r == viewport_top(evicted, history, offset),
{
    evicted as i64 + history as i64 - offset as i64
}

/// Whether a placement can be drawn with cells of a size, and what the view is then.
pub open spec fn direct_view(
    placement: DirectPlacement,
    image_width: usize,
    image_height: usize,
    cell_width: usize,
    cell_height: usize,
    top: i64,
) -> Option<DirectView> {
    match source_rect(
        placement.source_x as int,
        placement.source_y as int,
        placement.source_width as int,
        placement.source_height as int,
        image_width as int,
        image_height as int,
    ) {
        None => None,
        Some(source) => {
            let (width, height) = display_size(
                source.width as usize,
                source.height as usize,
                placement.requested_columns,
                placement.requested_rows,
                cell_width,
                cell_height,
            );
            if width == 0 || height == 0 {
                None
            } else {
                Some(
                    DirectView {
                        image_id: placement.image_id,
                        placement_id: placement.placement_id,
                        row: rows_from(placement.dest_row, top),
                        col: placement.dest_col,
                        display_width: width,
                        display_height: height,
                        source_x: source.x as usize,
                        source_y: source.y as usize,
                        source_width: source.width as usize,
                        source_height: source.height as usize,
                        z: placement.z_index,
                    },
                )
            }
        },
    }
}

/// A row counted from another, as far as that can be counted.
pub open spec fn rows_from(row: i64, top: i64) -> i64 {
    if row - top > i64::MAX {
        i64::MAX
    } else if row - top < i64::MIN {
        i64::MIN
    } else {
        (row - top) as i64
    }
}

/// Resolves a placement of an image against the view.
pub fn direct_placement_view(
    placement: &DirectPlacement,
    image_width: usize,
    image_height: usize,
    cell_width: usize,
    cell_height: usize,
    top: i64,
) -> (r: Option<DirectView>)
    requires
        placement.requested_columns * cell_width <= usize::MAX,
        placement.requested_rows * cell_height <= usize::MAX,
    ensures
        r == direct_view(*placement, image_width, image_height, cell_width, cell_height, top),
{
    let (source_x, source_y, source_width, source_height) = match resolve_source_rect(
        placement.source_x,
        placement.source_y,
        placement.source_width,
        placement.source_height,
        image_width,
        image_height,
    ) {
        Some(source) => source,
        None => {
            return None;
        },
    };
    let (display_width, display_height) = kitty_display_size(
        source_width,
        source_height,
        placement.requested_columns,
        placement.requested_rows,
        cell_width,
        cell_height,
    );
    if display_width == 0 || display_height == 0 {
        return None;
    }
    let distance: i128 = placement.dest_row as i128 - top as i128;
    let row: i64 = if distance > i64::MAX as i128 {
        i64::MAX
    } else if distance < i64::MIN as i128 {
        i64::MIN
    } else {
        distance as i64
    };
    Some(
        DirectView {
            image_id: placement.image_id,
            placement_id: placement.placement_id,
            row,
            col: placement.dest_col,
            display_width,
            display_height,
            source_x,
            source_y,
            source_width,
            source_height,
            z: placement.z_index,
        },
    )
}

/// A part of an image that is shown lies in the image and is not empty.
pub proof fn law_sources_lie_in_the_image(
    x: int,
    y: int,
    width: int,
    height: int,
    image_width: int,
    image_height: int,
)
    requires
        0 <= x,
        0 <= y,
        0 <= width,
        0 <= height,
    ensures
        source_rect(x, y, width, height, image_width, image_height) matches Some(source) ==> 0
            <= source.x && 0 < source.width && source.x + source.width <= image_width && 0
            <= source.y && 0 < source.height && source.y + source.height <= image_height,
{
}

/// Whether a number is below another.
pub open spec fn below(a: Number, b: Number) -> bool {
    !a.nan() && !b.nan() && a.rank() < b.rank()
}

/// Whether cells of a size can hold images: they are a pixel wide and high.
pub fn cells_hold_images(cell_width: Number, cell_height: Number) -> (r: bool)
    ensures
        r == !(below(cell_width, Number { bits: ONE }) || below(cell_height, Number { bits: ONE })),
{
    let one = Number { bits: ONE };
    let narrow = !cell_width.is_nan() && !cell_width.at_least(one);
    let low = !cell_height.is_nan() && !cell_height.at_least(one);
    !(narrow || low)
}

/// Whether something that goes from a top to a bottom, counted in rows of the view,
/// is seen in a view of some rows.
pub fn in_view(top: Number, bottom: Number, rows: Number) -> (r: bool)
    ensures
        r == !((Number { bits: ZERO }).reaches(bottom) || top.reaches(rows)),
{
    let zero = Number { bits: ZERO };
    !(zero.at_least(bottom) || top.at_least(rows))
}

/// A placement: an image and a number among its placements.
#[derive(Clone, Copy, Debug, PartialEq, Eq, Structural)]
pub struct PlacementKey {
    pub image_id: u32,
    pub placement_id: u32,
}

/// The cells that a placement takes up.
#[derive(Clone, Copy, Debug, PartialEq, Eq, Structural)]
pub struct CellBounds {
    pub top: u16,
    pub left: u16,
    pub bottom: u16,
    pub right: u16,
}

/// The number that a color stands for.
pub open spec fn color_id(color: Color) -> Option<int> {
    match color {
        Color::Rgb(r, g, b) => Some(r as int * 65536 + g as int * 256 + b as int),
        _ => None,
    }
}

/// Whether a cell stands for a part of the image with a number. Only rows that hold
/// a placeholder are looked at.
pub open spec fn carries(screen: ScreenModel, id: int, row: int, col: int) -> bool {
    &&& 0 <= row < screen.size().rows
    &&& screen.active().visible()[row].placeholder
    &&& 0 <= col < screen.active().visible()[row].cells.len()
    &&& 0 <= col < screen.size().cols
    &&& ({
        let cell = screen.active().visible()[row].cells[col];
        cell.text.len() > 0 && cell.text[0] == PLACEHOLDER && color_id(cell.attrs.fgcolor) == Some(
            id,
        )
    })
}

impl CellBounds {
    pub open spec fn holds(self, row: int, col: int) -> bool {
        self.top <= row <= self.bottom && self.left <= col <= self.right
    }
}

/// Whether bounds are the smallest around the cells of an image: they hold all of
/// them, and one lies at each side.
pub open spec fn fitted(bounds: CellBounds, screen: ScreenModel, id: int) -> bool {
    &&& forall|row: int, col: int| #[trigger] carries(screen, id, row, col) ==> bounds.holds(
        row,
        col,
    )
    &&& touched(bounds, screen, id)
}

/// Whether a cell of an image lies at each side of some bounds.
pub open spec fn touched(bounds: CellBounds, screen: ScreenModel, id: int) -> bool {
    &&& exists|col: int| #[trigger] carries(screen, id, bounds.top as int, col)
    &&& exists|col: int| #[trigger] carries(screen, id, bounds.bottom as int, col)
    &&& exists|row: int| #[trigger] carries(screen, id, row, bounds.left as int)
    &&& exists|row: int| #[trigger] carries(screen, id, row, bounds.right as int)
}

fn is_carried(screen: &Screen, id: u32, row: u16, col: u16) -> (r: bool)
    requires
        screen@.wf(),
        row < screen@.size().rows,
        screen@.active().visible()[row as int].placeholder,
        col < screen@.size().cols,
    ensures
        r == carries(screen@, id as int, row as int, col as int),
{
    match screen.cell(row, col) {
        Some(cell) => {
            let chars = chars_of(cell.contents());
            if chars.len() == 0 || chars[0] != PLACEHOLDER {
                return false;
            }
            match cell.fgcolor() {
                Color::Rgb(r, g, b) => id == r as u32 * 65536 + g as u32 * 256 + b as u32,
                _ => false,
            }
        },
        None => false,
    }
}

/// Bounds that hold one cell more.
fn widen(bounds: Option<CellBounds>, row: u16, col: u16) -> (r: CellBounds)
    ensures
        match bounds {
            None => r == (CellBounds { top: row, left: col, bottom: row, right: col }),
            Some(old) => {
                &&& r.top == (if row < old.top { row } else { old.top })
                &&& r.left == (if col < old.left { col } else { old.left })
                &&& r.bottom == (if row > old.bottom { row } else { old.bottom })
                &&& r.right == (if col > old.right { col } else { old.right })
            },
        },
{
    match bounds {
        None => CellBounds { top: row, left: col, bottom: row, right: col },
        Some(old) => CellBounds {
            top: if row < old.top {
                row
            } else {
                old.top
            },
            left: if col < old.left {
                col
            } else {
                old.left
            },
            bottom: if row > old.bottom {
                row
            } else {
                old.bottom
            },
            right: if col > old.right {
                col
            } else {
                old.right
            },
        },
    }
}

/// Whether bounds fit the cells of an image that were looked at: those before a
/// place in reading order.
spec fn fitted_so_far(
    bounds: Option<CellBounds>,
    screen: ScreenModel,
    id: int,
    row: int,
    col: int,
) -> bool {
    match bounds {
        None => forall|r: int, c: int| #[trigger]
            carries(screen, id, r, c) ==> !(r < row || (r == row && c < col)),
        Some(bounds) => {
            &&& forall|r: int, c: int| #[trigger]
                carries(screen, id, r, c) && (r < row || (r == row && c < col)) ==> bounds.holds(
                    r,
                    c,
                )
            &&& touched(bounds, screen, id)
        },
    }
}

proof fn lemma_widened(
    before: Option<CellBounds>,
    after: CellBounds,
    screen: ScreenModel,
    id: int,
    row: u16,
    col: u16,
)
    requires
        fitted_so_far(before, screen, id, row as int, col as int),
        carries(screen, id, row as int, col as int),
        match before {
            None => after == (CellBounds { top: row, left: col, bottom: row, right: col }),
            Some(old) => {
                &&& after.top == (if row < old.top { row } else { old.top })
                &&& after.left == (if col < old.left { col } else { old.left })
                &&& after.bottom == (if row > old.bottom { row } else { old.bottom })
                &&& after.right == (if col > old.right { col } else { old.right })
            },
        },
    ensures
        fitted_so_far(Some(after), screen, id, row as int, col + 1),
{
    assert forall|r: int, c: int| #[trigger]
        carries(screen, id, r, c) && (r < row || (r == row && c < col + 1)) implies after.holds(
        r,
        c,
    ) by {
        if !(r < row || (r == row && c < col)) {
            assert(r == row && c == col);
        } else if let Some(old) = before {
            assert(old.holds(r, c));
        }
    }
    let (top, bottom, left, right) = match before {
        Some(old) => (
            choose|c: int| #[trigger] carries(screen, id, old.top as int, c),
            choose|c: int| #[trigger] carries(screen, id, old.bottom as int, c),
            choose|r: int| #[trigger] carries(screen, id, r, old.left as int),
            choose|r: int| #[trigger] carries(screen, id, r, old.right as int),
        ),
        None => (col as int, col as int, row as int, row as int),
    };
    let top = if after.top == row { col as int } else { top };
    let bottom = if after.bottom == row { col as int } else { bottom };
    let left = if after.left == col { row as int } else { left };
    let right = if after.right == col { row as int } else { right };
    assert(carries(screen, id, after.top as int, top));
    assert(carries(screen, id, after.bottom as int, bottom));
    assert(carries(screen, id, left, after.left as int));
    assert(carries(screen, id, right, after.right as int));
    assert(touched(after, screen, id));
}

/// Goes through one row.
fn widen_over_row(
    screen: &Screen,
    id: u32,
    row: u16,
    cols: u16,
    bounds: Option<CellBounds>,
) -> (r: Option<CellBounds>)
    requires
        screen@.wf(),
        row < screen@.size().rows,
        cols == screen@.size().cols,
        screen@.active().visible()[row as int].placeholder,
        fitted_so_far(bounds, screen@, id as int, row as int, 0),
    ensures
        fitted_so_far(r, screen@, id as int, row + 1, 0),
{
    let mut bounds = bounds;
    let mut col: u16 = 0;
    while col < cols
        invariant
            screen@.wf(),
            row < screen@.size().rows,
            cols == screen@.size().cols,
            col <= cols,
            screen@.active().visible()[row as int].placeholder,
            fitted_so_far(bounds, screen@, id as int, row as int, col as int),
        decreases cols - col,
    {
        let ghost before = bounds;
        if is_carried(screen, id, row, col) {
            bounds = Some(widen(bounds, row, col));
            proof {
                lemma_widened(before, bounds->0, screen@, id as int, row, col);
            }
        } else {
            assert forall|r: int, c: int| #[trigger]
                carries(screen@, id as int, r, c) && (r < row || (r == row && c < col + 1)) implies (
            r < row || (r == row && c < col)) by {}
        }
        col = col + 1;
    }
    bounds
}

/// The smallest bounds around the cells of an image, if there are any.
pub fn placeholder_bounds(screen: &Screen, id: u32) -> (r: Option<CellBounds>)
    requires
        screen@.wf(),
    ensures
        match r {
            Some(bounds) => fitted(bounds, screen@, id as int),
            None => forall|row: int, col: int| !#[trigger] carries(screen@, id as int, row, col),
        },
{
    let (rows, cols) = screen.size();
    let visible = screen.visible_rows();
    let mut bounds: Option<CellBounds> = None;
    let mut row: u16 = 0;
    while row < rows
        invariant
            screen@.wf(),
            rows == screen@.size().rows,
            cols == screen@.size().cols,
            row <= rows,
            visible@.len() == rows,
            forall|i: int|
                0 <= i < visible@.len() ==> (#[trigger] visible@[i])@
                    == screen@.active().visible()[i],
            fitted_so_far(bounds, screen@, id as int, row as int, 0),
        decreases rows - row,
    {
        if visible[row as usize].has_kitty_placeholder() {
            bounds = widen_over_row(screen, id, row, cols, bounds);
        }
        row = row + 1;
    }
    bounds
}

/// A virtual placement: the part of its image that is asked for, and the width and the
/// height of the image where it is stored.
#[derive(Clone, Copy, Debug, PartialEq, Eq)]
pub struct VirtualPlacement {
    pub key: PlacementKey,
    pub x: u32,
    pub y: u32,
    pub width: u32,
    pub height: u32,
    pub image: Option<(usize, usize)>,
}

/// The part of an image that a virtual placement shows.
#[derive(Clone, Copy, Debug, PartialEq, Eq, Structural)]
pub enum ShownPart {
    Whole,
    Part { x: usize, y: usize, width: usize, height: usize },
}

/// A virtual placement, the cells that it takes up and the part of the image that is
/// fitted to them.
#[derive(Clone, Copy, Debug, PartialEq, Eq, Structural)]
pub struct VirtualView {
    pub key: PlacementKey,
    pub bounds: CellBounds,
    pub source: ShownPart,
}

/// What a virtual placement shows of its image: the part that is asked for, or all of it
/// where there is no such part or the image is not stored.
pub open spec fn shown_part(placement: VirtualPlacement) -> ShownPart {
    match placement.image {
        None => ShownPart::Whole,
        Some((image_width, image_height)) => match source_rect(
            placement.x as int,
            placement.y as int,
            placement.width as int,
            placement.height as int,
            image_width as int,
            image_height as int,
        ) {
            None => ShownPart::Whole,
            Some(source) => ShownPart::Part {
                x: source.x as usize,
                y: source.y as usize,
                width: source.width as usize,
                height: source.height as usize,
            },
        },
    }
}

/// Resolves the part of its image that a virtual placement shows.
pub fn virtual_source(placement: &VirtualPlacement) -> (r: ShownPart)
    ensures
        r == shown_part(*placement),
{
    match placement.image {
        None => ShownPart::Whole,
        Some((image_width, image_height)) => match resolve_source_rect(
            placement.x,
            placement.y,
            placement.width,
            placement.height,
            image_width,
            image_height,
        ) {
            None => ShownPart::Whole,
            Some((x, y, width, height)) => ShownPart::Part { x, y, width, height },
        },
    }
}

/// The number by which cells name an image: what fits in a color.
pub open spec fn cell_id(key: PlacementKey) -> int {
    key.image_id as int % (COLOR_IDS as int)
}

/// Whether a placement is the last of those whose images cells cannot tell apart.
pub open spec fn addressed(placements: Seq<VirtualPlacement>, i: int) -> bool {
    forall|j: int| i < j < placements.len() ==> cell_id((#[trigger] placements[j]).key) != cell_id(placements[i].key)
}

fn is_addressed(placements: &Vec<VirtualPlacement>, i: usize) -> (r: bool)
    requires
        i < placements@.len(),
    ensures
        r == addressed(placements@, i as int),
{
    let id: u32 = placements[i].key.image_id % COLOR_IDS;
    let len: usize = placements.len();
    let mut j: usize = i + 1;
    while j < len
        invariant
            i < j <= placements@.len(),
            len == placements@.len(),
            id == cell_id(placements@[i as int].key),
            forall|k: int| i < k < j ==> cell_id((#[trigger] placements@[k]).key) != id,
        decreases placements@.len() - j,
    {
        if placements[j].key.image_id % COLOR_IDS == id {
            assert(cell_id(placements@[j as int].key) == cell_id(placements@[i as int].key));
            return false;
        }
        j = j + 1;
    }
    true
}

/// Whether views are those of the virtual placements that cells on the screen stand
/// for, each in the bounds of its cells, with the part of its image that it shows, and in
/// the order of the placements.
pub open spec fn virtual_views(
    views: Seq<VirtualView>,
    placements: Seq<VirtualPlacement>,
    screen: ScreenModel,
) -> bool
    decreases placements.len(),
{
    virtual_views_of(views, placements, placements.len() as int, screen)
}

/// The same of the first `n` placements.
pub open spec fn virtual_views_of(
    views: Seq<VirtualView>,
    placements: Seq<VirtualPlacement>,
    n: int,
    screen: ScreenModel,
) -> bool
    decreases n,
{
    if n <= 0 {
        views.len() == 0
    } else if addressed(placements, n - 1) && exists|row: int, col: int| #[trigger]
        carries(screen, cell_id(placements[n - 1].key), row, col) {
        &&& views.len() > 0
        &&& views.last().key == placements[n - 1].key
        &&& views.last().source == shown_part(placements[n - 1])
        &&& fitted(views.last().bounds, screen, cell_id(placements[n - 1].key))
        &&& virtual_views_of(views.drop_last(), placements, n - 1, screen)
    } else {
        virtual_views_of(views, placements, n - 1, screen)
    }
}

/// Resolves virtual placements from their placeholder cells. The image is fitted to
/// the cells that are seen, so that it moves and disappears with the text.
pub fn virtual_placement_views(
    screen: &Screen,
    placements: &Vec<VirtualPlacement>,
) -> (views: Vec<VirtualView>)
    requires
        screen@.wf(),
    ensures
        virtual_views(views@, placements@, screen@),
{
    let mut views: Vec<VirtualView> = Vec::new();
    let mut i: usize = 0;
    while i < placements.len()
        invariant
            i <= placements@.len(),
            screen@.wf(),
            virtual_views_of(views@, placements@, i as int, screen@),
        decreases placements@.len() - i,
    {
        let ghost before = views@;
        if is_addressed(placements, i) {
            if let Some(bounds) = placeholder_bounds(screen, placements[i].key.image_id % COLOR_IDS) {
                views.push(VirtualView {
                    key: placements[i].key,
                    bounds,
                    source: virtual_source(&placements[i]),
                });
                proof {
                    let id = cell_id(placements@[i as int].key);
                    let col = choose|col: int| #[trigger] carries(screen@, id, bounds.top as int, col);
                    assert(carries(screen@, id, bounds.top as int, col));
                    assert(views@.drop_last() =~= before);
                }
            }
        }
        i = i + 1;
    }
    views
}

/// One placement resolved to coordinates of the view. Sizes are fractions of cells,
/// and a placement partly above the view keeps its row.
#[derive(Clone, Copy, Debug)]
pub struct KittyPlacementView {
    pub image_id: u32,
    pub placement_id: u32,
    /// Top-left corner in cells of the view.
    pub row: Number,
    pub col: Number,
    /// Size in cells.
    pub columns: Number,
    pub rows: Number,
    /// The left, the top, the right and the bottom of the part of the image that is
    /// shown, each between zero and one.
    pub source_rect: [Number; 4],
    /// Used for draw order among images.
    pub z: i32,
}

impl KittyPlacementView {
    pub open spec fn equals(self, other: KittyPlacementView) -> bool {
        &&& self.image_id == other.image_id
        &&& self.placement_id == other.placement_id
        &&& self.row.equals(other.row)
        &&& self.col.equals(other.col)
        &&& self.columns.equals(other.columns)
        &&& self.rows.equals(other.rows)
        &&& self.source_rect@[0].equals(other.source_rect@[0])
        &&& self.source_rect@[1].equals(other.source_rect@[1])
        &&& self.source_rect@[2].equals(other.source_rect@[2])
        &&& self.source_rect@[3].equals(other.source_rect@[3])
        &&& self.z == other.z
    }

    pub fn same(&self, other: &KittyPlacementView) -> (r: bool)
        ensures
            r == self.equals(*other),
    {
        self.image_id == other.image_id && self.placement_id == other.placement_id && self.row.same(
            other.row,
        ) && self.col.same(other.col) && self.columns.same(other.columns) && self.rows.same(
            other.rows,
        ) && self.source_rect[0].same(other.source_rect[0]) && self.source_rect[1].same(
            other.source_rect[1],
        ) && self.source_rect[2].same(other.source_rect[2]) && self.source_rect[3].same(
            other.source_rect[3],
        ) && self.z == other.z
    }

    /// Whether this is drawn before another, or they are drawn in any order: by
    /// layer, and by number within a layer.
    pub open spec fn not_above(self, other: KittyPlacementView) -> bool {
        self.z < other.z || (self.z == other.z && (self.image_id < other.image_id || (self.image_id
            == other.image_id && self.placement_id <= other.placement_id)))
    }

    fn is_not_above(&self, other: &KittyPlacementView) -> (r: bool)
        ensures
            r == self.not_above(*other),
    {
        self.z < other.z || (self.z == other.z && (self.image_id < other.image_id || (self.image_id
            == other.image_id && self.placement_id <= other.placement_id)))
    }
}

/// Where a view goes among views that are in order: behind those that it is not
/// below.
pub open spec fn place_among(
    views: Seq<KittyPlacementView>,
    view: KittyPlacementView,
) -> Seq<KittyPlacementView>
    decreases views.len(),
{
    if views.len() == 0 {
        seq![view]
    } else if views.last().not_above(view) {
        views.push(view)
    } else {
        place_among(views.drop_last(), view).push(views.last())
    }
}

/// Views from back to front; those of one order stay in the order they were in.
pub open spec fn back_to_front(views: Seq<KittyPlacementView>) -> Seq<KittyPlacementView>
    decreases views.len(),
{
    if views.len() == 0 {
        Seq::empty()
    } else {
        place_among(back_to_front(views.drop_last()), views.last())
    }
}

pub open spec fn in_order(views: Seq<KittyPlacementView>) -> bool {
    forall|i: int, j: int|
        0 <= i < j < views.len() ==> (#[trigger] views[i]).not_above(#[trigger] views[j])
}

proof fn lemma_place_among(views: Seq<KittyPlacementView>, view: KittyPlacementView)
    requires
        in_order(views),
    ensures
        in_order(place_among(views, view)),
        place_among(views, view).to_multiset() == views.to_multiset().insert(view),
        place_among(views, view).len() == views.len() + 1,
        forall|k: int|
            0 <= k < place_among(views, view).len() ==> (#[trigger] place_among(views, view)[k])
                == view || exists|i: int| 0 <= i < views.len() && views[i] == place_among(
                views,
                view,
            )[k],
    decreases views.len(),
{
    broadcast use vstd::seq_lib::group_to_multiset_ensures;

    let placed = place_among(views, view);
    if views.len() == 0 {
        assert(seq![view] =~= views.push(view));
    } else if views.last().not_above(view) {
        assert forall|i: int, j: int| 0 <= i < j < placed.len() implies (
        #[trigger] placed[i]).not_above(#[trigger] placed[j]) by {
            if j == views.len() {
                assert(views[i].not_above(views.last()) || i == views.len() - 1);
            }
        }
        assert forall|k: int| 0 <= k < placed.len() implies (#[trigger] placed[k]) == view
            || exists|i: int| 0 <= i < views.len() && views[i] == placed[k] by {
            if k < views.len() {
                assert(views[k] == placed[k]);
            }
        }
    } else {
        let rest = views.drop_last();
        lemma_place_among(rest, view);
        let lower = place_among(rest, view);
        assert(views =~= rest.push(views.last()));
        assert forall|i: int, j: int| 0 <= i < j < placed.len() implies (
        #[trigger] placed[i]).not_above(#[trigger] placed[j]) by {
            if j == lower.len() {
                assert(placed[i] == lower[i]);
                if lower[i] != view {
                    let k = choose|k: int| 0 <= k < rest.len() && rest[k] == lower[i];
                    assert(views[k].not_above(views[views.len() - 1]));
                }
            } else {
                assert(lower[i].not_above(lower[j]));
            }
        }
        assert forall|k: int| 0 <= k < placed.len() implies (#[trigger] placed[k]) == view
            || exists|i: int| 0 <= i < views.len() && views[i] == placed[k] by {
            if k == lower.len() {
                assert(views[views.len() - 1] == placed[k]);
            } else {
                assert(placed[k] == lower[k]);
                if lower[k] != view {
                    let i = choose|i: int| 0 <= i < rest.len() && rest[i] == lower[k];
                    assert(views[i] == placed[k]);
                }
            }
        }
        assert(rest.to_multiset().insert(view).insert(views.last())
            =~= rest.to_multiset().insert(views.last()).insert(view));
    }
}

/// Sorting views puts them in order, and neither loses nor adds any.
pub proof fn law_views_are_drawn_in_order(views: Seq<KittyPlacementView>)
    ensures
        in_order(back_to_front(views)),
        back_to_front(views).to_multiset() == views.to_multiset(),
    decreases views.len(),
{
    broadcast use vstd::seq_lib::group_to_multiset_ensures;

    if views.len() > 0 {
        law_views_are_drawn_in_order(views.drop_last());
        lemma_place_among(back_to_front(views.drop_last()), views.last());
        assert(views =~= views.drop_last().push(views.last()));
    }
}

fn insert_view(views: &mut Vec<KittyPlacementView>, view: KittyPlacementView)
    ensures
        final(views)@ == place_among(old(views)@, view),
{
    let ghost start = views@;
    let mut n: usize = views.len();
    assert(start.take(n as int) =~= start);
    assert(place_among(start, view) =~= place_among(start.take(n as int), view)
        + start.subrange(n as int, start.len() as int));
    while n > 0 && !views[n - 1].is_not_above(&view)
        invariant
            n <= start.len(),
            views@ == start,
            place_among(start, view) == place_among(start.take(n as int), view) + start.subrange(
                n as int,
                start.len() as int,
            ),
        decreases n,
    {
        proof {
            let head = start.take(n as int);
            assert(head.drop_last() =~= start.take(n - 1));
            assert(head.last() == start[n - 1]);
            assert(place_among(start.take(n - 1), view).push(start[n - 1]) + start.subrange(
                n as int,
                start.len() as int,
            ) =~= place_among(start.take(n - 1), view) + start.subrange(
                n - 1,
                start.len() as int,
            ));
        }
        n = n - 1;
    }
    views.insert(n, view);
    proof {
        let head = start.take(n as int);
        assert(place_among(head, view) =~= head.push(view));
        assert(views@ =~= head.push(view) + start.subrange(n as int, start.len() as int));
    }
}

/// Sorts views from back to front.
pub fn sort_views(views: &Vec<KittyPlacementView>) -> (r: Vec<KittyPlacementView>)
    ensures
        r@ == back_to_front(views@),
{
    let mut r: Vec<KittyPlacementView> = Vec::new();
    let mut i: usize = 0;
    assert(views@.take(0) =~= Seq::<KittyPlacementView>::empty());
    while i < views.len()
        invariant
            i <= views@.len(),
            r@ == back_to_front(views@.take(i as int)),
        decreases views@.len() - i,
    {
        assert(views@.take(i + 1).drop_last() =~= views@.take(i as int));
        insert_view(&mut r, views[i]);
        i = i + 1;
    }
    assert(views@.take(i as int) =~= views@);
    r
}

/// Whether two lists of views are equal, one by one.
pub open spec fn views_equal(a: Seq<KittyPlacementView>, b: Seq<KittyPlacementView>) -> bool {
    a.len() == b.len() && forall|i: int| 0 <= i < a.len() ==> (#[trigger] a[i]).equals(b[i])
}

fn same_views(a: &Vec<KittyPlacementView>, b: &Vec<KittyPlacementView>) -> (r: bool)
    ensures
        r == views_equal(a@, b@),
{
    if a.len() != b.len() {
        return false;
    }
    let mut i: usize = 0;
    while i < a.len()
        invariant
            i <= a@.len() == b@.len(),
            forall|k: int| 0 <= k < i ==> (#[trigger] a@[k]).equals(b@[k]),
        decreases a@.len() - i,
    {
        if !a[i].same(&b[i]) {
            assert(!a@[i as int].equals(b@[i as int]));
            return false;
        }
        i = i + 1;
    }
    true
}

/// A decoded image, and when it was sent.
#[derive(Debug)]
pub struct KittyImage {
    pub raster: RasterObject,
    pub transmit_time: u64,
}

pub struct ImageModel {
    pub raster: RasterModel,
    pub transmit_time: u64,
}

impl View for KittyImage {
    type V = ImageModel;

    open spec fn view(&self) -> ImageModel {
        ImageModel { raster: self.raster@, transmit_time: self.transmit_time }
    }
}

/// An image that was sent, or sent again.
#[derive(Debug)]
pub struct PendingImage {
    pub image_id: u32,
    pub transmit_time: u64,
    pub data: GraphicData,
}

/// Images by number, and whether any of them changed.
pub struct ImagesModel {
    pub images: Map<u32, ImageModel>,
    pub changed: bool,
}

impl ImagesModel {
    /// Without the image of a key. Keys above the numbers of images are not for
    /// images.
    pub open spec fn without(self, key: u64) -> ImagesModel {
        if key <= u32::MAX {
            ImagesModel {
                images: self.images.remove(key as u32),
                changed: self.changed || self.images.dom().contains(key as u32),
            }
        } else {
            self
        }
    }

    pub open spec fn without_all(self, keys: Seq<u64>) -> ImagesModel
        decreases keys.len(),
    {
        if keys.len() == 0 {
            self
        } else {
            self.without_all(keys.drop_last()).without(keys.last())
        }
    }

    /// With an image that was sent. One that was sent at the same time as that of
    /// its number is the same, and one that makes no raster is dropped.
    pub open spec fn with(self, pending: PendingImage) -> ImagesModel {
        let id = pending.image_id;
        if self.images.dom().contains(id) && self.images[id].transmit_time
            == pending.transmit_time {
            self
        } else {
            match raster(pending.data) {
                None => self,
                Some(raster) => ImagesModel {
                    images: self.images.insert(
                        id,
                        ImageModel { raster, transmit_time: pending.transmit_time },
                    ),
                    changed: true,
                },
            }
        }
    }

    pub open spec fn with_all(self, pending: Seq<PendingImage>) -> ImagesModel
        decreases pending.len(),
    {
        if pending.len() == 0 {
            self
        } else {
            self.with_all(pending.drop_last()).with(pending.last())
        }
    }

    /// With the images among some numbers alone.
    pub open spec fn among(self, live: Seq<u32>) -> ImagesModel {
        ImagesModel {
            images: self.images.restrict(live.to_set()),
            changed: self.changed || !self.images.dom().subset_of(live.to_set()),
        }
    }
}

/// Images and the placements to draw.
#[derive(Debug)]
pub struct KittyGraphics {
    images: IdTable<KittyImage>,
    placements: Vec<KittyPlacementView>,
}

pub open spec fn images_view(images: Map<u32, KittyImage>) -> Map<u32, ImageModel> {
    Map::new(|id: u32| images.dom().contains(id), |id: u32| images[id]@)
}

impl KittyGraphics {
    pub closed spec fn images(&self) -> Map<u32, ImageModel> {
        images_view(self.images@)
    }

    pub closed spec fn views(&self) -> Seq<KittyPlacementView> {
        self.placements@
    }

    /// No images and no placements.
    pub fn new() -> (r: Self)
        ensures
            r.images() == Map::<u32, ImageModel>::empty(),
            r.views() == Seq::<KittyPlacementView>::empty(),
    {
        let r = KittyGraphics { images: IdTable::new(), placements: Vec::new() };
        assert(r.images() =~= Map::<u32, ImageModel>::empty());
        r
    }

    /// Returns the placements to draw, sorted back-to-front.
    pub fn placements(&self) -> (r: &Vec<KittyPlacementView>)
        ensures
            r@ == self.views(),
    {
        &self.placements
    }

    /// Returns the image backing a placement.
    pub fn image(&self, image_id: u32) -> (r: Option<&KittyImage>)
        ensures
            match r {
                Some(image) => self.images().dom().contains(image_id) && image@
                    == self.images()[image_id],
                None => !self.images().dom().contains(image_id),
            },
    {
        self.images.get(image_id)
    }

    /// Takes out the images of some keys, and puts in those that were sent. Says
    /// whether any image changed.
    pub fn apply_queues(&mut self, remove_queue: &Vec<u64>, pending_images: Vec<PendingImage>) -> (r:
        bool)
        ensures
            (ImagesModel { images: final(self).images(), changed: r }) == (ImagesModel {
                images: old(self).images(),
                changed: false,
            }).without_all(remove_queue@).with_all(pending_images@),
            final(self).views() == old(self).views(),
    {
        let ghost start = ImagesModel { images: self.images(), changed: false };
        let mut changed = false;
        let mut i: usize = 0;
        assert(remove_queue@.take(0) =~= Seq::<u64>::empty());
        while i < remove_queue.len()
            invariant
                i <= remove_queue@.len(),
                (ImagesModel { images: self.images(), changed }) == start.without_all(
                    remove_queue@.take(i as int),
                ),
                self.views() == old(self).views(),
            decreases remove_queue@.len() - i,
        {
            let key: u64 = remove_queue[i];
            let ghost before = self.images();
            assert(remove_queue@.take(i + 1).drop_last() =~= remove_queue@.take(i as int));
            if key <= u32::MAX as u64 {
                if self.images.remove(key as u32).is_some() {
                    changed = true;
                }
                assert(self.images() =~= before.remove(key as u32));
            }
            i = i + 1;
        }
        assert(remove_queue@.take(i as int) =~= remove_queue@);
        let ghost middle = ImagesModel { images: self.images(), changed };
        let ghost all = pending_images@;
        let mut pending_images = pending_images;
        let ghost mut done: int = 0;
        assert(all.take(0) =~= Seq::<PendingImage>::empty());
        assert(pending_images@ =~= all.subrange(0, all.len() as int));
        while pending_images.len() > 0
            invariant
                0 <= done <= all.len(),
                pending_images@ == all.subrange(done, all.len() as int),
                (ImagesModel { images: self.images(), changed }) == middle.with_all(
                    all.take(done),
                ),
                self.views() == old(self).views(),
            decreases pending_images@.len(),
        {
            let pending = pending_images.remove(0);
            proof {
                assert(pending == all[done]);
                assert(all.take(done + 1).drop_last() =~= all.take(done));
                assert(pending_images@ =~= all.subrange(done + 1, all.len() as int));
                done = done + 1;
            }
            let id: u32 = pending.image_id;
            let known = match self.images.get(id) {
                Some(image) => image.transmit_time == pending.transmit_time,
                None => false,
            };
            if !known {
                let transmit_time: u64 = pending.transmit_time;
                if let Some(raster) = rasterize(pending.data) {
                    let ghost before = self.images();
                    let image = KittyImage { raster, transmit_time };
                    let ghost model = image@;
                    self.images.insert(id, image);
                    assert(self.images() =~= before.insert(id, model));
                    changed = true;
                }
            }
        }
        assert(all.take(done) =~= all);
        changed
    }

    /// Takes out the images of some keys and puts in those that were sent, drops
    /// those that are not among the living, and draws placements from now on. Says
    /// whether anything that is drawn changed.
    pub fn refresh(
        &mut self,
        remove_queue: &Vec<u64>,
        pending_images: Vec<PendingImage>,
        live: &Vec<u32>,
        views: &Vec<KittyPlacementView>,
    ) -> (r: bool)
        ensures
            ({
                let after = (ImagesModel {
                    images: old(self).images(),
                    changed: false,
                }).without_all(remove_queue@).with_all(pending_images@).among(live@);
                let same = views_equal(back_to_front(views@), old(self).views());
                &&& final(self).images() == after.images
                &&& final(self).views() == (if same {
                    old(self).views()
                } else {
                    back_to_front(views@)
                })
                &&& r == (after.changed || !same)
            }),
    {
        let mut changed = self.apply_queues(remove_queue, pending_images);
        let ghost before = self.images();
        if self.images.retain(live) {
            changed = true;
        }
        assert(self.images() =~= before.restrict(live@.to_set()));
        let sorted = sort_views(views);
        if !same_views(&sorted, &self.placements) {
            self.placements = sorted;
            changed = true;
        }
        changed
    }
}

/// An image that is sent again for another placement is not decoded again, and
/// changes nothing.
pub proof fn law_repeated_images_change_nothing(images: ImagesModel, pending: PendingImage)
    requires
        raster(pending.data) is Some,
    ensures
        images.with(pending).with(pending) == images.with(pending),
{
}

/// What is drawn comes from images that are alive.
pub proof fn law_only_living_images_stay(images: ImagesModel, live: Seq<u32>, id: u32)
    ensures
        images.among(live).images.dom().contains(id) ==> live.contains(id),
{
}

/// Whether a cell of the view stands for the image with a number below 2^24: it shows the
/// placeholder character, on a row that holds some, and the three bytes of the number are
/// the red, the green and the blue of its foreground color.
pub open spec fn stands_for(screen: ScreenModel, id: int, row: int, col: int) -> bool {
    let grid = if screen.modes.alternate_screen { screen.alternate_grid } else { screen.grid };
    let rows = grid.visible();
    &&& 0 <= row < grid.size.rows
    &&& 0 <= col < grid.size.cols
    &&& col < rows[row].cells.len()
    &&& rows[row].placeholder
    &&& rows[row].cells[col].text.len() > 0
    &&& rows[row].cells[col].text[0] == '\u{10EEEE}'
    &&& rows[row].cells[col].attrs.fgcolor == Color::Rgb(
        (id / 65536) as u8,
        (id / 256 % 256) as u8,
        (id % 256) as u8,
    )
}

/// A placeholder cell carries the image whose number its foreground color spells.
pub proof fn law_colors_spell_image_numbers(screen: ScreenModel, id: int, row: int, col: int)
    requires
        0 <= id < 0x100_0000,
    ensures
        carries(screen, id, row, col) <==> stands_for(screen, id, row, col),
{
}

/// The bounds of an image hold every cell of the view that stands for it, and lie within
/// any others that do.
pub proof fn law_bounds_are_the_smallest(
    screen: ScreenModel,
    id: int,
    bounds: CellBounds,
    others: CellBounds,
)
    requires
        0 <= id < 0x100_0000,
        fitted(bounds, screen, id),
    ensures
        forall|row: int, col: int| #[trigger]
            stands_for(screen, id, row, col) ==> bounds.top <= row <= bounds.bottom && bounds.left
                <= col <= bounds.right,
        exists|row: int, col: int| #[trigger] stands_for(screen, id, row, col),
        (forall|row: int, col: int| #[trigger]
            stands_for(screen, id, row, col) ==> others.top <= row <= others.bottom && others.left
                <= col <= others.right) ==> others.top <= bounds.top && bounds.bottom
            <= others.bottom && others.left <= bounds.left && bounds.right <= others.right,
{
    assert forall|row: int, col: int| #[trigger] stands_for(screen, id, row, col) implies bounds.top
        <= row <= bounds.bottom && bounds.left <= col <= bounds.right by {
        law_colors_spell_image_numbers(screen, id, row, col);
        assert(carries(screen, id, row, col));
    }
    let top = choose|col: int| #[trigger] carries(screen, id, bounds.top as int, col);
    let bottom = choose|col: int| #[trigger] carries(screen, id, bounds.bottom as int, col);
    let left = choose|row: int| #[trigger] carries(screen, id, row, bounds.left as int);
    let right = choose|row: int| #[trigger] carries(screen, id, row, bounds.right as int);
    law_colors_spell_image_numbers(screen, id, bounds.top as int, top);
    law_colors_spell_image_numbers(screen, id, bounds.bottom as int, bottom);
    law_colors_spell_image_numbers(screen, id, left, bounds.left as int);
    law_colors_spell_image_numbers(screen, id, right, bounds.right as int);
    assert(stands_for(screen, id, bounds.top as int, top));
    assert(stands_for(screen, id, bounds.bottom as int, bottom));
    assert(stands_for(screen, id, left, bounds.left as int));
    assert(stands_for(screen, id, right, bounds.right as int));
}

/// The lowest 24 bits of the number of an image, which are what cells can say of it.
pub open spec fn low_bits(image_id: u32) -> int {
    image_id as int % 0x100_0000
}

/// Whether some cell of the view stands for an image.
#[verifier::opaque]
pub open spec fn some_cell_stands_for(screen: ScreenModel, id: int) -> bool {
    exists|row: int, col: int| #[trigger] stands_for(screen, id, row, col)
}

/// Whether a placement is seen: some cell stands for its image, and no later placement has
/// an image that cells cannot tell from it.
#[verifier::opaque]
pub open spec fn is_seen(
    placements: Seq<VirtualPlacement>,
    i: int,
    screen: ScreenModel,
) -> bool {
    &&& some_cell_stands_for(screen, low_bits(placements[i].key.image_id))
    &&& forall|j: int|
        i < j < placements.len() ==> low_bits((#[trigger] placements[j]).key.image_id) != low_bits(
            placements[i].key.image_id,
        )
}

/// Whether a view is that of a placement: it has its key, is fitted to the cells that stand
/// for its image, and shows the part of the image that is asked for.
#[verifier::opaque]
pub open spec fn shows_placement(
    view: VirtualView,
    placement: VirtualPlacement,
    screen: ScreenModel,
) -> bool {
    &&& view.key == placement.key
    &&& fitted(view.bounds, screen, low_bits(placement.key.image_id))
    &&& view.source == shown_part(placement)
}

/// Whether some view is that of a placement.
pub open spec fn has_view(
    views: Seq<VirtualView>,
    placement: VirtualPlacement,
    screen: ScreenModel,
) -> bool {
    exists|k: int| 0 <= k < views.len() && #[trigger] shows_placement(views[k], placement, screen)
}

/// Whether a view is that of one of the first placements, and that is seen.
pub open spec fn is_of_some(
    view: VirtualView,
    placements: Seq<VirtualPlacement>,
    n: int,
    screen: ScreenModel,
) -> bool {
    exists|i: int|
        0 <= i < n && #[trigger] is_seen(placements, i, screen) && shows_placement(
            view,
            placements[i],
            screen,
        )
}

/// Every virtual placement that is seen has a view, and every view is that of one.
pub proof fn law_seen_placements_have_views(
    views: Seq<VirtualView>,
    placements: Seq<VirtualPlacement>,
    screen: ScreenModel,
)
    requires
        virtual_views(views, placements, screen),
    ensures
        forall|i: int|
            0 <= i < placements.len() && #[trigger] is_seen(placements, i, screen) ==> has_view(
                views,
                placements[i],
                screen,
            ),
        forall|k: int|
            0 <= k < views.len() ==> is_of_some(
                #[trigger] views[k],
                placements,
                placements.len() as int,
                screen,
            ),
{
    lemma_views_of(views, placements, placements.len() as int, screen);
}

/// Cells carry an image exactly where they stand for it.
proof fn lemma_carried_is_stood(screen: ScreenModel, id: int)
    requires
        0 <= id < 0x100_0000,
    ensures
        (exists|row: int, col: int| #[trigger] carries(screen, id, row, col))
            <==> some_cell_stands_for(screen, id),
{
    reveal(some_cell_stands_for);
    if exists|row: int, col: int| #[trigger] carries(screen, id, row, col) {
        let (row, col) = choose|row: int, col: int| #[trigger] carries(screen, id, row, col);
        law_colors_spell_image_numbers(screen, id, row, col);
        assert(stands_for(screen, id, row, col));
    }
    if exists|row: int, col: int| #[trigger] stands_for(screen, id, row, col) {
        let (row, col) = choose|row: int, col: int| #[trigger] stands_for(screen, id, row, col);
        law_colors_spell_image_numbers(screen, id, row, col);
        assert(carries(screen, id, row, col));
    }
}

proof fn lemma_seen(placements: Seq<VirtualPlacement>, i: int, screen: ScreenModel)
    requires
        0 <= i < placements.len(),
    ensures
        is_seen(placements, i, screen) <==> addressed(placements, i) && exists|row: int, col: int|
            #[trigger] carries(screen, cell_id(placements[i].key), row, col),
{
    reveal(is_seen);
    let id = low_bits(placements[i].key.image_id);
    assert(cell_id(placements[i].key) == id);
    lemma_carried_is_stood(screen, id);
    assert forall|j: int| i < j < placements.len() implies cell_id((#[trigger] placements[j]).key)
        == low_bits(placements[j].key.image_id) by {}
    if addressed(placements, i) {
        assert forall|j: int| i < j < placements.len() implies low_bits(
            (#[trigger] placements[j]).key.image_id,
        ) != id by {
            assert(cell_id(placements[j].key) != cell_id(placements[i].key));
        }
    }
    if is_seen(placements, i, screen) {
        assert forall|j: int| i < j < placements.len() implies cell_id((#[trigger] placements[j]).key)
            != cell_id(placements[i].key) by {
            assert(low_bits(placements[j].key.image_id) != id);
        }
        assert(addressed(placements, i));
    }
}

proof fn lemma_views_of(
    views: Seq<VirtualView>,
    placements: Seq<VirtualPlacement>,
    n: int,
    screen: ScreenModel,
)
    requires
        virtual_views_of(views, placements, n, screen),
        0 <= n <= placements.len(),
    ensures
        forall|i: int|
            0 <= i < n && #[trigger] is_seen(placements, i, screen) ==> has_view(
                views,
                placements[i],
                screen,
            ),
        forall|k: int|
            0 <= k < views.len() ==> is_of_some(#[trigger] views[k], placements, n, screen),
    decreases n,
{
    if n > 0 {
        let last = n - 1;
        lemma_seen(placements, last, screen);
        let before = if is_seen(placements, last, screen) { views.drop_last() } else { views };
        lemma_views_of(before, placements, last, screen);
        if is_seen(placements, last, screen) {
            assert(shows_placement(views[views.len() - 1], placements[last], screen)) by {
                reveal(shows_placement);
            }
        }
        assert forall|i: int| 0 <= i < n && #[trigger] is_seen(placements, i, screen) implies has_view(
            views,
            placements[i],
            screen,
        ) by {
            if i < last {
                assert(has_view(before, placements[i], screen));
                let k = choose|k: int|
                    0 <= k < before.len() && #[trigger] shows_placement(
                        before[k],
                        placements[i],
                        screen,
                    );
                assert(shows_placement(views[k], placements[i], screen));
            } else {
                assert(shows_placement(views[views.len() - 1], placements[i], screen));
            }
        }
        assert forall|k: int| 0 <= k < views.len() implies is_of_some(
            #[trigger] views[k],
            placements,
            n,
            screen,
        ) by {
            if k < before.len() {
                assert(is_of_some(before[k], placements, last, screen));
                let i = choose|i: int|
                    0 <= i < last && #[trigger] is_seen(placements, i, screen) && shows_placement(
                        before[k],
                        placements[i],
                        screen,
                    );
                assert(is_seen(placements, i, screen));
            } else {
                assert(is_seen(placements, last, screen));
            }
        }
    }
}

/// What a virtual placement shows of its image starts where it is asked to and is as large
/// as it is asked to be, or goes to the edge of the image where it would go beyond, or
/// where no size is given. It is the whole image where it would start outside of it, or the
/// image is not stored.
pub proof fn law_virtual_placements_show_what_is_asked_for(placement: VirtualPlacement)
    ensures
        match (placement.image, shown_part(placement)) {
            (None, part) => part is Whole,
            (Some((width, height)), ShownPart::Whole) => placement.x >= width || placement.y >= height,
            (Some((image_width, image_height)), ShownPart::Part { x, y, width, height }) => {
                &&& placement.x < image_width && placement.y < image_height
                &&& x == placement.x && y == placement.y
                &&& x + width <= image_width && y + height <= image_height
                &&& placement.width > 0 && x + placement.width <= image_width ==> width
                    == placement.width
                &&& placement.width == 0 || x + placement.width > image_width ==> x + width
                    == image_width
                &&& placement.height > 0 && y + placement.height <= image_height ==> height
                    == placement.height
                &&& placement.height == 0 || y + placement.height > image_height ==> y + height
                    == image_height
            },
        },
{
}

/// A placement that is drawn stands as many rows below the top of the view as its row is
/// below the first row of the view, at its column, in its layer, and shows the part of the
/// image that is asked for, as far as the image goes. One that starts outside of its image
/// is not drawn.
pub proof fn law_placements_are_drawn_where_they_are(
    placement: DirectPlacement,
    image_width: usize,
    image_height: usize,
    cell_width: usize,
    cell_height: usize,
    top: i64,
)
    ensures
        placement.source_x >= image_width || placement.source_y >= image_height ==> direct_view(
            placement,
            image_width,
            image_height,
            cell_width,
            cell_height,
            top,
        ) is None,
        direct_view(placement, image_width, image_height, cell_width, cell_height, top) matches Some(
            view,
        ) ==> {
            let wanted_width = placement.source_width;
            let wanted_height = placement.source_height;
            &&& view.image_id == placement.image_id
            &&& view.placement_id == placement.placement_id
            &&& view.z == placement.z_index
            &&& view.col == placement.dest_col
            &&& i64::MIN <= placement.dest_row - top <= i64::MAX ==> view.row == placement.dest_row
                - top
            &&& view.source_x == placement.source_x
            &&& view.source_y == placement.source_y
            &&& view.source_x + view.source_width <= image_width
            &&& view.source_y + view.source_height <= image_height
            &&& wanted_width > 0 && view.source_x + wanted_width <= image_width
                ==> view.source_width == wanted_width
            &&& wanted_width == 0 || view.source_x + wanted_width > image_width ==> view.source_x
                + view.source_width == image_width
            &&& wanted_height > 0 && view.source_y + wanted_height <= image_height
                ==> view.source_height == wanted_height
            &&& wanted_height == 0 || view.source_y + wanted_height > image_height
                ==> view.source_y + view.source_height == image_height
            &&& view.display_width > 0 && view.display_height > 0
        },
{
}

/// The first row of the view is as many rows above the first one of the screen as the view
/// is scrolled back, and the first one of the screen follows all that were given up or are
/// in history.
pub proof fn law_the_view_starts_above_the_screen(evicted: u32, history: u32, offset: u32)
    ensures
        viewport_top(evicted, history, 0) == evicted + history,
        viewport_top(evicted, history, offset) + offset == viewport_top(evicted, history, 0),
{
}

/// An image that has all its pixels is drawn with them: each keeps its red, its green and
/// its blue, and is opaque where it has no alpha of its own. Any other image is not drawn.
pub proof fn law_pixels_keep_their_colors(data: GraphicData, pixel: int, channel: int)
    requires
        0 <= pixel < data.width * data.height,
        0 <= channel < 4,
    ensures
        match raster(data) {
            None => data.width > u32::MAX || data.height > u32::MAX || (data.color_type is Rgb
                && data.pixels@.len() != data.width * data.height * 3) || (data.color_type is Rgba
                && data.pixels@.len() != data.width * data.height * 4),
            Some(image) => {
                &&& image.width == data.width
                &&& image.height == data.height
                &&& image.rgba.len() == data.width * data.height * 4
                &&& data.color_type is Rgba ==> image.rgba[pixel * 4 + channel] == data.pixels@[pixel
                    * 4 + channel]
                &&& data.color_type is Rgb && channel < 3 ==> image.rgba[pixel * 4 + channel]
                    == data.pixels@[pixel * 3 + channel]
                &&& data.color_type is Rgb && channel == 3 ==> image.rgba[pixel * 4 + channel] == 255
            },
        },
{
    let i = pixel * 4 + channel;
    assert(i / 4 == pixel && i % 4 == channel);
    assert(i < data.width * data.height * 4);
}

/// What is drawn first is behind: in a lower layer, or in the same layer of an image with a
/// lower number, or of the same image a placement with a lower number.
pub proof fn law_layers_are_drawn_from_back_to_front(
    views: Seq<KittyPlacementView>,
    i: int,
    j: int,
)
    requires
        0 <= i < j < back_to_front(views).len(),
    ensures
        ({
            let (a, b) = (back_to_front(views)[i], back_to_front(views)[j]);
            &&& a.z <= b.z
            &&& a.z == b.z ==> a.image_id <= b.image_id
            &&& a.z == b.z && a.image_id == b.image_id ==> a.placement_id <= b.placement_id
        }),
{
    law_views_are_drawn_in_order(views);
    assert(back_to_front(views)[i].not_above(back_to_front(views)[j]));
}

/// An image that is taken out is gone, one that was sent and has its pixels is there, drawn
/// from them, and of the rest those that live stay as they are.
pub proof fn law_images_come_and_go(
    images: ImagesModel,
    key: u64,
    pending: PendingImage,
    live: Seq<u32>,
    id: u32,
)
    ensures
        ({
            let without = images.without(key).images;
            let with = images.with(pending);
            let among = images.among(live);
            &&& id == key ==> !without.dom().contains(id)
            &&& id != key ==> without.dom().contains(id) == images.images.dom().contains(id)
            &&& id != key && images.images.dom().contains(id) ==> without[id] == images.images[id]
            &&& images.images.dom().contains(id) && id == key ==> images.without(key).changed
            &&& pending.image_id == id && raster(pending.data) is Some && !(
            images.images.dom().contains(id) && images.images[id].transmit_time
                == pending.transmit_time) ==> {
                &&& with.changed
                &&& with.images.dom().contains(id)
                &&& raster(pending.data) == Some(with.images[id].raster)
                &&& with.images[id].transmit_time == pending.transmit_time
            }
            &&& pending.image_id != id || raster(pending.data) is None ==> {
                &&& with.images.dom().contains(id) == images.images.dom().contains(id)
                &&& images.images.dom().contains(id) ==> with.images[id] == images.images[id]
            }
            &&& among.images.dom().contains(id) <==> images.images.dom().contains(id)
                && live.contains(id)
            &&& among.images.dom().contains(id) ==> among.images[id] == images.images[id]
            &&& images.images.dom().contains(id) && !live.contains(id) ==> among.changed
            &&& images.changed ==> images.without(key).changed && with.changed && among.changed
        }),
{
}

/// Views are equal where every part of them is, and lists of them where each is equal to the
/// one at its place.
pub proof fn law_equal_views_look_the_same(
    a: Seq<KittyPlacementView>,
    b: Seq<KittyPlacementView>,
    i: int,
    k: int,
)
    requires
        0 <= i < a.len(),
        0 <= k < 4,
        views_equal(a, b),
    ensures
        a.len() == b.len(),
        a[i].image_id == b[i].image_id,
        a[i].placement_id == b[i].placement_id,
        a[i].z == b[i].z,
        a[i].row.equals(b[i].row),
        a[i].col.equals(b[i].col),
        a[i].columns.equals(b[i].columns),
        a[i].rows.equals(b[i].rows),
        a[i].source_rect@[k].equals(b[i].source_rect@[k]),
{
    assert(a[i].equals(b[i]));
}

/// Images are taken out, and put in, one after the other.
pub proof fn law_images_are_changed_in_order(
    images: ImagesModel,
    keys: Seq<u64>,
    key: u64,
    pending: Seq<PendingImage>,
    image: PendingImage,
)
    ensures
        images.without_all(Seq::empty()) == images,
        images.without_all(keys.push(key)) == images.without_all(keys).without(key),
        images.with_all(Seq::empty()) == images,
        images.with_all(pending.push(image)) == images.with_all(pending).with(image),
{
    assert(keys.push(key).drop_last() =~= keys);
    assert(pending.push(image).drop_last() =~= pending);
}

} // verus!
