//! How a terminal is shown: presentation modes, surfaces and meshes.

use crate::number::{Number, ONE, ZERO};
use vstd::prelude::*;

verus! {

/// How a terminal is shown.
#[derive(Clone, Copy, Debug, PartialEq, Eq, Structural)]
pub enum TerminalPresentationMode {
    /// Flat, as a sprite.
    Flat2d,
    /// On a plane in orthographic projection.
    Plane3d,
    /// On a plane in perspective.
    Perspective3d,
    /// On a Mobius strip.
    Mobius3d,
}

impl Default for TerminalPresentationMode {
    fn default() -> (r: Self)
        ensures
            r == TerminalPresentationMode::Flat2d,
    {
        TerminalPresentationMode::Flat2d
    }
}

impl TerminalPresentationMode {
    pub open spec fn spatial(self) -> bool {
        self != TerminalPresentationMode::Flat2d
    }

    /// Flat where the terminal is shown in space, and a plane in space where it is flat.
    pub open spec fn toggled(self) -> TerminalPresentationMode {
        if self.spatial() {
            TerminalPresentationMode::Flat2d
        } else {
            TerminalPresentationMode::Plane3d
        }
    }

    /// Whether the terminal is shown in space.
    pub fn is_3d(self) -> (r: bool)
        ensures
            r == self.spatial(),
    {
        match self {
            TerminalPresentationMode::Flat2d => false,
            _ => true,
        }
    }
}

/// The presentation that is active.
#[derive(Clone, Copy, Debug)]
pub struct TerminalPresentation {
    pub mode: TerminalPresentationMode,
}

impl TerminalPresentation {
    /// Goes from the flat presentation to the plane, and back from any other.
    pub fn toggle(&mut self)
        ensures
            final(self).mode == old(self).mode.toggled(),
    {
        self.mode = match self.mode {
            TerminalPresentationMode::Flat2d => TerminalPresentationMode::Plane3d,
            _ => TerminalPresentationMode::Flat2d,
        };
    }
}

/// What is seen in a presentation mode.
#[derive(Clone, Copy, Debug, PartialEq, Eq, Structural)]
pub struct PresentationVisibility {
    /// Whether the flat sprite is seen.
    pub sprite: bool,
    /// Whether the plane, and its back, are seen.
    pub plane: bool,
}

/// What is seen in a presentation mode: the sprite or the plane, never both.
pub fn presentation_visibility(mode: TerminalPresentationMode) -> (r: PresentationVisibility)
    ensures
        r.sprite == !mode.spatial(),
        r.plane == mode.spatial(),
{
    let spatial = mode.is_3d();
    PresentationVisibility { sprite: !spatial, plane: spatial }
}

/// Which surface a terminal is drawn on.
#[derive(Clone, Copy, Debug, PartialEq, Eq, Structural)]
pub enum TerminalSurfaceKind {
    /// That of the presentation mode.
    ModeDefault,
    /// One given by control points.
    Custom,
}

/// The surface of a terminal, with its control points row by row.
#[derive(Debug)]
pub struct TerminalSurfaceShape {
    pub kind: TerminalSurfaceKind,
    pub amplitude: Number,
    pub control_columns: u8,
    pub control_rows: u8,
    pub control_points: Vec<[Number; 3]>,
}

impl TerminalSurfaceShape {
    /// Whether a custom surface has one point for each place of its lattice, and
    /// another surface has none.
    pub open spec fn wf(&self) -> bool {
        match self.kind {
            TerminalSurfaceKind::ModeDefault => self.control_columns == 0 && self.control_rows == 0
                && self.control_points@.len() == 0,
            TerminalSurfaceKind::Custom => 2 <= self.control_columns <= 8 && 2 <= self.control_rows
                <= 8 && self.control_points@.len() == self.control_columns * self.control_rows,
        }
    }
}

/// How strongly the surface is deformed.
#[derive(Debug)]
pub struct TerminalPlaneWarp {
    pub amount: Number,
    pub shape: TerminalSurfaceShape,
}

impl TerminalPlaneWarp {
    /// Sets the strength to `sum`, which is the strength so far and a change to it,
    /// held between zero and one.
    pub fn adjust(&mut self, sum: Number)
        ensures
            final(self).amount == (sum.clamped(Number { bits: ZERO }, Number { bits: ONE })),
            final(self).shape == old(self).shape,
    {
        self.amount = sum.clamp(Number { bits: ZERO }, Number { bits: ONE });
    }
}

/// The color behind the plane: that of the terminal, somewhat darker.
pub fn back_color(background: [u8; 3]) -> (r: [u8; 4])
    ensures
        r@ == seq![
            darker(background@[0], 13),
            darker(background@[1], 11),
            darker(background@[2], 3),
            255u8,
        ],
{
    let r = [
        background[0].saturating_sub(13),
        background[1].saturating_sub(11),
        background[2].saturating_sub(3),
        255,
    ];
    assert(r@ =~= seq![
        darker(background@[0], 13),
        darker(background@[1], 11),
        darker(background@[2], 3),
        255u8,
    ]);
    r
}

pub open spec fn darker(value: u8, amount: u8) -> u8 {
    if value < amount {
        0
    } else {
        (value - amount) as u8
    }
}

/// How many segments a side of a plane has at least.
pub const MIN_SEGMENTS: u32 = 2;

/// The segments that a side of a plane is given.
pub open spec fn segments(wanted: u32) -> u32 {
    if wanted < MIN_SEGMENTS {
        MIN_SEGMENTS
    } else {
        wanted
    }
}

/// The two triangles of the segment in a column and a row, as six vertices.
/// Vertices are counted row by row, and a row has one more than there are
/// segments.
pub open spec fn segment_triangles(columns: int, x: int, y: int) -> Seq<int> {
    let above = y * (columns + 1) + x;
    let below = (y + 1) * (columns + 1) + x;
    seq![above, below, above + 1, above + 1, below, below + 1]
}

/// The place of the `i`-th vertex of the triangles of a plane.
pub open spec fn plane_index(columns: int, i: int) -> int {
    segment_triangles(columns, (i / 6) % columns, (i / 6) / columns)[i % 6]
}

/// The triangles of a plane, segment by segment and row by row.
pub fn terminal_plane_indices(x_segments: u32, y_segments: u32) -> (r: Vec<u32>)
    requires
        (segments(x_segments) + 1) * (segments(y_segments) + 1) <= u32::MAX,
    ensures
        r@.len() == segments(x_segments) * segments(y_segments) * 6,
        forall|i: int|
            0 <= i < r@.len() ==> #[trigger] r@[i] == plane_index(
                segments(x_segments) as int,
                i,
            ),
{
    let columns: u32 = if x_segments < MIN_SEGMENTS {
        MIN_SEGMENTS
    } else {
        x_segments
    };
    let rows: u32 = if y_segments < MIN_SEGMENTS {
        MIN_SEGMENTS
    } else {
        y_segments
    };
    let mut r: Vec<u32> = Vec::new();
    let mut y: u32 = 0;
    assert(0 * columns == 0);
    while y < rows
        invariant
            y <= rows,
            2 <= columns,
            (columns + 1) * (rows + 1) <= u32::MAX,
            r@.len() == y * columns * 6,
            forall|i: int| 0 <= i < r@.len() ==> #[trigger] r@[i] == plane_index(columns as int, i),
        decreases rows - y,
    {
        let mut x: u32 = 0;
        while x < columns
            invariant
                y < rows,
                x <= columns,
                2 <= columns,
                (columns + 1) * (rows + 1) <= u32::MAX,
                r@.len() == (y * columns + x) * 6,
                forall|i: int|
                    0 <= i < r@.len() ==> #[trigger] r@[i] == plane_index(columns as int, i),
            decreases columns - x,
        {
            let ghost before = r@;
            let ghost place = y * columns + x;
            assert(y * (columns + 1) + columns + 1 <= (rows - 1) * (columns + 1) + columns + 1)
                by (nonlinear_arith)
                requires
                    y <= rows - 1,
            ;
            assert((rows - 1) * (columns + 1) + columns + 1 + columns + 1 == (columns + 1) * (rows
                + 1)) by (nonlinear_arith);
            assert((y + 1) * (columns + 1) == y * (columns + 1) + columns + 1) by (nonlinear_arith);
            assert(0 <= y * (columns + 1)) by (nonlinear_arith)
                requires
                    0 <= y,
                    0 <= columns,
            ;
            let row: u32 = y * (columns + 1);
            let next_row: u32 = (y + 1) * (columns + 1);
            let i0: u32 = row + x;
            let i2: u32 = next_row + x;
            r.push(i0);
            r.push(i2);
            r.push(i0 + 1);
            r.push(i0 + 1);
            r.push(i2);
            r.push(i2 + 1);
            proof {
                vstd::arithmetic::div_mod::lemma_fundamental_div_mod_converse(
                    place,
                    columns as int,
                    y as int,
                    x as int,
                );
                assert forall|i: int| 0 <= i < r@.len() implies #[trigger] r@[i] == plane_index(
                    columns as int,
                    i,
                ) by {
                    if i < before.len() {
                        assert(r@[i] == before[i]);
                    } else {
                        assert(i / 6 == place);
                        assert(i % 6 == i - 6 * place);
                    }
                }
            }
            x = x + 1;
        }
        assert((y + 1) * columns == y * columns + columns) by (nonlinear_arith);
        y = y + 1;
    }
    assert(rows * columns == columns * rows) by (nonlinear_arith);
    r
}

/// Every vertex of a plane's triangles is one of its vertices.
pub proof fn law_triangles_use_the_vertices(columns: int, rows: int, i: int)
    requires
        2 <= columns,
        2 <= rows,
        0 <= i < columns * rows * 6,
    ensures
        0 <= plane_index(columns, i) < (columns + 1) * (rows + 1),
{
    let place = i / 6;
    let x = place % columns;
    let y = place / columns;
    vstd::arithmetic::div_mod::lemma_fundamental_div_mod(place, columns);
    assert(place < columns * rows);
    assert(0 <= y < rows) by (nonlinear_arith)
        requires
            place == columns * y + x,
            0 <= x < columns,
            0 <= place < columns * rows,
    ;
    assert((y + 1) * (columns + 1) + x + 1 < (columns + 1) * (rows + 1)) by (nonlinear_arith)
        requires
            0 <= x < columns,
            0 <= y < rows,
    ;
    assert(0 <= y * (columns + 1)) by (nonlinear_arith)
        requires
            0 <= y,
            0 <= columns,
    ;
    assert((y + 1) * (columns + 1) == y * (columns + 1) + columns + 1) by (nonlinear_arith);
}

} // verus!
