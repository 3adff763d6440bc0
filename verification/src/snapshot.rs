//! Structured observations of the visible terminal grid.

use crate::ratty_vt::attrs::{Attrs, AttrsModel, Blink, Color, Intensity};
use crate::ratty_vt::cell::{Cell, CellModel};
use crate::ratty_vt::row::{Row, RowModel};
use crate::ratty_vt::screen::{MouseProtocolEncoding, MouseProtocolMode, Screen};
use crate::ratty_vt::screen_model::{ScreenModel, KITTY_PLACEHOLDER};
use crate::text::{chars_of, part_of, string_of};
use vstd::prelude::*;
use vstd::string::*;

verus! {

/// A terminal-cell rectangle used to restrict an observation.
#[derive(Clone, Copy, Debug, PartialEq, Eq, Structural)]
pub struct SnapshotRect {
    /// First absolute terminal row.
    pub row: u16,
    /// First absolute terminal column.
    pub column: u16,
    /// Number of rows to cover.
    pub rows: u16,
    /// Number of columns to cover.
    pub columns: u16,
}

/// Options for a canonical screen observation.
#[derive(Clone, Copy, Debug, PartialEq, Eq, Structural)]
pub struct SnapshotRequest {
    /// Optional terminal-cell rectangle.
    pub rect: Option<SnapshotRect>,
    /// Also give the style table used by run style indices.
    pub include_styles: bool,
    /// Also give a plain-text rendering of each row.
    pub include_plain: bool,
}

/// Exact text and terminal width at an absolute screen position.
#[derive(Debug, PartialEq, Eq)]
pub struct SnapshotRun {
    /// Absolute starting terminal column.
    pub column: u16,
    /// Width in terminal cells.
    pub columns: u16,
    /// Exact text stored for the displayed cell or cells.
    pub text: String,
    /// Index into the snapshot style table.
    pub style: u32,
}

/// One visible physical terminal row.
#[derive(Debug, PartialEq, Eq)]
pub struct SnapshotRow {
    /// Absolute terminal row.
    pub row: u16,
    /// Whether this physical row wraps into the next row.
    pub wrapped: bool,
    /// Whether the row contains a Kitty graphics placeholder.
    pub graphics_placeholder: bool,
    /// Positioned cell runs.
    pub runs: Vec<SnapshotRun>,
    /// Optional convenience view derived only from positioned runs.
    pub plain: Option<String>,
}

/// A deduplicated terminal cell style.
#[derive(Debug, PartialEq, Eq)]
pub struct SnapshotStyle {
    /// Foreground color (`default`, `indexed:N`, or `rgb:R,G,B`).
    pub foreground: String,
    /// Background color (`default`, `indexed:N`, or `rgb:R,G,B`).
    pub background: String,
    /// Bold intensity.
    pub bold: bool,
    /// Dim intensity.
    pub dim: bool,
    /// Italic text.
    pub italic: bool,
    /// Underlined text.
    pub underline: bool,
    /// Underline color (`default`, `indexed:N`, or `rgb:R,G,B`).
    pub underline_color: String,
    /// Inverse foreground/background.
    pub inverse: bool,
    /// Blink mode (`none`, `slow`, or `rapid`).
    pub blink: String,
    /// Concealed text.
    pub hidden: bool,
    /// Struck-through text.
    pub strikeout: bool,
}

/// Display cursor returned to agents.
#[derive(Clone, Copy, Debug, PartialEq, Eq, Structural)]
pub struct SnapshotCursor {
    /// Absolute terminal row.
    pub row: u16,
    /// Absolute terminal column.
    pub column: u16,
    /// Whether the application text cursor is visible.
    pub visible: bool,
}

/// Input modes that affect keyboard, paste, and mouse behavior.
#[derive(Debug, PartialEq, Eq)]
pub struct SnapshotModes {
    pub alternate_screen: bool,
    pub application_cursor: bool,
    pub application_keypad: bool,
    pub bracketed_paste: bool,
    /// Active terminal mouse protocol.
    pub mouse_protocol: String,
    /// Active terminal mouse encoding.
    pub mouse_encoding: String,
    /// Kitty keyboard protocol flags.
    pub kitty_keyboard_flags: u8,
    /// xterm modifyOtherKeys level.
    pub modify_other_keys: Option<u8>,
}

/// Canonical structured view of the visible terminal grid.
#[derive(Debug, PartialEq, Eq)]
pub struct ScreenSnapshot {
    /// Observable-state revision; zero until a cache assigns one.
    pub screen_revision: u64,
    /// Full screen width in terminal columns.
    pub columns: u16,
    /// Full screen height in terminal rows.
    pub rows: u16,
    /// Requested visible rows containing content, visible styling, or wrapping.
    pub content: Vec<SnapshotRow>,
    /// Deduplicated styles when requested.
    pub styles: Option<Vec<SnapshotStyle>>,
    /// Display cursor.
    pub cursor: SnapshotCursor,
    /// Input modes affecting interaction.
    pub modes: SnapshotModes,
}

// What they say.

pub struct RunModel {
    pub column: u16,
    pub columns: u16,
    pub text: Seq<char>,
    pub style: u32,
}

pub struct RowViewModel {
    pub row: u16,
    pub wrapped: bool,
    pub graphics_placeholder: bool,
    pub runs: Seq<RunModel>,
    pub plain: Option<Seq<char>>,
}

impl View for SnapshotRun {
    type V = RunModel;

    open spec fn view(&self) -> RunModel {
        RunModel { column: self.column, columns: self.columns, text: self.text@, style: self.style }
    }
}

pub open spec fn runs_view(runs: Seq<SnapshotRun>) -> Seq<RunModel> {
    Seq::new(runs.len(), |i: int| runs[i]@)
}

impl View for SnapshotRow {
    type V = RowViewModel;

    open spec fn view(&self) -> RowViewModel {
        RowViewModel {
            row: self.row,
            wrapped: self.wrapped,
            graphics_placeholder: self.graphics_placeholder,
            runs: runs_view(self.runs@),
            plain: match self.plain {
                Some(plain) => Some(plain@),
                None => None,
            },
        }
    }
}

pub open spec fn content_view(content: Seq<SnapshotRow>) -> Seq<RowViewModel> {
    Seq::new(content.len(), |i: int| content[i]@)
}

/// A number in decimal.
pub open spec fn number_text(n: nat) -> Seq<char>
    decreases n,
{
    if n < 10 {
        seq![(48 + n) as char]
    } else {
        number_text(n / 10).push((48 + n % 10) as char)
    }
}

/// The name of a color.
pub open spec fn color_name(color: Color) -> Seq<char> {
    match color {
        Color::Default => "default"@,
        Color::Idx(index) => "indexed:"@ + number_text(index as nat),
        Color::Rgb(red, green, blue) => "rgb:"@ + number_text(red as nat) + ","@ + number_text(
            green as nat,
        ) + ","@ + number_text(blue as nat),
    }
}

pub open spec fn blink_name(blink: Blink) -> Seq<char> {
    match blink {
        Blink::Steady => "none"@,
        Blink::Slow => "slow"@,
        Blink::Rapid => "rapid"@,
    }
}

/// Whether a style says what attributes say.
pub open spec fn describes(style: SnapshotStyle, attrs: AttrsModel) -> bool {
    &&& style.foreground@ == color_name(attrs.fgcolor)
    &&& style.background@ == color_name(attrs.bgcolor)
    &&& style.bold == (attrs.intensity == Intensity::Bold)
    &&& style.dim == (attrs.intensity == Intensity::Dim)
    &&& style.italic == attrs.italic
    &&& style.underline == attrs.underline
    &&& style.underline_color@ == color_name(attrs.underline_color)
    &&& style.inverse == attrs.inverse
    &&& style.blink@ == blink_name(attrs.blink)
    &&& style.hidden == attrs.hidden
    &&& style.strikeout == attrs.strikeout
}

pub open spec fn saturated(n: int) -> u16 {
    if n > u16::MAX {
        u16::MAX
    } else {
        n as u16
    }
}

/// Whether text is printable ASCII: one column and one byte per character.
pub open spec fn is_printable(text: Seq<char>) -> bool {
    forall|i: int| 0 <= i < text.len() ==> ' ' <= #[trigger] text[i] && text[i] <= '~'
}

/// The index of attributes in a style table.
pub open spec fn style_position(styles: Seq<AttrsModel>, attrs: AttrsModel, i: int) -> Option<int>
    decreases styles.len() - i,
{
    if i < 0 || i >= styles.len() {
        None
    } else if styles[i] == attrs {
        Some(i)
    } else {
        style_position(styles, attrs, i + 1)
    }
}

pub open spec fn index_of(n: int) -> u32 {
    if n > u32::MAX {
        u32::MAX
    } else {
        n as u32
    }
}

/// A style table that has attributes, and their index in it.
pub open spec fn style_entered(styles: Seq<AttrsModel>, attrs: AttrsModel) -> (Seq<AttrsModel>, u32) {
    match style_position(styles, attrs, 0) {
        Some(i) => (styles, index_of(i)),
        None => (styles.push(attrs), index_of(styles.len() as int)),
    }
}

/// An observation of a row in the making.
pub struct ObservedModel {
    pub runs: Seq<RunModel>,
    pub styles: Seq<AttrsModel>,
    pub placeholder: bool,
}

/// Whether a run can be extended by a printable character at a column.
pub open spec fn extends_run(runs: Seq<RunModel>, column: int, style: u32) -> bool {
    runs.len() > 0 && {
        let last = runs.last();
        last.style == style && saturated(last.column + last.columns) == column && is_printable(last.text)
    }
}

/// The runs with the text of one more cell: printable ASCII of one style runs
/// together, any other cell stands alone.
pub open spec fn run_added(
    runs: Seq<RunModel>,
    column: int,
    width: int,
    text: Seq<char>,
    style: u32,
) -> Seq<RunModel> {
    if width == 1 && text.len() > 0 && is_printable(text) && extends_run(runs, column, style) {
        let last = runs.last();
        runs.update(
            runs.len() - 1,
            RunModel {
                text: last.text + text,
                columns: saturated(last.columns + 1),
                ..last
            },
        )
    } else {
        runs.push(RunModel { column: column as u16, columns: width as u16, text, style })
    }
}

impl ObservedModel {
    /// One more cell observed, if it lies in the columns asked for. Cells
    /// without text count where their style can be seen; graphics placeholders
    /// are noted and shown as blanks.
    pub open spec fn step(self, cell: CellModel, column: int, from: int, to: int) -> Self {
        let width = if cell.wide { 2int } else { 1int };
        if cell.continuation || column >= to || saturated(column + width) <= from {
            self
        } else {
            let placeholder = cell.text.len() > 0 && cell.text[0] == KITTY_PLACEHOLDER;
            let noted = ObservedModel { placeholder: self.placeholder || placeholder, ..self };
            if cell.attrs == AttrsModel::plain() && (cell.text.len() == 0 || placeholder) {
                noted
            } else {
                let text = if placeholder || cell.text.len() == 0 { seq![' '] } else { cell.text };
                let (styles, style) = style_entered(self.styles, cell.attrs);
                ObservedModel {
                    runs: run_added(self.runs, column, width, text, style),
                    styles,
                    ..noted
                }
            }
        }
    }
}

/// The first `n` cells of a row observed.
pub open spec fn cells_observed(
    cells: Seq<CellModel>,
    n: int,
    from: int,
    to: int,
    styles: Seq<AttrsModel>,
) -> ObservedModel
    decreases n,
{
    if n <= 0 {
        ObservedModel { runs: Seq::empty(), styles, placeholder: false }
    } else {
        cells_observed(cells, n - 1, from, to, styles).step(cells[n - 1], n - 1, from, to)
    }
}

/// The text of runs, with blanks for the columns between them.
pub open spec fn plain_text(runs: Seq<RunModel>, n: int) -> (Seq<char>, u16)
    decreases n,
{
    if n <= 0 {
        (Seq::empty(), 0)
    } else {
        let (before, column) = plain_text(runs, n - 1);
        let run = runs[n - 1];
        let gap = if run.column > column { run.column - column } else { 0 };
        (
            before + Seq::new(gap as nat, |i: int| ' ') + run.text,
            saturated(run.column + run.columns),
        )
    }
}

pub open spec fn plain_view(runs: Seq<RunModel>, wanted: bool) -> Option<Seq<char>> {
    if wanted {
        Some(plain_text(runs, runs.len() as int).0)
    } else {
        None
    }
}

/// The rows and columns that a request asks for.
pub struct SpanModel {
    pub row_start: int,
    pub row_end: int,
    pub column_start: int,
    pub column_end: int,
}

pub open spec fn at_most(n: u16, max: u16) -> int {
    if n < max {
        n as int
    } else {
        max as int
    }
}

pub open spec fn requested_span(rect: Option<SnapshotRect>, rows: u16, columns: u16) -> SpanModel {
    match rect {
        None => SpanModel {
            row_start: 0,
            row_end: rows as int,
            column_start: 0,
            column_end: columns as int,
        },
        Some(rect) => SpanModel {
            row_start: at_most(rect.row, rows),
            row_end: at_most(saturated(rect.row + rect.rows), rows),
            column_start: at_most(rect.column, columns),
            column_end: at_most(saturated(rect.column + rect.columns), columns),
        },
    }
}

/// The rows `start..n` observed: their contents and the styles in them. Rows
/// without anything to tell are left out.
pub open spec fn rows_observed(
    rows: Seq<RowModel>,
    columns: int,
    span: SpanModel,
    n: int,
    include_plain: bool,
) -> (Seq<RowViewModel>, Seq<AttrsModel>)
    decreases n,
{
    if n <= span.row_start || n <= 0 {
        (Seq::empty(), seq![AttrsModel::plain()])
    } else {
        let (content, styles) = rows_observed(rows, columns, span, n - 1, include_plain);
        let row = rows[n - 1];
        let width = if row.cells.len() < columns { row.cells.len() as int } else { columns };
        let observed = cells_observed(
            row.cells,
            width,
            span.column_start,
            span.column_end,
            styles,
        );
        if observed.runs.len() == 0 && !row.wrapped && !observed.placeholder {
            (content, observed.styles)
        } else {
            (
                content.push(
                    RowViewModel {
                        row: (n - 1) as u16,
                        wrapped: row.wrapped,
                        graphics_placeholder: observed.placeholder,
                        runs: observed.runs,
                        plain: plain_view(observed.runs, include_plain),
                    },
                ),
                observed.styles,
            )
        }
    }
}

pub open spec fn mouse_mode_name(mode: MouseProtocolMode) -> Seq<char> {
    match mode {
        MouseProtocolMode::Off => "none"@,
        MouseProtocolMode::Press => "press"@,
        MouseProtocolMode::PressRelease => "press_release"@,
        MouseProtocolMode::ButtonMotion => "button_motion"@,
        MouseProtocolMode::AnyMotion => "any_motion"@,
    }
}

pub open spec fn mouse_encoding_text(encoding: MouseProtocolEncoding) -> Seq<char> {
    match encoding {
        MouseProtocolEncoding::Default => "default"@,
        MouseProtocolEncoding::Utf8 => "utf8"@,
        MouseProtocolEncoding::Sgr => "sgr"@,
    }
}

/// Whether a style table describes attributes one by one.
pub open spec fn table_describes(styles: Seq<SnapshotStyle>, attrs: Seq<AttrsModel>) -> bool {
    styles.len() == attrs.len() && forall|i: int|
        0 <= i < styles.len() ==> describes(#[trigger] styles[i], attrs[i])
}

/// Whether a snapshot shows the interaction state of a screen.
pub open spec fn shows_state(snapshot: ScreenSnapshot, screen: ScreenModel) -> bool {
    &&& snapshot.cursor == (SnapshotCursor {
        row: screen.display_cursor().row,
        column: screen.display_cursor().col,
        visible: !(screen.modes.hide_cursor || screen.active().scrollback_offset > 0),
    })
    &&& snapshot.modes.alternate_screen == screen.modes.alternate_screen
    &&& snapshot.modes.application_cursor == screen.modes.application_cursor
    &&& snapshot.modes.application_keypad == screen.modes.application_keypad
    &&& snapshot.modes.bracketed_paste == screen.modes.bracketed_paste
    &&& snapshot.modes.mouse_protocol@ == mouse_mode_name(screen.mouse_mode)
    &&& snapshot.modes.mouse_encoding@ == mouse_encoding_text(screen.mouse_encoding)
    &&& snapshot.modes.kitty_keyboard_flags == screen.keyboard_flags()
    &&& snapshot.modes.modify_other_keys == screen.modify_other_keys
}

/// Appends a number in decimal.
pub fn push_number(text: &mut String, n: u64)
    ensures
        final(text)@ == old(text)@ + number_text(n as nat),
    decreases n,
{
    if n >= 10 {
        push_number(text, n / 10);
    }
    let digit: u8 = 48 + (n % 10) as u8;
    text.push(digit as char);
    assert(text@ =~= old(text)@ + number_text(n as nat));
}

/// The name of a color.
pub fn snapshot_color(color: Color) -> (r: String)
    ensures
        r@ == color_name(color),
{
    match color {
        Color::Default => "default".to_string(),
        Color::Idx(index) => {
            let mut r = "indexed:".to_string();
            push_number(&mut r, index as u64);
            r
        },
        Color::Rgb(red, green, blue) => {
            let mut r = "rgb:".to_string();
            push_number(&mut r, red as u64);
            r.append(",");
            push_number(&mut r, green as u64);
            r.append(",");
            push_number(&mut r, blue as u64);
            r
        },
    }
}

/// The style that attributes stand for.
pub fn snapshot_style(attrs: &Attrs) -> (r: SnapshotStyle)
    ensures
        describes(r, attrs@),
{
    SnapshotStyle {
        foreground: snapshot_color(attrs.fgcolor()),
        background: snapshot_color(attrs.bgcolor()),
        bold: attrs.bold(),
        dim: attrs.dim(),
        italic: attrs.italic(),
        underline: attrs.underline(),
        underline_color: snapshot_color(attrs.underline_color()),
        inverse: attrs.inverse(),
        blink: match attrs.blink() {
            Blink::Steady => "none".to_string(),
            Blink::Slow => "slow".to_string(),
            Blink::Rapid => "rapid".to_string(),
        },
        hidden: attrs.hidden(),
        strikeout: attrs.strikeout(),
    }
}

impl Default for SnapshotStyle {
    fn default() -> (r: Self)
        ensures
            describes(r, AttrsModel::plain()),
    {
        snapshot_style(&Attrs::default())
    }
}

fn mouse_protocol_name(mode: MouseProtocolMode) -> (r: String)
    ensures
        r@ == mouse_mode_name(mode),
{
    match mode {
        MouseProtocolMode::Off => "none".to_string(),
        MouseProtocolMode::Press => "press".to_string(),
        MouseProtocolMode::PressRelease => "press_release".to_string(),
        MouseProtocolMode::ButtonMotion => "button_motion".to_string(),
        MouseProtocolMode::AnyMotion => "any_motion".to_string(),
    }
}

fn mouse_encoding_name(encoding: MouseProtocolEncoding) -> (r: String)
    ensures
        r@ == mouse_encoding_text(encoding),
{
    match encoding {
        MouseProtocolEncoding::Default => "default".to_string(),
        MouseProtocolEncoding::Utf8 => "utf8".to_string(),
        MouseProtocolEncoding::Sgr => "sgr".to_string(),
    }
}

fn printable(text: &Vec<char>) -> (r: bool)
    ensures
        r == is_printable(text@),
{
    let mut i: usize = 0;
    while i < text.len()
        invariant
            i <= text@.len(),
            forall|k: int| 0 <= k < i ==> ' ' <= #[trigger] text@[k] && text@[k] <= '~',
        decreases text@.len() - i,
    {
        if text[i] < ' ' || '~' < text[i] {
            return false;
        }
        i = i + 1;
    }
    true
}

/// The text of runs, with blanks for the columns between them.
pub fn plain_from_runs(runs: &Vec<SnapshotRun>) -> (r: String)
    ensures
        r@ == plain_text(runs_view(runs@), runs@.len() as int).0,
{
    let ghost model = runs_view(runs@);
    let mut plain = String::new();
    let mut column: u16 = 0;
    let mut i: usize = 0;
    while i < runs.len()
        invariant
            i <= runs@.len(),
            model == runs_view(runs@),
            plain_text(model, i as int) == (plain@, column),
        decreases runs@.len() - i,
    {
        let run = &runs[i];
        assert(model[i as int] == run@);
        let ghost before = plain@;
        let gap: u16 = run.column.saturating_sub(column);
        let mut n: u16 = 0;
        assert(plain@ =~= before + Seq::new(0, |k: int| ' '));
        while n < gap
            invariant
                n <= gap,
                plain@ == before + Seq::new(n as nat, |k: int| ' '),
            decreases gap - n,
        {
            plain.push(' ');
            assert(plain@ =~= before + Seq::new((n + 1) as nat, |k: int| ' '));
            n = n + 1;
        }
        plain.append(run.text.as_str());
        column = run.column.saturating_add(run.columns);
        i = i + 1;
    }
    plain
}

/// Styles met so far.
struct StyleTable {
    attrs: Vec<Attrs>,
}

spec fn attrs_view(attrs: Seq<Attrs>) -> Seq<AttrsModel> {
    Seq::new(attrs.len(), |i: int| attrs[i]@)
}

fn table_index(n: usize) -> (r: u32)
    ensures
        r == index_of(n as int),
{
    if n as u64 > u32::MAX as u64 {
        u32::MAX
    } else {
        n as u32
    }
}

impl StyleTable {
    /// The index of attributes, which are added where they are new.
    fn enter(&mut self, attrs: &Attrs) -> (index: u32)
        ensures
            (attrs_view(final(self).attrs@), index) == style_entered(
                attrs_view(old(self).attrs@),
                attrs@,
            ),
    {
        let ghost model = attrs_view(self.attrs@);
        let mut i: usize = 0;
        while i < self.attrs.len()
            invariant
                i <= self.attrs@.len(),
                self.attrs@ == old(self).attrs@,
                model == attrs_view(self.attrs@),
                style_position(model, attrs@, 0) == style_position(model, attrs@, i as int),
            decreases self.attrs@.len() - i,
        {
            assert(model[i as int] == self.attrs@[i as int]@);
            if self.attrs[i].same(attrs) {
                return table_index(i);
            }
            i = i + 1;
        }
        let len: usize = self.attrs.len();
        self.attrs.push(*attrs);
        assert(attrs_view(self.attrs@) =~= model.push(attrs@));
        table_index(len)
    }
}

/// Adds the text of one more cell to runs.
fn push_run(runs: &mut Vec<SnapshotRun>, column: u16, width: u16, text: String, style: u32)
    requires
        width == 1 || width == 2,
    ensures
        runs_view(final(runs)@) == run_added(
            runs_view(old(runs)@),
            column as int,
            width as int,
            text@,
            style,
        ),
{
    let ghost model = runs_view(runs@);
    let chars = chars_of(text.as_str());
    if width == 1 && chars.len() > 0 && printable(&chars) && runs.len() > 0 {
        let last: usize = runs.len() - 1;
        assert(model.last() == runs@[last as int]@);
        let run = &runs[last];
        if run.style == style && run.column.saturating_add(run.columns) == column && printable(
            &chars_of(run.text.as_str()),
        ) {
            runs[last].text.append(text.as_str());
            runs[last].columns = runs[last].columns.saturating_add(1);
            assert(runs_view(runs@) =~= run_added(
                model,
                column as int,
                width as int,
                text@,
                style,
            ));
            return;
        }
    }
    runs.push(SnapshotRun { column, columns: width, text, style });
    assert(runs_view(runs@) =~= run_added(model, column as int, width as int, text@, style));
}

fn is_placeholder(cell: &Cell) -> (r: bool)
    ensures
        r == (cell@.text.len() > 0 && cell@.text[0] == KITTY_PLACEHOLDER),
{
    cell.has_contents() && cell.contents().get_char(0) == KITTY_PLACEHOLDER
}

/// Observes one more cell.
fn observe_cell(
    cell: &Cell,
    column: u16,
    from: u16,
    to: u16,
    runs: &mut Vec<SnapshotRun>,
    styles: &mut StyleTable,
    placeholder: bool,
) -> (r: bool)
    ensures
        (ObservedModel {
            runs: runs_view(final(runs)@),
            styles: attrs_view(final(styles).attrs@),
            placeholder: r,
        }) == (ObservedModel {
            runs: runs_view(old(runs)@),
            styles: attrs_view(old(styles).attrs@),
            placeholder,
        }).step(cell@, column as int, from as int, to as int),
{
    let width: u16 = if cell.is_wide() { 2 } else { 1 };
    if cell.is_wide_continuation() || column >= to || column.saturating_add(width) <= from {
        return placeholder;
    }
    let own_placeholder = is_placeholder(cell);
    let plain_style = cell.attrs().same(&Attrs::default());
    if plain_style && (!cell.has_contents() || own_placeholder) {
        return placeholder || own_placeholder;
    }
    let text = if own_placeholder || !cell.has_contents() {
        let blank = " ".to_string();
        proof {
            reveal_strlit(" ");
            assert(blank@ =~= seq![' ']);
        }
        blank
    } else {
        cell.contents().to_string()
    };
    let style: u32 = styles.enter(cell.attrs());
    push_run(runs, column, width, text, style);
    placeholder || own_placeholder
}

/// Observes the cells of a row.
fn observe_row(row: &Row, columns: u16, from: u16, to: u16, styles: &mut StyleTable) -> (r: (
    Vec<SnapshotRun>,
    bool,
))
    requires
        row@.cells.len() <= u16::MAX,
    ensures
        (ObservedModel {
            runs: runs_view(r.0@),
            styles: attrs_view(final(styles).attrs@),
            placeholder: r.1,
        }) == cells_observed(
            row@.cells,
            if row@.cells.len() < columns { row@.cells.len() as int } else { columns as int },
            from as int,
            to as int,
            attrs_view(old(styles).attrs@),
        ),
{
    let width: u16 = if row.cols() < columns { row.cols() } else { columns };
    let mut runs: Vec<SnapshotRun> = Vec::new();
    let mut placeholder = false;
    let mut column: u16 = 0;
    assert(runs_view(runs@) =~= Seq::<RunModel>::empty());
    while column < width
        invariant
            column <= width <= row@.cells.len(),
            (ObservedModel {
                runs: runs_view(runs@),
                styles: attrs_view(styles.attrs@),
                placeholder,
            }) == cells_observed(
                row@.cells,
                column as int,
                from as int,
                to as int,
                attrs_view(old(styles).attrs@),
            ),
        decreases width - column,
    {
        if let Some(cell) = row.get(column) {
            placeholder = observe_cell(cell, column, from, to, &mut runs, styles, placeholder);
        }
        column = column + 1;
    }
    (runs, placeholder)
}

fn lesser(a: u16, b: u16) -> (r: u16)
    ensures
        r == at_most(a, b),
{
    if a < b {
        a
    } else {
        b
    }
}

impl ScreenSnapshot {
    /// Observes a screen as asked for.
    pub fn from_screen(screen: &Screen, request: &SnapshotRequest) -> (r: Self)
        requires
            screen@.wf(),
        ensures
            r.screen_revision == 0,
            r.columns == screen@.size().cols,
            r.rows == screen@.size().rows,
            shows_state(r, screen@),
            ({
                let span = requested_span(request.rect, screen@.size().rows, screen@.size().cols);
                let (content, styles) = rows_observed(
                    screen@.active().visible(),
                    screen@.size().cols as int,
                    span,
                    span.row_end,
                    request.include_plain,
                );
                &&& content_view(r.content@) == content
                &&& match r.styles {
                    Some(table) => request.include_styles && table_describes(table@, styles),
                    None => !request.include_styles,
                }
            }),
    {
        let (rows, columns) = screen.size();
        let (row_start, row_end, column_start, column_end): (u16, u16, u16, u16) = match request.rect {
            None => (0, rows, 0, columns),
            Some(rect) => (
                lesser(rect.row, rows),
                lesser(rect.row.saturating_add(rect.rows), rows),
                lesser(rect.column, columns),
                lesser(rect.column.saturating_add(rect.columns), columns),
            ),
        };
        let ghost span = requested_span(request.rect, rows, columns);
        let ghost visible = screen@.active().visible();
        proof {
            crate::ratty_vt::grid_model::lemma_visible(screen@.active());
        }
        let mut styles = StyleTable { attrs: Vec::new() };
        styles.attrs.push(Attrs::default());
        let mut content: Vec<SnapshotRow> = Vec::new();
        let mut row_index: u16 = row_start;
        proof {
            assert(attrs_view(styles.attrs@) =~= seq![AttrsModel::plain()]);
            assert(content_view(content@) =~= Seq::<RowViewModel>::empty());
        }
        while row_index < row_end
            invariant
                row_start <= row_index,
                row_index <= row_end || row_index == row_start,
                row_end <= rows,
                screen@.wf(),
                rows == screen@.size().rows,
                columns == screen@.size().cols,
                visible == screen@.active().visible(),
                visible.len() == rows,
                span == requested_span(request.rect, rows, columns),
                span.row_start == row_start,
                span.column_start == column_start,
                span.column_end == column_end,
                forall|k: int|
                    0 <= k < visible.len() ==> crate::ratty_vt::grid_model::history_fits(
                        #[trigger] visible[k],
                    ),
                (content_view(content@), attrs_view(styles.attrs@)) == rows_observed(
                    visible,
                    columns as int,
                    span,
                    row_index as int,
                    request.include_plain,
                ),
            decreases row_end - row_index,
        {
            if let Some(row) = screen.visible_row(row_index) {
                let (runs, graphics_placeholder) = observe_row(
                    row,
                    columns,
                    column_start,
                    column_end,
                    &mut styles,
                );
                assert(runs_view(runs@).len() == runs@.len());
                if runs.len() > 0 || row.wrapped() || graphics_placeholder {
                    let plain = if request.include_plain {
                        Some(plain_from_runs(&runs))
                    } else {
                        None
                    };
                    let ghost before = content_view(content@);
                    let shown = SnapshotRow {
                        row: row_index,
                        wrapped: row.wrapped(),
                        graphics_placeholder,
                        runs,
                        plain,
                    };
                    let ghost model = shown@;
                    content.push(shown);
                    assert(content_view(content@) =~= before.push(model));
                }
            }
            row_index = row_index + 1;
        }
        proof {
            if row_start > row_end {
                assert(rows_observed(
                    visible,
                    columns as int,
                    span,
                    row_end as int,
                    request.include_plain,
                ) == (Seq::<RowViewModel>::empty(), seq![AttrsModel::plain()]));
            }
        }
        let styles = if request.include_styles {
            Some(styles.describe())
        } else {
            None
        };
        let (cursor_row, cursor_column) = screen.display_cursor_position();
        ScreenSnapshot {
            screen_revision: 0,
            columns,
            rows,
            content,
            styles,
            cursor: SnapshotCursor {
                row: cursor_row,
                column: cursor_column,
                visible: !screen.cursor_hidden(),
            },
            modes: SnapshotModes {
                alternate_screen: screen.alternate_screen(),
                application_cursor: screen.application_cursor(),
                application_keypad: screen.application_keypad(),
                bracketed_paste: screen.bracketed_paste(),
                mouse_protocol: mouse_protocol_name(screen.mouse_protocol_mode()),
                mouse_encoding: mouse_encoding_name(screen.mouse_protocol_encoding()),
                kitty_keyboard_flags: screen.kitty_keyboard_flags(),
                modify_other_keys: screen.modify_other_keys(),
            },
        }
    }
}

impl StyleTable {
    /// The styles as they are reported.
    fn describe(&self) -> (r: Vec<SnapshotStyle>)
        ensures
            table_describes(r@, attrs_view(self.attrs@)),
    {
        let mut r: Vec<SnapshotStyle> = Vec::new();
        let mut i: usize = 0;
        while i < self.attrs.len()
            invariant
                i <= self.attrs@.len(),
                r@.len() == i,
                forall|k: int| 0 <= k < i ==> describes(#[trigger] r@[k], self.attrs@[k]@),
            decreases self.attrs@.len() - i,
        {
            r.push(snapshot_style(&self.attrs[i]));
            i = i + 1;
        }
        r
    }
}

/// A run restricted to the columns `from..to`. Printable ASCII is cut, since it
/// takes up one column per character; any other run stays whole where a part of
/// it is in the columns.
pub open spec fn clipped(run: RunModel, from: int, to: int) -> Option<RunModel> {
    let end = saturated(run.column + run.columns);
    if run.column >= to || end <= from {
        None
    } else if run.column >= from && end <= to {
        Some(run)
    } else if run.columns == run.text.len() && is_printable(run.text) {
        let start = if from > run.column { from - run.column } else { 0 };
        let wanted = (if to < end { to } else { end as int }) - run.column;
        let stop = if wanted > start { wanted } else { start };
        Some(
            RunModel {
                column: saturated(run.column + start),
                columns: (stop - start) as u16,
                text: run.text.subrange(start, stop),
                ..run
            },
        )
    } else {
        Some(run)
    }
}

/// The first `n` runs restricted to columns; those outside are left out.
pub open spec fn runs_clipped(runs: Seq<RunModel>, n: int, from: int, to: int) -> Seq<RunModel>
    decreases n,
{
    if n <= 0 {
        Seq::empty()
    } else {
        let before = runs_clipped(runs, n - 1, from, to);
        match clipped(runs[n - 1], from, to) {
            Some(run) => before.push(run),
            None => before,
        }
    }
}

/// A row restricted to a rectangle; `None` where nothing is left to tell.
pub open spec fn row_clipped(row: RowViewModel, rect: SnapshotRect, rows: u16, columns: u16) -> Option<
    RowViewModel,
> {
    let row_end = at_most(saturated(rect.row + rect.rows), rows);
    let column_end = at_most(saturated(rect.column + rect.columns), columns);
    if row.row < rect.row || row.row >= row_end {
        None
    } else {
        let runs = runs_clipped(row.runs, row.runs.len() as int, rect.column as int, column_end);
        if runs.len() > 0 || row.wrapped || row.graphics_placeholder {
            Some(RowViewModel { runs, ..row })
        } else {
            None
        }
    }
}

/// The first `n` rows as a view shows them.
pub open spec fn content_viewed(
    content: Seq<RowViewModel>,
    n: int,
    rect: Option<SnapshotRect>,
    rows: u16,
    columns: u16,
    include_plain: bool,
) -> Seq<RowViewModel>
    decreases n,
{
    if n <= 0 {
        Seq::empty()
    } else {
        let before = content_viewed(content, n - 1, rect, rows, columns, include_plain);
        let kept = match rect {
            Some(rect) => row_clipped(content[n - 1], rect, rows, columns),
            None => Some(content[n - 1]),
        };
        match kept {
            Some(row) => before.push(
                RowViewModel { plain: plain_view(row.runs, include_plain), ..row },
            ),
            None => before,
        }
    }
}

/// Restricts a run to the columns `column_start..column_end`.
pub fn clip_run_to_columns(run: SnapshotRun, column_start: u16, column_end: u16) -> (r: Option<
    SnapshotRun,
>)
    ensures
        match r {
            Some(kept) => clipped(run@, column_start as int, column_end as int) == Some(kept@),
            None => clipped(run@, column_start as int, column_end as int) is None,
        },
{
    let run_end: u16 = run.column.saturating_add(run.columns);
    if run.column >= column_end || run_end <= column_start {
        return None;
    }
    if run.column >= column_start && run_end <= column_end {
        return Some(run);
    }
    let chars = chars_of(run.text.as_str());
    if run.columns as usize == chars.len() && printable(&chars) {
        let start: u16 = column_start.saturating_sub(run.column);
        let last: u16 = if column_end < run_end { column_end } else { run_end };
        let wanted: u16 = last.saturating_sub(run.column);
        let stop: u16 = if wanted > start { wanted } else { start };
        let part = part_of(&chars, start as usize, stop as usize);
        return Some(
            SnapshotRun {
                column: run.column.saturating_add(start),
                columns: stop - start,
                text: string_of(&part),
                style: run.style,
            },
        );
    }
    Some(run)
}

/// Restricts runs to the columns `column_start..column_end`.
fn clip_runs(runs: Vec<SnapshotRun>, column_start: u16, column_end: u16) -> (r: Vec<SnapshotRun>)
    ensures
        runs_view(r@) == runs_clipped(
            runs_view(runs@),
            runs@.len() as int,
            column_start as int,
            column_end as int,
        ),
{
    let ghost model = runs_view(runs@);
    let mut runs = runs;
    let mut r: Vec<SnapshotRun> = Vec::new();
    let mut i: usize = 0;
    assert(runs_view(r@) =~= Seq::<RunModel>::empty());
    while i < runs.len()
        invariant
            i <= runs@.len(),
            runs@.len() == model.len(),
            forall|k: int| i <= k < runs@.len() ==> (#[trigger] runs@[k])@ == model[k],
            runs_view(r@) == runs_clipped(model, i as int, column_start as int, column_end as int),
        decreases runs@.len() - i,
    {
        let mut run = SnapshotRun { column: 0, columns: 0, text: String::new(), style: 0 };
        let ghost rest = runs@;
        core::mem::swap(&mut runs[i], &mut run);
        assert forall|k: int| i < k < runs@.len() implies #[trigger] runs@[k] == rest[k] by {}
        let ghost before = runs_view(r@);
        if let Some(kept) = clip_run_to_columns(run, column_start, column_end) {
            let ghost model = kept@;
            r.push(kept);
            assert(runs_view(r@) =~= before.push(model));
        }
        i = i + 1;
    }
    r
}

/// Restricts a row to a rectangle.
fn clip_row(row: SnapshotRow, rect: SnapshotRect, rows: u16, columns: u16) -> (r: Option<SnapshotRow>)
    ensures
        match r {
            Some(kept) => row_clipped(row@, rect, rows, columns) == Some(kept@),
            None => row_clipped(row@, rect, rows, columns) is None,
        },
{
    let row_end: u16 = lesser(rect.row.saturating_add(rect.rows), rows);
    let column_end: u16 = lesser(rect.column.saturating_add(rect.columns), columns);
    if row.row < rect.row || row.row >= row_end {
        return None;
    }
    let runs = clip_runs(row.runs, rect.column, column_end);
    assert(runs_view(runs@).len() == runs@.len());
    if runs.len() > 0 || row.wrapped || row.graphics_placeholder {
        Some(
            SnapshotRow {
                row: row.row,
                wrapped: row.wrapped,
                graphics_placeholder: row.graphics_placeholder,
                runs,
                plain: row.plain,
            },
        )
    } else {
        None
    }
}

impl ScreenSnapshot {
    /// Produces a rectangular/style/plain view from an already canonical full
    /// snapshot without inspecting or re-segmenting run text.
    pub fn into_view(self, rect: Option<SnapshotRect>, include_styles: bool, include_plain: bool) -> (r:
        Self)
        ensures
            content_view(r.content@) == content_viewed(
                content_view(self.content@),
                self.content@.len() as int,
                rect,
                self.rows,
                self.columns,
                include_plain,
            ),
            r.styles == (if include_styles { self.styles } else { None }),
            r.screen_revision == self.screen_revision,
            r.columns == self.columns,
            r.rows == self.rows,
            r.cursor == self.cursor,
            r.modes == self.modes,
    {
        let ghost model = content_view(self.content@);
        let ScreenSnapshot { screen_revision, columns, rows, content, styles, cursor, modes } = self;
        let mut rest = content;
        let mut kept: Vec<SnapshotRow> = Vec::new();
        let mut i: usize = 0;
        assert(content_view(kept@) =~= Seq::<RowViewModel>::empty());
        while i < rest.len()
            invariant
                i <= rest@.len(),
                rest@.len() == model.len(),
                forall|k: int| i <= k < rest@.len() ==> (#[trigger] rest@[k])@ == model[k],
                content_view(kept@) == content_viewed(
                    model,
                    i as int,
                    rect,
                    rows,
                    columns,
                    include_plain,
                ),
            decreases rest@.len() - i,
        {
            let mut row = SnapshotRow {
                row: 0,
                wrapped: false,
                graphics_placeholder: false,
                runs: Vec::new(),
                plain: None,
            };
            let ghost others = rest@;
            core::mem::swap(&mut rest[i], &mut row);
            assert forall|k: int| i < k < rest@.len() implies #[trigger] rest@[k] == others[k] by {}
            let ghost before = content_view(kept@);
            let clipped_row = match rect {
                Some(rect) => clip_row(row, rect, rows, columns),
                None => Some(row),
            };
            if let Some(row) = clipped_row {
                let plain = if include_plain { Some(plain_from_runs(&row.runs)) } else { None };
                let shown = SnapshotRow {
                    row: row.row,
                    wrapped: row.wrapped,
                    graphics_placeholder: row.graphics_placeholder,
                    runs: row.runs,
                    plain,
                };
                let ghost added = shown@;
                kept.push(shown);
                assert(content_view(kept@) =~= before.push(added));
            }
            i = i + 1;
        }
        ScreenSnapshot {
            screen_revision,
            columns,
            rows,
            content: kept,
            styles: if include_styles { styles } else { None },
            cursor,
            modes,
        }
    }
}

/// A run always starts on a cell that owns its glyph.
pub proof fn law_runs_start_on_glyphs(
    cells: Seq<CellModel>,
    n: int,
    from: int,
    to: int,
    styles: Seq<AttrsModel>,
)
    requires
        0 <= n <= cells.len(),
        cells.len() <= u16::MAX,
    ensures
        ({
            let runs = cells_observed(cells, n, from, to, styles).runs;
            forall|i: int|
                0 <= i < runs.len() ==> (#[trigger] runs[i]).column < n
                    && !cells[runs[i].column as int].continuation
        }),
    decreases n,
{
    if n > 0 {
        law_runs_start_on_glyphs(cells, n - 1, from, to, styles);
        let before = cells_observed(cells, n - 1, from, to, styles).runs;
        let after = cells_observed(cells, n, from, to, styles).runs;
        assert forall|i: int| 0 <= i < after.len() implies (#[trigger] after[i]).column < n
            && !cells[after[i].column as int].continuation by {
            if i < before.len() {
                assert(after[i].column == before[i].column);
            }
        }
    }
}

/// Text other than printable ASCII is never cut: it stays as it is or is left
/// out.
pub proof fn law_clipping_never_splits_a_glyph(run: RunModel, from: int, to: int)
    requires
        !is_printable(run.text),
    ensures
        clipped(run, from, to) is None || clipped(run, from, to) == Some(run),
{
}

/// A graphics placeholder never shows up as text.
pub proof fn law_placeholders_are_not_text(
    cells: Seq<CellModel>,
    n: int,
    from: int,
    to: int,
    styles: Seq<AttrsModel>,
)
    requires
        0 <= n <= cells.len(),
    ensures
        ({
            let runs = cells_observed(cells, n, from, to, styles).runs;
            forall|i: int|
                0 <= i < runs.len() ==> (#[trigger] runs[i]).text.len() > 0 && runs[i].text[0]
                    != KITTY_PLACEHOLDER
        }),
    decreases n,
{
    if n > 0 {
        law_placeholders_are_not_text(cells, n - 1, from, to, styles);
        let before = cells_observed(cells, n - 1, from, to, styles).runs;
        let after = cells_observed(cells, n, from, to, styles).runs;
        assert forall|i: int| 0 <= i < after.len() implies (#[trigger] after[i]).text.len() > 0
            && after[i].text[0] != KITTY_PLACEHOLDER by {
            if i < before.len() {
                assert(after[i].text[0] == before[i].text[0]);
            }
        }
    }
}

} // verus!
