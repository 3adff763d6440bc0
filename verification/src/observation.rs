//! Revisions of what can be observed of a screen.

use crate::ratty_vt::cell::same_text;
use crate::snapshot::{
    content_view, runs_view, RowViewModel, ScreenSnapshot, SnapshotCursor, SnapshotModes,
    SnapshotRow, SnapshotRun, SnapshotStyle,
};
use vstd::prelude::*;
use vstd::string::*;

verus! {

pub struct StyleViewModel {
    pub foreground: Seq<char>,
    pub background: Seq<char>,
    pub bold: bool,
    pub dim: bool,
    pub italic: bool,
    pub underline: bool,
    pub underline_color: Seq<char>,
    pub inverse: bool,
    pub blink: Seq<char>,
    pub hidden: bool,
    pub strikeout: bool,
}

impl View for SnapshotStyle {
    type V = StyleViewModel;

    open spec fn view(&self) -> StyleViewModel {
        StyleViewModel {
            foreground: self.foreground@,
            background: self.background@,
            bold: self.bold,
            dim: self.dim,
            italic: self.italic,
            underline: self.underline,
            underline_color: self.underline_color@,
            inverse: self.inverse,
            blink: self.blink@,
            hidden: self.hidden,
            strikeout: self.strikeout,
        }
    }
}

pub open spec fn styles_view(styles: Seq<SnapshotStyle>) -> Seq<StyleViewModel> {
    Seq::new(styles.len(), |i: int| styles[i]@)
}

pub struct ModesViewModel {
    pub alternate_screen: bool,
    pub application_cursor: bool,
    pub application_keypad: bool,
    pub bracketed_paste: bool,
    pub mouse_protocol: Seq<char>,
    pub mouse_encoding: Seq<char>,
    pub kitty_keyboard_flags: u8,
    pub modify_other_keys: Option<u8>,
}

impl View for SnapshotModes {
    type V = ModesViewModel;

    open spec fn view(&self) -> ModesViewModel {
        ModesViewModel {
            alternate_screen: self.alternate_screen,
            application_cursor: self.application_cursor,
            application_keypad: self.application_keypad,
            bracketed_paste: self.bracketed_paste,
            mouse_protocol: self.mouse_protocol@,
            mouse_encoding: self.mouse_encoding@,
            kitty_keyboard_flags: self.kitty_keyboard_flags,
            modify_other_keys: self.modify_other_keys,
        }
    }
}

/// What a snapshot shows, whatever its revision.
pub struct ShownModel {
    pub columns: u16,
    pub rows: u16,
    pub content: Seq<RowViewModel>,
    pub styles: Option<Seq<StyleViewModel>>,
    pub cursor: SnapshotCursor,
    pub modes: ModesViewModel,
}

impl View for ScreenSnapshot {
    type V = ShownModel;

    open spec fn view(&self) -> ShownModel {
        ShownModel {
            columns: self.columns,
            rows: self.rows,
            content: content_view(self.content@),
            styles: match self.styles {
                Some(styles) => Some(styles_view(styles@)),
                None => None,
            },
            cursor: self.cursor,
            modes: self.modes@,
        }
    }
}

fn same_string(a: &String, b: &String) -> (r: bool)
    ensures
        r == (a@ == b@),
{
    same_text(a.as_str(), b.as_str())
}

fn same_run(a: &SnapshotRun, b: &SnapshotRun) -> (r: bool)
    ensures
        r == (a@ == b@),
{
    a.column == b.column && a.columns == b.columns && a.style == b.style && same_string(&a.text, &b.text)
}

fn same_runs(a: &Vec<SnapshotRun>, b: &Vec<SnapshotRun>) -> (r: bool)
    ensures
        r == (runs_view(a@) == runs_view(b@)),
{
    let ghost left = runs_view(a@);
    let ghost right = runs_view(b@);
    if a.len() != b.len() {
        assert(left.len() != right.len());
        return false;
    }
    let mut i: usize = 0;
    while i < a.len()
        invariant
            i <= a@.len() == b@.len(),
            left == runs_view(a@),
            right == runs_view(b@),
            forall|k: int| 0 <= k < i ==> left[k] == right[k],
        decreases a@.len() - i,
    {
        if !same_run(&a[i], &b[i]) {
            assert(left[i as int] != right[i as int]);
            return false;
        }
        i = i + 1;
    }
    assert(left =~= right);
    true
}

fn same_option(a: &Option<String>, b: &Option<String>) -> (r: bool)
    ensures
        r == (match (*a, *b) {
            (Some(a), Some(b)) => a@ == b@,
            (None, None) => true,
            _ => false,
        }),
{
    match (a, b) {
        (Some(a), Some(b)) => same_string(a, b),
        (None, None) => true,
        _ => false,
    }
}

fn same_row(a: &SnapshotRow, b: &SnapshotRow) -> (r: bool)
    ensures
        r == (a@ == b@),
{
    a.row == b.row && a.wrapped == b.wrapped && a.graphics_placeholder == b.graphics_placeholder
        && same_runs(&a.runs, &b.runs) && same_option(&a.plain, &b.plain)
}

fn same_content(a: &Vec<SnapshotRow>, b: &Vec<SnapshotRow>) -> (r: bool)
    ensures
        r == (content_view(a@) == content_view(b@)),
{
    let ghost left = content_view(a@);
    let ghost right = content_view(b@);
    if a.len() != b.len() {
        assert(left.len() != right.len());
        return false;
    }
    let mut i: usize = 0;
    while i < a.len()
        invariant
            i <= a@.len() == b@.len(),
            left == content_view(a@),
            right == content_view(b@),
            forall|k: int| 0 <= k < i ==> left[k] == right[k],
        decreases a@.len() - i,
    {
        if !same_row(&a[i], &b[i]) {
            assert(left[i as int] != right[i as int]);
            return false;
        }
        i = i + 1;
    }
    assert(left =~= right);
    true
}

fn same_style(a: &SnapshotStyle, b: &SnapshotStyle) -> (r: bool)
    ensures
        r == (a@ == b@),
{
    same_string(&a.foreground, &b.foreground) && same_string(&a.background, &b.background) && a.bold
        == b.bold && a.dim == b.dim && a.italic == b.italic && a.underline == b.underline
        && same_string(&a.underline_color, &b.underline_color) && a.inverse == b.inverse
        && same_string(&a.blink, &b.blink) && a.hidden == b.hidden && a.strikeout == b.strikeout
}

fn same_styles(a: &Vec<SnapshotStyle>, b: &Vec<SnapshotStyle>) -> (r: bool)
    ensures
        r == (styles_view(a@) == styles_view(b@)),
{
    let ghost left = styles_view(a@);
    let ghost right = styles_view(b@);
    if a.len() != b.len() {
        assert(left.len() != right.len());
        return false;
    }
    let mut i: usize = 0;
    while i < a.len()
        invariant
            i <= a@.len() == b@.len(),
            left == styles_view(a@),
            right == styles_view(b@),
            forall|k: int| 0 <= k < i ==> left[k] == right[k],
        decreases a@.len() - i,
    {
        if !same_style(&a[i], &b[i]) {
            assert(left[i as int] != right[i as int]);
            return false;
        }
        i = i + 1;
    }
    assert(left =~= right);
    true
}

fn same_modes(a: &SnapshotModes, b: &SnapshotModes) -> (r: bool)
    ensures
        r == (a@ == b@),
{
    a.alternate_screen == b.alternate_screen && a.application_cursor == b.application_cursor
        && a.application_keypad == b.application_keypad && a.bracketed_paste == b.bracketed_paste
        && same_string(&a.mouse_protocol, &b.mouse_protocol) && same_string(
        &a.mouse_encoding,
        &b.mouse_encoding,
    ) && a.kitty_keyboard_flags == b.kitty_keyboard_flags && a.modify_other_keys
        == b.modify_other_keys
}

/// Whether two snapshots show the same, whatever their revisions.
pub fn same_snapshot(a: &ScreenSnapshot, b: &ScreenSnapshot) -> (r: bool)
    ensures
        r == (a@ == b@),
{
    let styles = match (&a.styles, &b.styles) {
        (Some(a), Some(b)) => same_styles(a, b),
        (None, None) => true,
        _ => false,
    };
    styles && a.columns == b.columns && a.rows == b.rows && same_content(&a.content, &b.content)
        && a.cursor == b.cursor && same_modes(&a.modes, &b.modes)
}

fn copy_run(run: &SnapshotRun) -> (r: SnapshotRun)
    ensures
        r@ == run@,
{
    SnapshotRun {
        column: run.column,
        columns: run.columns,
        text: run.text.clone(),
        style: run.style,
    }
}

fn copy_row(row: &SnapshotRow) -> (r: SnapshotRow)
    ensures
        r@ == row@,
{
    let mut runs: Vec<SnapshotRun> = Vec::new();
    let mut i: usize = 0;
    while i < row.runs.len()
        invariant
            i <= row.runs@.len(),
            runs@.len() == i,
            forall|k: int| 0 <= k < i ==> (#[trigger] runs@[k])@ == row.runs@[k]@,
        decreases row.runs@.len() - i,
    {
        runs.push(copy_run(&row.runs[i]));
        i = i + 1;
    }
    assert(runs_view(runs@) =~= runs_view(row.runs@));
    SnapshotRow {
        row: row.row,
        wrapped: row.wrapped,
        graphics_placeholder: row.graphics_placeholder,
        runs,
        plain: match &row.plain {
            Some(plain) => Some(plain.clone()),
            None => None,
        },
    }
}

fn copy_style(style: &SnapshotStyle) -> (r: SnapshotStyle)
    ensures
        r@ == style@,
{
    SnapshotStyle {
        foreground: style.foreground.clone(),
        background: style.background.clone(),
        bold: style.bold,
        dim: style.dim,
        italic: style.italic,
        underline: style.underline,
        underline_color: style.underline_color.clone(),
        inverse: style.inverse,
        blink: style.blink.clone(),
        hidden: style.hidden,
        strikeout: style.strikeout,
    }
}

fn copy_styles(styles: &Vec<SnapshotStyle>) -> (r: Vec<SnapshotStyle>)
    ensures
        styles_view(r@) == styles_view(styles@),
{
    let mut r: Vec<SnapshotStyle> = Vec::new();
    let mut i: usize = 0;
    while i < styles.len()
        invariant
            i <= styles@.len(),
            r@.len() == i,
            forall|k: int| 0 <= k < i ==> (#[trigger] r@[k])@ == styles@[k]@,
        decreases styles@.len() - i,
    {
        r.push(copy_style(&styles[i]));
        i = i + 1;
    }
    assert(styles_view(r@) =~= styles_view(styles@));
    r
}

/// Copies a snapshot.
pub fn copy_snapshot(snapshot: &ScreenSnapshot) -> (r: ScreenSnapshot)
    ensures
        r@ == snapshot@,
        r.screen_revision == snapshot.screen_revision,
{
    let mut content: Vec<SnapshotRow> = Vec::new();
    let mut i: usize = 0;
    while i < snapshot.content.len()
        invariant
            i <= snapshot.content@.len(),
            content@.len() == i,
            forall|k: int| 0 <= k < i ==> (#[trigger] content@[k])@ == snapshot.content@[k]@,
        decreases snapshot.content@.len() - i,
    {
        content.push(copy_row(&snapshot.content[i]));
        i = i + 1;
    }
    assert(content_view(content@) =~= content_view(snapshot.content@));
    ScreenSnapshot {
        screen_revision: snapshot.screen_revision,
        columns: snapshot.columns,
        rows: snapshot.rows,
        content,
        styles: match &snapshot.styles {
            Some(styles) => Some(copy_styles(styles)),
            None => None,
        },
        cursor: snapshot.cursor,
        modes: SnapshotModes {
            alternate_screen: snapshot.modes.alternate_screen,
            application_cursor: snapshot.modes.application_cursor,
            application_keypad: snapshot.modes.application_keypad,
            bracketed_paste: snapshot.modes.bracketed_paste,
            mouse_protocol: snapshot.modes.mouse_protocol.clone(),
            mouse_encoding: snapshot.modes.mouse_encoding.clone(),
            kitty_keyboard_flags: snapshot.modes.kitty_keyboard_flags,
            modify_other_keys: snapshot.modes.modify_other_keys,
        },
    }
}

/// The last observation and its revision.
#[derive(Debug)]
pub struct ObservationCache {
    pub revision: u64,
    pub snapshot: Option<ScreenSnapshot>,
}

pub struct CacheModel {
    pub revision: u64,
    pub shown: Option<ShownModel>,
}

impl View for ObservationCache {
    type V = CacheModel;

    open spec fn view(&self) -> CacheModel {
        CacheModel {
            revision: self.revision,
            shown: match self.snapshot {
                Some(snapshot) => Some(snapshot@),
                None => None,
            },
        }
    }
}

impl CacheModel {
    /// The cache after an observation: another revision, if something else is
    /// shown than before.
    pub open spec fn observed(self, shown: ShownModel) -> Self {
        if self.shown == Some(shown) {
            self
        } else {
            CacheModel {
                revision: if self.revision == u64::MAX {
                    u64::MAX
                } else {
                    (self.revision + 1) as u64
                },
                shown: Some(shown),
            }
        }
    }
}

impl Default for ObservationCache {
    fn default() -> (r: Self)
        ensures
            r@ == (CacheModel { revision: 0, shown: None }),
    {
        ObservationCache { revision: 0, snapshot: None }
    }
}

impl ObservationCache {
    /// Gives a snapshot the revision of what it shows: another one, if it shows
    /// something else than the snapshot before.
    pub fn assign_revision(&mut self, snapshot: &mut ScreenSnapshot)
        ensures
            final(self)@ == old(self)@.observed(old(snapshot)@),
            final(snapshot)@ == old(snapshot)@,
            final(snapshot).screen_revision == final(self).revision,
    {
        snapshot.screen_revision = 0;
        let unchanged = match &self.snapshot {
            Some(last) => same_snapshot(last, snapshot),
            None => false,
        };
        if !unchanged {
            self.revision = self.revision.saturating_add(1);
            self.snapshot = Some(copy_snapshot(snapshot));
        }
        snapshot.screen_revision = self.revision;
    }
}

/// Revisions change only with what is shown: observing the same again keeps the
/// revision, and observing something else gives a later one, as long as there
/// is one.
pub proof fn law_revisions_follow_what_is_shown(cache: CacheModel, first: ShownModel, second: ShownModel)
    requires
        cache.revision < u64::MAX - 1,
    ensures
        cache.observed(first).observed(first).revision == cache.observed(first).revision,
        first != second ==> cache.observed(first).observed(second).revision == cache.observed(
            first,
        ).revision + 1,
{
}

/// Whether a flag that is left out is set.
pub fn default_true() -> (r: bool)
    ensures
        r,
{
    true
}

} // verus!
