//! Snapshots of a screen, and the revisions they are given.

use ratty::observation::{copy_snapshot, same_snapshot, ObservationCache};
use ratty::ratty_vt::Parser;
use ratty::snapshot::{
    ScreenSnapshot, SnapshotCursor, SnapshotModes, SnapshotRect, SnapshotRequest,
};

const KITTY_PLACEHOLDER: char = '\u{10EEEE}';

fn snapshot(input: &str, rows: u16, columns: u16) -> ScreenSnapshot {
    let mut parser = Parser::new(rows, columns, 0);
    for chunk in input.as_bytes().chunks(1) {
        parser.process(chunk);
    }
    ScreenSnapshot::from_screen(
        parser.screen(),
        &SnapshotRequest { rect: None, include_styles: true, include_plain: true },
    )
}

#[test]
fn snapshot_preserves_unicode_clusters_and_terminal_columns() {
    let snapshot = snapshot("A界e\u{301}👩🏽‍💻", 2, 12);
    let runs = &snapshot.content[0].runs;
    assert_eq!(runs[0].text, "A");
    assert_eq!((runs[0].column, runs[0].columns), (0, 1));
    assert_eq!(runs[1].text, "界");
    assert_eq!((runs[1].column, runs[1].columns), (1, 2));
    assert_eq!(runs[2].text, "e\u{301}");
    assert_eq!((runs[2].column, runs[2].columns), (3, 1));
    assert_eq!(runs[3].text, "👩🏽‍💻");
    assert_eq!((runs[3].column, runs[3].columns), (4, 2));
    assert_eq!(snapshot.content[0].plain.as_deref(), Some("A界e\u{301}👩🏽‍💻"));
    assert!(same_snapshot(&copy_snapshot(&snapshot), &snapshot));
}

#[test]
fn snapshot_preserves_diverse_unicode_without_normalization() {
    for text in ["┌─┐", "日本語", "é e\u{301}", "✈️", "👩🏽‍💻", "👨‍👩‍👧‍👦", "🇩🇪", "कि"] {
        let snapshot = snapshot(text, 2, 40);
        let emitted =
            snapshot.content[0].runs.iter().map(|run| run.text.as_str()).collect::<String>();
        assert_eq!(emitted, text);
        assert!(snapshot.content[0].runs.iter().all(|run| run.columns >= 1));
    }
}

#[test]
fn snapshot_never_starts_a_run_on_a_continuation_cell() {
    let mut parser = Parser::new(2, 5, 0);
    parser.process("abc界界".as_bytes());
    let screen = parser.screen();
    let snapshot = ScreenSnapshot::from_screen(
        screen,
        &SnapshotRequest { rect: None, include_styles: true, include_plain: false },
    );
    for row in &snapshot.content {
        for run in &row.runs {
            let cell = screen
                .cell(row.row, run.column)
                .expect("snapshot run must reference a visible cell");
            assert!(!cell.is_wide_continuation());
            if !run.text.as_bytes().iter().all(|byte| (0x20..=0x7e).contains(byte)) {
                assert_eq!(run.columns, if cell.is_wide() { 2 } else { 1 });
            }
        }
    }
}

#[test]
fn snapshot_coalesces_only_adjacent_ascii_with_equal_styles() {
    let snapshot = snapshot("ab\x1b[31mc\x1b[m界d", 2, 12);
    let runs = &snapshot.content[0].runs;
    assert_eq!(runs[0].text, "ab");
    assert_eq!(runs[0].columns, 2);
    assert_eq!(runs[1].text, "c");
    assert_ne!(runs[0].style, runs[1].style);
    assert_eq!(runs[2].text, "界");
    assert_eq!(runs[3].text, "d");
}

#[test]
fn snapshot_keeps_styled_blanks_wrapping_and_graphics_metadata() {
    let placeholder = KITTY_PLACEHOLDER;
    let snapshot = snapshot(&format!("\x1b[44m \x1b[mab{placeholder}c"), 3, 3);
    assert!(snapshot.content.iter().any(|row| row.wrapped));
    assert!(snapshot.content.iter().any(|row| row.graphics_placeholder));
    assert!(snapshot.content.iter().flat_map(|row| &row.runs).any(|run| {
        run.text == " "
            && snapshot.styles.as_ref().expect("styles were requested")[run.style as usize]
                .background
                == "indexed:4"
    }));
    assert!(!snapshot
        .content
        .iter()
        .flat_map(|row| &row.runs)
        .any(|run| run.text.contains(placeholder)));
}

#[test]
fn rectangular_snapshot_never_splits_a_wide_cell() {
    let mut snapshot = snapshot("界x", 1, 4);
    snapshot = snapshot.into_view(
        Some(SnapshotRect { row: 0, column: 1, rows: 1, columns: 1 }),
        true,
        false,
    );
    assert_eq!(snapshot.content[0].runs.len(), 1);
    assert_eq!(snapshot.content[0].runs[0].column, 0);
    assert_eq!(snapshot.content[0].runs[0].columns, 2);
    assert_eq!(snapshot.content[0].runs[0].text, "界");
}

#[test]
fn rectangular_snapshot_clips_coalesced_ascii_runs() {
    let snapshot = snapshot("abcdef", 1, 8).into_view(
        Some(SnapshotRect { row: 0, column: 2, rows: 1, columns: 2 }),
        true,
        true,
    );
    assert_eq!(snapshot.content[0].runs.len(), 1);
    assert_eq!(snapshot.content[0].runs[0].column, 2);
    assert_eq!(snapshot.content[0].runs[0].columns, 2);
    assert_eq!(snapshot.content[0].runs[0].text, "cd");
    assert_eq!(snapshot.content[0].plain.as_deref(), Some("  cd"));
}

#[test]
fn snapshot_uses_display_cursor_for_pending_wrap() {
    let snapshot = snapshot("abc", 2, 3);
    assert_eq!((snapshot.cursor.row, snapshot.cursor.column), (0, 2));
}

#[test]
fn snapshots_name_modes_and_colors() {
    let snapshot = snapshot("\x1b[?1000h\x1b[?1006h\x1b[?2004h\x1b[38;2;1;2;3mx", 1, 4);
    assert_eq!(snapshot.modes.mouse_protocol, "press_release");
    assert_eq!(snapshot.modes.mouse_encoding, "sgr");
    assert!(snapshot.modes.bracketed_paste);
    let styles = snapshot.styles.as_ref().expect("styles were requested");
    let style = &styles[snapshot.content[0].runs[0].style as usize];
    assert_eq!(style.foreground, "rgb:1,2,3");
    assert_eq!(style.background, "default");
    assert_eq!(style.blink, "none");
    let bare = copy_snapshot(&snapshot).into_view(None, false, false);
    assert!(bare.styles.is_none());
    assert!(bare.content[0].plain.is_none());
}

fn empty_snapshot() -> ScreenSnapshot {
    ScreenSnapshot {
        screen_revision: 0,
        columns: 80,
        rows: 24,
        content: Vec::new(),
        styles: None,
        cursor: SnapshotCursor { row: 0, column: 0, visible: true },
        modes: SnapshotModes {
            alternate_screen: false,
            application_cursor: false,
            application_keypad: false,
            bracketed_paste: false,
            mouse_protocol: "none".to_string(),
            mouse_encoding: "default".to_string(),
            kitty_keyboard_flags: 0,
            modify_other_keys: None,
        },
    }
}

#[test]
fn observation_revisions_change_only_with_observable_state() {
    let mut cache = ObservationCache::default();
    let mut first = empty_snapshot();
    cache.assign_revision(&mut first);
    assert_eq!(first.screen_revision, 1);

    let mut same = empty_snapshot();
    cache.assign_revision(&mut same);
    assert_eq!(same.screen_revision, 1);

    let mut moved_cursor = empty_snapshot();
    moved_cursor.cursor.column = 1;
    cache.assign_revision(&mut moved_cursor);
    assert_eq!(moved_cursor.screen_revision, 2);

    let mut changed_mode = copy_snapshot(&moved_cursor);
    changed_mode.modes.bracketed_paste = true;
    cache.assign_revision(&mut changed_mode);
    assert_eq!(changed_mode.screen_revision, 3);
}
