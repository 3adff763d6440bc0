//! The terminal engine, driven by bytes.

use ratty::ratty_vt::{Blink, Callbacks, Color, Parser, Screen};

#[test]
fn visible_row_matches_the_iterator_at_every_scrollback_offset() {
    let mut parser = Parser::new(3, 10, 20);
    for line in 0..12 {
        parser.process(format!("row{line}\r\n").as_bytes());
    }
    for offset in 0..=parser.screen().scrollback() + 5 {
        parser.screen_mut().set_scrollback(offset);
        let expected: Vec<String> = parser
            .screen()
            .visible_rows()
            .into_iter()
            .map(|row| row.get(0).unwrap().contents().to_string())
            .collect();
        for (index, text) in expected.iter().enumerate() {
            let row = parser.screen().visible_row(index as u16).unwrap();
            assert_eq!(
                row.get(0).unwrap().contents(),
                text,
                "offset {offset} row {index}"
            );
        }
        assert!(parser.screen().visible_row(3).is_none());
        assert_eq!(expected.len(), 3);
    }
    // The last screen row after scrolling all the way back is scrollback.
    parser.screen_mut().set_scrollback(usize::MAX);
    assert_eq!(parser.screen().scrollback(), 10);
    assert_eq!(
        parser
            .screen()
            .visible_row(0)
            .unwrap()
            .get(0)
            .unwrap()
            .contents(),
        "r"
    );
    assert_eq!(parser.screen().visible_row(0).unwrap().cells().len(), 10);
}

#[test]
fn hvp_positions_the_cursor_like_cup() {
    let mut parser = Parser::new(5, 10, 0);
    parser.process(b"\x1b[3;4fX");
    assert_eq!(parser.screen().cell(2, 3).unwrap().contents(), "X");
    assert_eq!(parser.screen().cursor_position(), (2, 4));

    parser.process(b"\x1b[fY");
    assert_eq!(parser.screen().cell(0, 0).unwrap().contents(), "Y");

    // Origin mode applies to HVP exactly as it does to CUP.
    parser.process(b"\x1b[2;4r\x1b[?6h\x1b[1;1fZ");
    assert_eq!(parser.screen().cell(1, 0).unwrap().contents(), "Z");
}

#[test]
fn sgr_blink_is_parsed_and_stored_on_cells() {
    let mut parser = Parser::new(2, 10, 0);
    parser.process(b"a\x1b[5mb\x1b[6mc\x1b[25md\x1b[5m\x1b[me");
    let cell = |col| parser.screen().cell(0, col).unwrap().blink();
    assert_eq!(cell(0), Blink::Steady);
    assert_eq!(cell(1), Blink::Slow);
    assert_eq!(cell(2), Blink::Rapid);
    assert_eq!(cell(3), Blink::Steady);
    assert_eq!(cell(4), Blink::Steady, "SGR 0 resets blink");
    assert_eq!(parser.screen().blink(), Blink::Steady);
}

#[test]
fn scosc_and_scorc_save_and_restore_the_cursor_position() {
    let mut parser = Parser::new(5, 20, 0);
    parser.process(b"\x1b[2;3H\x1b[s\x1b[1mtext\x1b[4;10Hmore\x1b[u");
    assert_eq!(parser.screen().cursor_position(), (1, 2));
    // Unlike DECRC, SCORC leaves the attributes alone.
    assert!(parser.screen().bold());
    parser.process(b"X");
    assert_eq!(parser.screen().cell(1, 2).unwrap().contents(), "X");
}

#[test]
fn sgr_hidden_strikeout_and_underline_color_are_stored_on_cells() {
    let mut parser = Parser::new(2, 12, 0);
    parser.process(b"a\x1b[8mb\x1b[28m\x1b[9mc\x1b[29m\x1b[58;2;1;2;3md\x1b[58;5;9me\x1b[59mf\x1b[8;9;58:2:4:5:6mg\x1b[mh");
    let cell = |col| parser.screen().cell(0, col).unwrap();
    assert!(!cell(0).hidden() && !cell(0).strikeout());
    assert!(cell(1).hidden());
    assert!(!cell(2).hidden() && cell(2).strikeout());
    assert!(!cell(3).strikeout());
    assert_eq!(cell(3).underline_color(), Color::Rgb(1, 2, 3));
    assert_eq!(cell(4).underline_color(), Color::Idx(9));
    assert_eq!(cell(5).underline_color(), Color::Default);
    assert!(cell(6).hidden() && cell(6).strikeout());
    assert_eq!(cell(6).underline_color(), Color::Rgb(4, 5, 6));
    assert!(!cell(7).hidden() && !cell(7).strikeout(), "SGR 0 resets");
    assert_eq!(cell(7).underline_color(), Color::Default);
    assert!(!parser.screen().hidden());
}

#[test]
fn hidden_strikeout_and_underline_color_round_trip_through_contents_formatted() {
    let mut parser = Parser::new(2, 10, 0);
    parser.process(b"\x1b[8ma\x1b[28;9mb\x1b[29;58;2;1;2;3mc\x1b[59md");
    let formatted = parser.screen().contents_formatted();
    let mut replay = Parser::new(2, 10, 0);
    replay.process(&formatted);
    let cell = |col| replay.screen().cell(0, col).unwrap();
    assert!(cell(0).hidden());
    assert!(!cell(1).hidden() && cell(1).strikeout());
    assert!(!cell(2).strikeout());
    assert_eq!(cell(2).underline_color(), Color::Rgb(1, 2, 3));
    assert_eq!(cell(3).underline_color(), Color::Default);
    assert!(
        formatted.windows(4).any(|w| w == b"\x1b[8m"),
        "{formatted:?}"
    );
}

#[test]
fn blink_round_trips_through_contents_formatted() {
    let mut parser = Parser::new(2, 10, 0);
    parser.process(b"\x1b[5mab\x1b[6mc\x1b[25md");
    let formatted = parser.screen().contents_formatted();
    assert!(
        formatted.windows(4).any(|w| w == b"\x1b[5m"),
        "{formatted:?}"
    );
    assert!(
        formatted.windows(4).any(|w| w == b"\x1b[6m"),
        "{formatted:?}"
    );

    let mut replay = Parser::new(2, 10, 0);
    replay.process(&formatted);
    for col in 0..5 {
        assert_eq!(
            replay.screen().cell(0, col).unwrap().blink(),
            parser.screen().cell(0, col).unwrap().blink(),
            "column {col}"
        );
    }
    assert_eq!(replay.screen().blink(), parser.screen().blink());
}

#[test]
fn blink_diff_emits_reset_when_cleared() {
    let mut parser = Parser::new(2, 10, 0);
    parser.process(b"\x1b[5ma");
    let prev = parser.screen().clone();
    // Bold keeps the attributes off the all-default fast path, which
    // emits a bare SGR 0 instead of a per-attribute reset.
    parser.process(b"\x1b[1;25mb");
    let diff = parser.screen().contents_diff(&prev);
    let text = String::from_utf8_lossy(&diff);
    assert!(text.contains("\x1b[1;25m"), "{text:?}");
}

#[test]
fn kitty_keyboard_flags_push_set_and_pop() {
    let mut parser = Parser::new(5, 20, 0);
    assert_eq!(parser.screen().kitty_keyboard_flags(), 0);

    for (requested, expected) in [(1_u16, 1_u8), (3, 3), (31, 31)] {
        parser.process(format!("\x1b[>{requested}u").as_bytes());
        assert_eq!(parser.screen().kitty_keyboard_flags(), expected);
        parser.process(b"\x1b[<1u");
    }
    assert_eq!(parser.screen().kitty_keyboard_flags(), 0);

    // Nested pushes pop back to the previous level, and `CSI < u` with no
    // parameter pops one entry.
    parser.process(b"\x1b[>1u\x1b[>5u");
    assert_eq!(parser.screen().kitty_keyboard_flags(), 5);
    parser.process(b"\x1b[<u");
    assert_eq!(parser.screen().kitty_keyboard_flags(), 1);
    parser.process(b"\x1b[<10u");
    assert_eq!(parser.screen().kitty_keyboard_flags(), 0);

    // `CSI = flags ; mode u`: 1 sets, 2 ors in, 3 masks out.
    parser.process(b"\x1b[=3;1u");
    assert_eq!(parser.screen().kitty_keyboard_flags(), 3);
    parser.process(b"\x1b[=4;2u");
    assert_eq!(parser.screen().kitty_keyboard_flags(), 7);
    parser.process(b"\x1b[=1;3u");
    assert_eq!(parser.screen().kitty_keyboard_flags(), 6);
    parser.process(b"\x1b[=8u");
    assert_eq!(parser.screen().kitty_keyboard_flags(), 8);
}

#[test]
fn kitty_keyboard_stacks_are_per_screen() {
    let mut parser = Parser::new(5, 20, 0);
    parser.process(b"\x1b[>1u");
    parser.process(b"\x1b[?1049h\x1b[>15u");
    assert_eq!(parser.screen().kitty_keyboard_flags(), 15);
    parser.process(b"\x1b[?1049l");
    assert_eq!(
        parser.screen().kitty_keyboard_flags(),
        1,
        "leaving the alternate screen restores the main screen's flags"
    );
}

#[test]
fn kitty_keyboard_query_reaches_the_callbacks() {
    #[derive(Default)]
    struct Seen(Vec<(Option<u8>, char, Vec<Vec<u16>>)>);
    impl Callbacks for Seen {
        fn unhandled_csi(
            &mut self,
            _: &mut Screen,
            i1: Option<u8>,
            _: Option<u8>,
            params: &[&[u16]],
            c: char,
        ) {
            self.0
                .push((i1, c, params.iter().map(|p| p.to_vec()).collect()));
        }
    }
    let mut parser = Parser::new_with_callbacks(5, 20, 0, Seen::default());
    parser.process(b"\x1b[>3u\x1b[?u");
    assert_eq!(parser.screen().kitty_keyboard_flags(), 3);
    assert_eq!(parser.callbacks().0, vec![(Some(b'?'), 'u', vec![vec![0]])]);
}

/// Level 0 means disabled and must read as `None`; a key encoder that
/// treats any `Some` as enabled would otherwise mis-encode Ctrl+Enter.
#[test]
fn modify_other_keys_levels() {
    let mut parser = Parser::new(5, 20, 0);
    assert_eq!(parser.screen().modify_other_keys(), None);
    parser.process(b"\x1b[>4;2m");
    assert_eq!(parser.screen().modify_other_keys(), Some(2));
    parser.process(b"\x1b[>4;0m");
    assert_eq!(parser.screen().modify_other_keys(), None);
    parser.process(b"\x1b[>4;1m");
    assert_eq!(parser.screen().modify_other_keys(), Some(1));
    parser.process(b"\x1b[>4m");
    assert_eq!(parser.screen().modify_other_keys(), None);
}

/// Split across PTY reads, which a byte sniffer could not handle.
#[test]
fn modify_other_keys_survives_a_split_sequence() {
    let sequence = b"\x1b[>4;2m";
    for split in 1..sequence.len() {
        let mut parser = Parser::new(5, 20, 0);
        parser.process(&sequence[..split]);
        parser.process(&sequence[split..]);
        assert_eq!(
            parser.screen().modify_other_keys(),
            Some(2),
            "split at {split} was missed"
        );
    }
}

/// Other `CSI > ... m` resources (e.g. xterm's `CSI > 1 m`) are not ours
/// and must still reach the callbacks.
#[test]
fn other_private_sgr_resources_stay_unhandled() {
    #[derive(Default)]
    struct Count(usize);
    impl Callbacks for Count {
        fn unhandled_csi(
            &mut self,
            _: &mut Screen,
            _: Option<u8>,
            _: Option<u8>,
            _: &[&[u16]],
            _: char,
        ) {
            self.0 += 1;
        }
    }
    let mut parser = Parser::new_with_callbacks(5, 20, 0, Count::default());
    parser.process(b"\x1b[>1;2m\x1b[>4;2m");
    assert_eq!(parser.callbacks().0, 1);
    assert_eq!(parser.screen().modify_other_keys(), Some(2));
}

#[test]
fn display_cursor_clamps_the_pending_wrap_column() {
    let mut parser = Parser::new(2, 4, 0);
    parser.process(b"abcd");
    assert_eq!(parser.screen().cursor_position(), (0, 4));
    assert_eq!(parser.screen().display_cursor_position(), (0, 3));
}

#[test]
fn display_cursor_snaps_off_a_wide_continuation_cell() {
    let mut parser = Parser::new(2, 6, 0);
    parser.process("\u{4f60}\x1b[1;2H".as_bytes());
    assert_eq!(parser.screen().cursor_position(), (0, 1));
    assert_eq!(parser.screen().display_cursor_position(), (0, 0));
}

#[test]
fn cursor_hides_under_dectcem_and_while_scrolled_back() {
    let mut parser = Parser::new(3, 20, 100);
    assert!(!parser.screen().cursor_hidden());
    parser.process(b"\x1b[?25l");
    assert!(parser.screen().cursor_hidden());
    parser.process(b"\x1b[?25h");
    assert!(!parser.screen().cursor_hidden());

    for line in 0..10 {
        parser.process(format!("row{line}\r\n").as_bytes());
    }
    parser.screen_mut().set_scrollback(3);
    assert!(parser.screen().cursor_hidden());
    parser.screen_mut().set_scrollback(0);
    assert!(!parser.screen().cursor_hidden());
}

#[test]
fn rows_remember_kitty_placeholders_until_cleared() {
    let mut parser = Parser::new(3, 10, 0);
    parser.process("ab\r\n\u{10EEEE}\r\n".as_bytes());
    assert!(
        !parser
            .screen()
            .visible_row(0)
            .unwrap()
            .has_kitty_placeholder()
    );
    assert!(
        parser
            .screen()
            .visible_row(1)
            .unwrap()
            .has_kitty_placeholder()
    );
    parser.process(b"\x1b[2;1H\x1b[2K");
    assert!(
        !parser
            .screen()
            .visible_row(1)
            .unwrap()
            .has_kitty_placeholder()
    );
}

fn rows(parser: &Parser) -> Vec<String> {
    let (_, cols) = parser.screen().size();
    parser.screen().rows(0, cols)
}

#[test]
fn narrowing_reflows_a_long_line() {
    let mut parser = Parser::new(4, 20, 100);
    parser.process(b"0123456789abcdefghij\r\nnext");
    parser.screen_mut().set_size_reflow(4, 8);
    assert_eq!(rows(&parser), vec!["01234567", "89abcdef", "ghij", "next"]);
    assert!(parser.screen().row_wrapped(0));
    assert!(parser.screen().row_wrapped(1));
    assert!(!parser.screen().row_wrapped(2));
    assert_eq!(parser.screen().cursor_position(), (3, 4));

    // Widening joins the pieces back together.
    parser.screen_mut().set_size_reflow(4, 30);
    assert_eq!(rows(&parser), vec!["0123456789abcdefghij", "next", "", ""]);
    assert_eq!(parser.screen().cursor_position(), (1, 4));
}

#[test]
fn reflow_keeps_the_cursor_on_its_character() {
    let mut parser = Parser::new(3, 10, 100);
    parser.process(b"abcdefghij\x1b[1;7H");
    assert_eq!(parser.screen().cursor_position(), (0, 6));
    parser.screen_mut().set_size_reflow(3, 4);
    // "abcd" / "efgh" / "ij": 'g' is row 1, col 2.
    assert_eq!(parser.screen().cursor_position(), (1, 2));
    assert_eq!(parser.screen().cell(1, 2).unwrap().contents(), "g");
}

#[test]
fn reflow_pushes_overflow_into_scrollback_and_pulls_it_back() {
    let mut parser = Parser::new(3, 12, 100);
    parser.process(b"aaaaaaaaaaaa\r\nbb\r\ncc");
    assert_eq!(rows(&parser), vec!["aaaaaaaaaaaa", "bb", "cc"]);

    parser.screen_mut().set_size_reflow(3, 6);
    assert_eq!(rows(&parser), vec!["aaaaaa", "bb", "cc"]);
    parser.screen_mut().set_scrollback(1);
    assert_eq!(rows(&parser), vec!["aaaaaa", "aaaaaa", "bb"]);
    parser.screen_mut().set_scrollback(0);

    parser.screen_mut().set_size_reflow(3, 12);
    assert_eq!(rows(&parser), vec!["aaaaaaaaaaaa", "bb", "cc"]);
    assert_eq!(parser.screen().cursor_position(), (2, 2));
}

#[test]
fn shrinking_rows_scrolls_into_history_and_growing_recovers_it() {
    let mut parser = Parser::new(4, 10, 100);
    parser.process(b"one\r\ntwo\r\nthree\r\nfour");
    parser.screen_mut().set_size_reflow(2, 10);
    assert_eq!(rows(&parser), vec!["three", "four"]);
    assert_eq!(parser.screen().cursor_position(), (1, 4));

    parser.screen_mut().set_size_reflow(5, 10);
    assert_eq!(rows(&parser), vec!["one", "two", "three", "four", ""]);
    assert_eq!(parser.screen().cursor_position(), (3, 4));
}

#[test]
fn shrinking_rows_drops_blank_rows_below_the_cursor_first() {
    let mut parser = Parser::new(6, 10, 100);
    parser.process(b"top\x1b[2;1Hmid");
    parser.screen_mut().set_size_reflow(3, 10);
    assert_eq!(rows(&parser), vec!["top", "mid", ""]);
    assert_eq!(parser.screen().cursor_position(), (1, 3));
}

#[test]
fn resize_resets_the_scroll_region() {
    let mut parser = Parser::new(10, 20, 0);
    parser.process(b"\x1b[2;5r");
    parser.screen_mut().set_size_reflow(10, 21);
    // With the region reset, a linefeed on the last row scrolls the
    // whole screen rather than rows 2-5.
    parser.process(b"\x1b[10;1Hlast\r\nafter");
    assert_eq!(rows(&parser)[8], "last");
    assert_eq!(rows(&parser)[9], "after");
}

#[test]
fn resizing_while_scrolled_back_keeps_every_row_readable() {
    for (rows_after, cols_after) in [(3_u16, 40_u16), (12, 10), (24, 80), (4, 20)] {
        let mut parser = Parser::new(6, 40, 100);
        for line in 0..60 {
            parser.process(format!("row{line}\r\n").as_bytes());
        }
        parser.screen_mut().set_scrollback(usize::MAX);
        let before = parser.screen().scrollback();
        assert!(before > 0);

        parser.screen_mut().set_size_reflow(rows_after, cols_after);

        let (rows_now, _) = parser.screen().size();
        assert_eq!(rows_now, rows_after);
        for row in 0..rows_now {
            assert!(
                parser.screen().visible_row(row).is_some(),
                "row {row} unreadable after resizing to {cols_after}x{rows_after}"
            );
        }
        let _ = rows(&parser);
    }
}

#[test]
fn reflow_does_not_split_wide_glyphs() {
    let mut parser = Parser::new(2, 10, 100);
    parser.process("ab\u{4f60}\u{597d}cd".as_bytes());
    parser.screen_mut().set_size_reflow(4, 3);
    // "ab" + pad, "你", "好c", "d"
    assert_eq!(rows(&parser), vec!["ab", "\u{4f60}", "\u{597d}c", "d"]);
    assert!(parser.screen().cell(1, 0).unwrap().is_wide());
    assert!(parser.screen().cell(1, 1).unwrap().is_wide_continuation());
    assert_eq!(parser.screen().cursor_position(), (3, 1));
}

#[test]
fn alternate_screen_resizes_without_reflow() {
    let mut parser = Parser::new(3, 10, 100);
    parser.process(b"main line\x1b[?1049h0123456789");
    parser.screen_mut().set_size_reflow(3, 5);
    assert_eq!(rows(&parser), vec!["01234", "", ""]);
    parser.process(b"\x1b[?1049l");
    assert_eq!(rows(&parser), vec!["main ", "line", ""]);
}

#[test]
fn degenerate_grids_do_not_panic() {
    for (rows_n, cols_n) in [(1_u16, 1_u16), (1, 40), (40, 1), (2, 2)] {
        let mut parser = Parser::new(rows_n, cols_n, 10);
        parser.process("\u{4f60}\u{597d}ab\r\n\u{1f600}x".as_bytes());
        parser.screen_mut().set_size_reflow(1, 1);
        parser.process("\u{4f60}z".as_bytes());
        parser.screen_mut().set_size_reflow(rows_n, cols_n);
        let _ = parser.screen().contents_formatted();
        let _ = parser.screen().display_cursor_position();
    }
}
