//! Terminal sessions, with what the screen shows after them and with the checks
//! that hold of every session: written out and replayed, a screen comes back.

use ratty::ratty_vt::{MouseProtocolEncoding, MouseProtocolMode, Parser, Screen};

fn assert_same(actual: &Screen, expected: &Screen) {
    assert_eq!(actual.contents(), expected.contents());
    assert_eq!(actual.contents_formatted(), expected.contents_formatted());
    assert_eq!(actual.cursor_position(), expected.cursor_position());
    assert_eq!(actual.application_keypad(), expected.application_keypad());
    assert_eq!(actual.application_cursor(), expected.application_cursor());
    assert_eq!(actual.hide_cursor(), expected.hide_cursor());
    assert_eq!(actual.bracketed_paste(), expected.bracketed_paste());
    assert_eq!(actual.mouse_protocol_mode(), expected.mouse_protocol_mode());
    assert_eq!(
        actual.mouse_protocol_encoding(),
        expected.mouse_protocol_encoding()
    );
    let (rows, cols) = expected.size();
    for row in 0..rows {
        assert_eq!(actual.row_wrapped(row), expected.row_wrapped(row));
        for col in 0..cols {
            assert_eq!(actual.cell(row, col), expected.cell(row, col));
        }
    }
}

/// Feeds a session step by step. After each step the screen is written out and
/// replayed: whole, as the difference from the step before, and byte by byte.
fn session(steps: &[&str]) -> Parser {
    let mut parser = Parser::default();
    let mut follower = Parser::default();
    let mut by_bytes = Parser::default();
    for step in steps {
        let before = parser.screen().clone();
        parser.process(step.as_bytes());
        for byte in step.as_bytes() {
            by_bytes.process(&[*byte]);
        }
        let screen = parser.screen();

        let mut replay = Parser::default();
        replay.process(&screen.state_formatted());
        assert_same(replay.screen(), screen);

        follower.process(&screen.state_diff(&before));
        assert_same(follower.screen(), screen);

        assert_same(by_bytes.screen(), screen);
        assert!(screen.state_diff(screen).is_empty());

        let mut by_rows = Parser::default();
        let (_, cols) = screen.size();
        for (index, row) in screen.rows_formatted(0, cols).iter().enumerate() {
            by_rows.process(format!("\x1b[{};1H", index + 1).as_bytes());
            by_rows.process(row);
        }
        for (index, row) in screen.rows(0, cols).iter().enumerate() {
            assert_eq!(by_rows.screen().rows(0, cols)[index].trim_end(), row.trim_end());
        }
    }
    parser
}

#[test]
fn ascii() {
    let parser = session(&["foo"]);
    let screen = parser.screen();
    assert_eq!(screen.cell(0, 0).unwrap().contents(), "f");
    assert_eq!(screen.cell(0, 1).unwrap().contents(), "o");
    assert_eq!(screen.cell(0, 2).unwrap().contents(), "o");
    assert_eq!(screen.cell(0, 3).unwrap().contents(), "");
    assert_eq!(screen.cell(1, 0).unwrap().contents(), "");
    assert_eq!(screen.contents(), "foo");
    assert_eq!(
        screen.contents_formatted(),
        b"\x1b[?25h\x1b[m\x1b[H\x1b[Jfoo"
    );
}

#[test]
fn utf8() {
    let parser = session(&["café"]);
    let screen = parser.screen();
    assert_eq!(screen.cell(0, 3).unwrap().contents(), "é");
    assert_eq!(screen.cell(0, 4).unwrap().contents(), "");
    assert_eq!(screen.contents(), "café");
    assert_eq!(
        screen.contents_formatted(),
        "\x1b[?25h\x1b[m\x1b[H\x1b[Jcafé".as_bytes()
    );
}

#[test]
fn newlines() {
    let parser = session(&["f\r\noo\r\nobar"]);
    let screen = parser.screen();
    assert_eq!(screen.cell(0, 0).unwrap().contents(), "f");
    assert_eq!(screen.cell(0, 1).unwrap().contents(), "");
    assert_eq!(screen.cell(1, 0).unwrap().contents(), "o");
    assert_eq!(screen.cell(2, 3).unwrap().contents(), "r");
    assert_eq!(screen.contents(), "f\noo\nobar");
    assert_eq!(
        screen.contents_formatted(),
        b"\x1b[?25h\x1b[m\x1b[H\x1b[Jf\r\noo\r\nobar"
    );
}

#[test]
fn wide() {
    let parser = session(&["aデbネ"]);
    let screen = parser.screen();
    assert_eq!(screen.cell(0, 0).unwrap().contents(), "a");
    assert_eq!(screen.cell(0, 1).unwrap().contents(), "デ");
    assert!(screen.cell(0, 1).unwrap().is_wide());
    assert_eq!(screen.cell(0, 2).unwrap().contents(), "");
    assert!(screen.cell(0, 2).unwrap().is_wide_continuation());
    assert_eq!(screen.cell(0, 3).unwrap().contents(), "b");
    assert_eq!(screen.cell(0, 4).unwrap().contents(), "ネ");
    assert_eq!(screen.cell(0, 6).unwrap().contents(), "");
    assert_eq!(screen.contents(), "aデbネ");
    assert_eq!(screen.cursor_position(), (0, 6));

    // Drawing over one half of a wide character clears the other.
    let parser = session(&["\u{4f60}\x1b[1;2Hx", "\r\u{4f60}\rx"]);
    assert_eq!(parser.screen().cell(0, 0).unwrap().contents(), "x");
    assert!(!parser.screen().cell(0, 1).unwrap().is_wide_continuation());
}

#[test]
fn combining() {
    let parser = session(&["cafe\u{301}", "\x1b[2;1H\u{301}", "\x1b[3;79Hxy\u{301}z\u{301}"]);
    let screen = parser.screen();
    assert_eq!(screen.cell(0, 3).unwrap().contents(), "e\u{301}");
    assert_eq!(screen.cell(0, 4).unwrap().contents(), "");
    assert_eq!(screen.cell(2, 79).unwrap().contents(), "y\u{301}");
    assert_eq!(screen.cell(3, 0).unwrap().contents(), "z\u{301}");
    assert!(screen.row_wrapped(2));
}

#[test]
fn wrap() {
    let line = "0123456789".repeat(8);
    let parser = session(&[&line, "0123456789"]);
    let screen = parser.screen();
    assert_eq!(screen.contents(), format!("{line}0123456789"));
    assert!(screen.row_wrapped(0));
    assert!(!screen.row_wrapped(1));
    assert_eq!(screen.cursor_position(), (1, 10));

    let parser = session(&[&line, "\r\n", &line, "x"]);
    assert_eq!(
        parser.screen().contents(),
        format!("{line}\n{line}x")
    );

    // A wide character that finds one column left starts the next row.
    let parser = session(&["\x1b[1;79Hab", "\x1b[2;80H\u{4f60}", "\x1b[4;79H\u{4f60}c"]);
    assert!(!parser.screen().row_wrapped(1));
    assert_eq!(parser.screen().cell(2, 0).unwrap().contents(), "\u{4f60}");
    assert!(parser.screen().row_wrapped(3));
    assert_eq!(parser.screen().cell(4, 0).unwrap().contents(), "c");
}

#[test]
fn wrap_weird() {
    // The cursor waits behind the last column while things happen to the row.
    let line = "x".repeat(80);
    let parser = session(&[&line, "\x1b[K", "\n", "\n", "y"]);
    assert_eq!(parser.screen().cursor_position(), (3, 1));
    let parser = session(&[&line, "\x1b[1L", "y"]);
    assert_eq!(parser.screen().cell(1, 0).unwrap().contents(), "y");
    let parser = session(&["\x1b[24;1H", &line, "\n", "z"]);
    assert_eq!(parser.screen().cell(23, 0).unwrap().contents(), "z");
    assert_eq!(parser.screen().cursor_position(), (23, 1));
}

#[test]
fn modes() {
    let parser = session(&["\x1b[?1h\x1b=", "\x1b[?25l\x1b[?2004h", "\x1b[?1002h\x1b[?1006h"]);
    let screen = parser.screen();
    assert!(screen.application_keypad());
    assert!(screen.application_cursor());
    assert!(screen.hide_cursor());
    assert!(screen.bracketed_paste());
    assert_eq!(screen.mouse_protocol_mode(), MouseProtocolMode::ButtonMotion);
    assert_eq!(screen.mouse_protocol_encoding(), MouseProtocolEncoding::Sgr);
    let parser = session(&[
        "\x1b[?1h\x1b=\x1b[?25l\x1b[?2004h\x1b[?9h\x1b[?1005h",
        "\x1b[?1l\x1b>\x1b[?25h\x1b[?2004l",
        "\x1b[?1000l\x1b[?1006l",
        "\x1b[?9l\x1b[?1005l",
    ]);
    let screen = parser.screen();
    assert!(!screen.application_keypad());
    assert!(!screen.application_cursor());
    assert!(!screen.hide_cursor());
    assert!(!screen.bracketed_paste());
    assert_eq!(screen.mouse_protocol_mode(), MouseProtocolMode::Off);
    assert_eq!(screen.mouse_protocol_encoding(), MouseProtocolEncoding::Default);
}

#[test]
fn alternate_buffer() {
    let mut parser = Parser::default();
    parser.process(b"\x1b[m\x1b[2J\x1b[H1\r\n2\r\n3");
    assert!(!parser.screen().alternate_screen());
    parser.process(b"\x1b[?1049h");
    assert!(parser.screen().alternate_screen());
    assert_eq!(parser.screen().contents(), "");
    parser.process(b"foobar");
    assert_eq!(parser.screen().contents(), "foobar");
    parser.process(b"\x1b[?1049l");
    assert!(!parser.screen().alternate_screen());
    assert_eq!(parser.screen().contents(), "1\n2\n3");
    assert_eq!(parser.screen().cursor_position(), (2, 1));
    parser.process(b"\x1b[?47h");
    assert_eq!(parser.screen().contents(), "foobar");
    parser.process(b"\x1b[?47l");
    assert_eq!(parser.screen().contents(), "1\n2\n3");
}

#[test]
fn intermediate_control() {
    // A control character within a control sequence is executed and does not
    // end the sequence.
    let parser = session(&["\x1b[3\r1mfoo"]);
    let screen = parser.screen();
    assert_eq!(screen.contents(), "foo");
    assert_eq!(screen.cell(0, 0).unwrap().fgcolor(), ratty::ratty_vt::Color::Idx(1));
}

#[test]
fn synopsis() {
    let mut parser = Parser::new(24, 80, 0);
    parser.process(b"this text is \x1b[31mRED\x1b[m");
    assert_eq!(
        parser.screen().cell(0, 13).unwrap().fgcolor(),
        ratty::ratty_vt::Color::Idx(1)
    );
    let screen = parser.screen().clone();
    parser.process(b"\x1b[3D\x1b[32mGREEN");
    assert_eq!(
        parser.screen().contents_formatted(),
        &b"\x1b[?25h\x1b[m\x1b[H\x1b[Jthis text is \x1b[32mGREEN"[..]
    );
    assert_eq!(
        parser.screen().contents_diff(&screen),
        &b"\x1b[1;14H\x1b[32mGREEN"[..]
    );
}
