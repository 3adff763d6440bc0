//! What holds of the terminal engine as a whole, on examples.

use ratty::inline::rows_scrolled;
use ratty::ratty_vt::{Parser, Screen};

/// Whether every wide character of the screen is followed by its second half, and
/// every second half follows one.
fn is_whole(screen: &Screen) -> bool {
    let (rows, cols) = screen.size();
    (0..rows).all(|row| {
        (0..cols).all(|col| {
            let cell = screen.cell(row, col).unwrap();
            let next = screen.cell(row, col + 1);
            if cell.is_wide() {
                next.is_some_and(|next| next.is_wide_continuation())
            } else {
                next.is_none_or(|next| !next.is_wide_continuation())
            }
        })
    })
}

fn terminal(input: &str) -> Parser {
    let mut parser = Parser::new(4, 10, 20);
    parser.process(input.as_bytes());
    parser
}

#[test]
fn edits_between_the_halves_of_wide_characters_leave_none_behind() {
    let start = "\u{754c}\u{754c}\u{754c}\u{754c}\u{754c}";
    for edit in [
        "\x1b[1;2Hx",
        "\x1b[1;3Hx",
        "\x1b[1;2H\x1b[P",
        "\x1b[1;3H\x1b[3P",
        "\x1b[1;2H\x1b[@",
        "\x1b[1;4H\x1b[3@",
        "\x1b[1;2H\x1b[X",
        "\x1b[1;5H\x1b[2X",
        "\x1b[1;4H\x1b[K",
        "\x1b[1;4H\x1b[1K",
        "\x1b[1;6H\x1b[J",
        "\x1b[1;6H\x1b[1J",
        "\x1b[1;10H\u{754c}",
        "\x1b[1;2H\u{754c}",
        "\x1b[L\x1b[M",
    ] {
        let parser = terminal(&format!("{start}{edit}"));
        assert!(is_whole(parser.screen()), "{edit:?}");
    }
}

#[test]
fn narrower_screens_keep_wide_characters_whole() {
    for cols in 2..=10 {
        let mut parser = terminal("a\u{754c}b\u{754c}\u{754c}c\u{754c}");
        parser.screen_mut().set_size_reflow(4, cols);
        assert!(is_whole(parser.screen()), "{cols}");
    }
}

#[test]
fn a_screen_differs_from_itself_by_nothing() {
    let parser = terminal("\x1b[31mred\x1b[0m\r\n\x1b[?25l\x1b[?2004h\u{754c}x");
    let screen = parser.screen();
    assert_eq!(screen.contents_diff(screen), b"");
    assert_eq!(screen.state_diff(screen), b"");
    assert_eq!(screen.input_mode_diff(screen), b"");
}

#[test]
fn other_widths_keep_text_and_cursor() {
    let mut parser = terminal("the quick brown fox\r\njumps");
    parser.process(b"\x1b[2;3H");
    let under = |parser: &Parser| {
        let (row, col) = parser.screen().cursor_position();
        parser.screen().cell(row, col).unwrap().contents().to_string()
    };
    let text = |parser: &Parser| parser.screen().contents().replace('\n', "");
    assert_eq!(under(&parser), "o");
    let before = text(&parser);
    for cols in [7, 19, 30, 10] {
        parser.screen_mut().set_size_reflow(4, cols);
        assert_eq!(under(&parser), "o", "{cols}");
        assert_eq!(text(&parser), before, "{cols}");
    }
}

#[test]
fn saved_cursors_come_back_with_their_attributes() {
    let mut parser = terminal("\x1b[3;4H\x1b[1m\x1b7\x1b[H\x1b[0mabc\x1b8");
    assert_eq!(parser.screen().cursor_position(), (2, 3));
    assert!(parser.screen().bold());
    parser.process(b"\x1b7\x1b8");
    assert_eq!(parser.screen().cursor_position(), (2, 3));
}

#[test]
fn attributes_are_written_so_that_they_come_back() {
    let looks = [
        "\x1b[0m",
        "\x1b[1;3;4;7m",
        "\x1b[2;5;8;9m",
        "\x1b[31;42m",
        "\x1b[38;5;200;48;2;1;2;3m",
        "\x1b[6;58;5;9m",
    ];
    for from in looks {
        for to in looks {
            let old = terminal(from);
            let new = terminal(to);
            let mut parser = terminal(from);
            parser.process(&new.screen().contents_diff(old.screen()));
            assert_eq!(
                parser.screen().attributes_formatted(),
                new.screen().attributes_formatted(),
                "{from:?} {to:?}"
            );
        }
    }
}

#[test]
fn output_may_be_split_anywhere() {
    let input = "\x1b[1;31ma\u{754c}e\u{301}\x1b]2;t\x07\x1b[2;2H\u{1f600}z".as_bytes();
    let mut whole = Parser::new(4, 10, 0);
    whole.process(input);
    for at in 0..=input.len() {
        let mut parts = Parser::new(4, 10, 0);
        parts.process(&input[..at]);
        parts.process(&input[at..]);
        assert_eq!(
            parts.screen().state_formatted(),
            whole.screen().state_formatted(),
            "{at}"
        );
    }
}

#[test]
fn scrolled_rows_are_counted_by_their_text() {
    let texts = |rows: [&str; 4]| rows.map(str::to_string).to_vec();
    let before = texts(["a", "b", "c", "d"]);
    assert_eq!(rows_scrolled(&before, &before), 0);
    assert_eq!(rows_scrolled(&before, &texts(["b", "c", "d", "e"])), 1);
    assert_eq!(rows_scrolled(&before, &texts(["d", "x", "y", "z"])), 3);
    assert_eq!(rows_scrolled(&before, &texts(["w", "x", "y", "z"])), 0);
    assert_eq!(rows_scrolled(&Vec::new(), &Vec::new()), 0);
}

fn shown(parser: &Parser) -> Vec<String> {
    let screen = parser.screen();
    let (rows, cols) = screen.size();
    (0..rows)
        .flat_map(|row| (0..cols).map(move |col| (row, col)))
        .map(|(row, col)| format!("{:?}", screen.cell(row, col).unwrap()))
        .chain((0..rows).map(|row| format!("{row} {}", screen.row_wrapped(row))))
        .collect()
}

#[test]
fn written_screens_draw_themselves() {
    for input in [
        "",
        "plain text that wraps around the end of a row",
        "\x1b[41m\x1b[2J\x1b[3;3Hred\x1b[0m\x1b[1;5H\x1b[Kx",
        "\u{754c}\u{754c}\u{754c}\u{754c}\u{754c}\u{754c}a",
        "a\u{301}\u{1f469}\u{200d}\u{1f4bb}\u{1f1ef}\u{1f1f5}z",
        // Written separately, so that they do not join.
        "\u{1f1ef}\x1b[1;2H\u{1f1f5}",
        // The cursor waits behind a row that is full, blank, or below a full one.
        "0123456789",
        "0123456789\x1b[3;10Hx\x1b[2;3H",
        "0123456789\n",
        "\x1b[4;10Hx\x08 \x1b7\x08\x1b[X\x1b8",
        // The row above wraps onto a row that starts with a blank.
        "0123456789 x\x1b[2;1H\x1b[X",
        "0123456789 x\x1b[2;1H\x1b[44m\x1b[3X",
        "\x1b[?25l\x1b[1;31mhidden",
    ] {
        let written = terminal(input);
        let mut again = Parser::new(4, 10, 20);
        again.process(&written.screen().contents_formatted());
        assert_eq!(shown(&again), shown(&written), "{input:?}");
        assert_eq!(
            again.screen().cursor_position(),
            written.screen().cursor_position(),
            "{input:?}"
        );
        assert_eq!(
            again.screen().attributes_formatted(),
            written.screen().attributes_formatted(),
            "{input:?}"
        );
        assert_eq!(again.screen().hide_cursor(), written.screen().hide_cursor(), "{input:?}");
    }
}

#[test]
fn input_modes_come_back() {
    let modes = [
        "",
        "\x1b=\x1b[?1h",
        "\x1b[?2004h\x1b[?9h",
        "\x1b[?1000h\x1b[?1006h",
        "\x1b[?1002h\x1b[?1005h\x1b=",
        "\x1b[?1003h",
    ];
    let of = |parser: &Parser| {
        let screen = parser.screen();
        (
            screen.application_keypad(),
            screen.application_cursor(),
            screen.bracketed_paste(),
            screen.mouse_protocol_mode(),
            screen.mouse_protocol_encoding(),
        )
    };
    for to in modes {
        let wanted = terminal(to);
        let mut set = terminal("");
        set.process(&wanted.screen().input_mode_formatted());
        assert_eq!(of(&set), of(&wanted), "{to:?}");
        for from in modes {
            let mut changed = terminal(from);
            let bytes = wanted.screen().input_mode_diff(changed.screen());
            changed.process(&bytes);
            assert_eq!(of(&changed), of(&wanted), "{from:?} {to:?}");
        }
    }
}

#[test]
fn differences_turn_screens() {
    let inputs = [
        "",
        "plain\r\ntext\r\nin rows",
        "plain\r\nother\r\n\x1b[31min red",
        "\x1b[41m\x1b[2J\x1b[3;3Hred\x1b[0m\x1b[1;5H\x1b[Kx",
        "\u{754c}\u{754c}a\r\nb\u{754c}\u{754c}",
        "a\u{754c}\u{754c}\r\n\u{754c}b",
        "a\u{301}\u{1f469}\u{200d}\u{1f4bb}z",
        "text that wraps around",
        "text that does not",
        "0123456789",
        "0123456789\r\n\n\x1b[10C",
        "\x1b[?25l\x1b[1mhidden",
    ];
    for from in inputs {
        for to in inputs {
            let mut turned = terminal(from);
            let wanted = terminal(to);
            let bytes = wanted.screen().contents_diff(turned.screen());
            turned.process(&bytes);
            assert_eq!(shown(&turned), shown(&wanted), "{from:?} {to:?}");
            assert_eq!(
                turned.screen().cursor_position(),
                wanted.screen().cursor_position(),
                "{from:?} {to:?}"
            );
            assert_eq!(
                turned.screen().attributes_formatted(),
                wanted.screen().attributes_formatted(),
                "{from:?} {to:?}"
            );
            assert_eq!(turned.screen().hide_cursor(), wanted.screen().hide_cursor());
        }
    }
}

#[test]
fn resizing_keeps_the_cursor_on_its_character() {
    let mut parser = Parser::new(3, 10, 100);
    parser.process(b"a\r\nb\r\nc\x1b[1;1H");
    let screen = parser.screen_mut();
    screen.set_size_reflow(1, 10);
    assert_eq!(screen.size(), (1, 10));
    let (row, col) = screen.cursor_position();
    assert_eq!(screen.cell(row, col).unwrap().contents(), "a");
    for (rows, cols) in [(1, 3), (2, 2), (5, 20), (3, 4)] {
        let mut parser = Parser::new(3, 10, 100);
        parser.process(b"first line\r\nsecond\r\nthird\x1b[2;4H");
        let screen = parser.screen_mut();
        screen.set_size_reflow(rows, cols);
        let (row, col) = screen.cursor_position();
        assert_eq!(screen.cell(row, col).unwrap().contents(), "o", "{rows} {cols}");
    }
}

#[test]
fn contents_are_the_rows() {
    for input in ["", "a\r\n\r\nb c", "\r\n\r\nx", "one\r\ntwo\r\nthree\r\nfour"] {
        let parser = terminal(input);
        let rows = parser.screen().rows(0, 10).join("\n");
        assert_eq!(parser.screen().contents(), rows.trim_end_matches('\n'), "{input:?}");
    }
}

#[test]
fn differences_follow_written_screens() {
    let screens = [
        "",
        "0123456789 wraps",
        "0123456789 wr",
        "01234",
        "0123456789\r\nnot",
        "one\r\ntwo \x1b[7mthree",
    ];
    for from in screens {
        for to in screens {
            let (prev, next) = (terminal(from), terminal(to));
            let mut again = Parser::new(4, 10, 0);
            again.process(&prev.screen().contents_formatted());
            again.process(&next.screen().contents_diff(prev.screen()));
            let mut alone = Parser::new(4, 10, 0);
            alone.process(&next.screen().contents_formatted());
            assert_eq!(shown(&again), shown(&alone), "{from:?} {to:?}");
            assert_eq!(
                again.screen().cursor_position(),
                alone.screen().cursor_position(),
                "{from:?} {to:?}"
            );
        }
    }
}

/// What is written on each line, however it is wrapped.
fn lines(parser: &mut Parser) -> Vec<String> {
    parser.screen_mut().set_scrollback(usize::MAX);
    let history = parser.screen().scrollback();
    let (rows, cols) = parser.screen().size();
    let mut all: Vec<(String, bool)> = Vec::new();
    for offset in (1..=history).rev() {
        parser.screen_mut().set_scrollback(offset);
        let text = parser.screen().rows(0, cols)[0].clone();
        all.push((text, parser.screen().visible_row(0).unwrap().wrapped()));
    }
    parser.screen_mut().set_scrollback(0);
    for row in 0..rows {
        let text = parser.screen().rows(0, cols)[usize::from(row)].clone();
        all.push((text, parser.screen().row_wrapped(row)));
    }
    let mut lines = vec![String::new()];
    for (text, wrapped) in all {
        lines.last_mut().unwrap().push_str(&text);
        if !wrapped {
            lines.push(String::new());
        }
    }
    while lines.last().is_some_and(String::is_empty) {
        lines.pop();
    }
    lines
}

#[test]
fn resizing_keeps_every_line() {
    for (rows, cols) in [(4, 3), (2, 10), (2, 25), (6, 7), (1, 4), (9, 40)] {
        let mut parser = terminal("a long first line\r\n\r\nthird\r\nfourth and last");
        let before = lines(&mut parser);
        parser.screen_mut().set_size_reflow(rows, cols);
        assert_eq!(lines(&mut parser), before, "{rows} {cols}");
    }
}

#[test]
fn resizing_keeps_what_is_written_with_wide_characters() {
    let input = "a\u{754c}\u{754c}b\u{754c}\u{754c}\u{754c}c\r\nx\u{754c}y\u{754c}";
    for (rows, cols) in [(4, 3), (2, 10), (2, 25), (6, 7), (1, 4), (9, 40), (5, 2)] {
        let mut parser = terminal(input);
        parser.screen_mut().set_size_reflow(rows, cols);
        let after: Vec<String> = lines(&mut parser)
            .iter()
            .map(|line| line.replace(' ', ""))
            .collect();
        assert_eq!(
            after,
            [
                "a\u{754c}\u{754c}b\u{754c}\u{754c}\u{754c}c",
                "x\u{754c}y\u{754c}"
            ],
            "{rows} {cols}"
        );
    }
}

#[test]
fn resizing_keeps_every_line_before_the_cursor() {
    // The text fills the scrollback and the screen, and nothing is behind the cursor.
    for (rows, cols) in [(4, 10), (3, 10), (4, 7), (4, 20), (2, 30), (9, 10)] {
        let mut parser = Parser::new(4, 10, 6);
        parser.process(b"one\r\ntwo\r\n0123456789 wraps\r\n\r\nlast");
        let before = lines(&mut parser);
        parser.screen_mut().set_size_reflow(rows, cols);
        assert_eq!(lines(&mut parser), before, "{rows} {cols}");
    }
}

#[test]
fn differences_draw_over_text_that_was_wide_for_a_moment() {
    // A watch that is asked for as text is narrow in the end.
    let watch = "a\u{231a}\u{fe0e}b";
    assert!(!terminal(watch).screen().cell(0, 1).unwrap().is_wide());
    assert_eq!(terminal(watch).screen().cell(0, 2).unwrap().contents(), "b");
    for (from, to) in [
        ("xyz", watch),
        (watch, "xyz"),
        ("x\u{754c}\u{754c}", watch),
        (watch, "a\u{754c}b"),
        ("", watch),
    ] {
        let (prev, next) = (terminal(from), terminal(to));
        let mut again = Parser::new(4, 10, 0);
        again.process(&prev.screen().contents_formatted());
        again.process(&next.screen().contents_diff(prev.screen()));
        let mut alone = Parser::new(4, 10, 0);
        alone.process(&next.screen().contents_formatted());
        assert_eq!(shown(&again), shown(&alone), "{from:?} {to:?}");
    }
}

#[test]
fn text_holds_no_control_characters() {
    let mut parser = Parser::new(4, 10, 20);
    parser.process(b"\x1b[31mred\x1b[0m\x07\x00\x7f\tx\x0by\r\n\xc2\x85\xc2\x9bz");
    parser.process("\x1b]0;title\x07e\u{301}\u{754c} 0123456789".as_bytes());
    parser.screen_mut().set_size_reflow(4, 7);
    let screen = parser.screen();
    assert!(!screen.contents().is_empty());
    assert!(screen.contents().chars().all(|c| c == '\n' || !c.is_control()));
    assert!(screen.contents_between(0, 1, 3, 4).chars().all(|c| c == '\n' || !c.is_control()));
    for row in screen.rows(0, 7) {
        assert!(!row.chars().any(char::is_control), "{row:?}");
    }
}
