//! Replies to applications and the state around the parser.

use ratty::config::ShellConfig;
use ratty::ratty_vt::Parser;
use ratty::runtime::{
    command_line, encode_version, encoded_version, environment, EmptyCommand, NoChild,
    PtyDimensions, QueueMetrics, ResizeStep, RuntimeOptions, ShutdownStep, TerminalParserCallbacks,
    TerminalRuntime, VERSION,
};

fn parser(rows: u16, cols: u16) -> Parser<TerminalParserCallbacks> {
    Parser::new_with_callbacks(rows, cols, 100, TerminalParserCallbacks::default())
}

fn replies(parser: &mut Parser<TerminalParserCallbacks>) -> Vec<String> {
    parser
        .callbacks_mut()
        .take_replies()
        .into_iter()
        .map(|reply| String::from_utf8(reply).expect("utf-8 reply"))
        .collect()
}

#[test]
fn replies_are_queued_for_write_back() {
    let mut parser = parser(5, 20);
    parser.process(b"\x1b[0c");
    parser.process(b"\x1b[5n");
    parser.process(b"\x1b[3;7H\x1b[6n");

    let got = replies(&mut parser);
    assert_eq!(got, vec!["\x1b[?62;22c", "\x1b[0n", "\x1b[3;7R"]);
    assert!(replies(&mut parser).is_empty(), "replies must drain");
}

#[test]
fn primary_device_attributes_advertise_only_what_ratty_implements() {
    let mut parser = parser(5, 20);
    parser.process(b"\x1b[c");
    let reply = replies(&mut parser).remove(0);
    let params: Vec<&str> = reply
        .strip_prefix("\x1b[?")
        .and_then(|rest| rest.strip_suffix('c'))
        .expect("DA1 shape")
        .split(';')
        .collect();
    assert!(params.contains(&"62"));
    assert!(params.contains(&"22"));
    assert!(!params.contains(&"4"));
    assert!(!params.contains(&"52"));
}

#[test]
fn secondary_device_attributes_and_xtversion_report_ratty() {
    let mut parser = parser(5, 20);
    parser.process(b"\x1b[>0c\x1b[>0q\x1b[>q");
    let got = replies(&mut parser);
    assert_eq!(got[0], format!("\x1b[>0;{};1c", encoded_version()));
    assert_eq!(got[1], format!("\x1bP>|ratty {}\x1b\\", VERSION));
    assert_eq!(got[2], got[1], "a missing parameter defaults to 0");
    assert!(!got[1].to_lowercase().contains("rio"));
}

#[test]
fn encoded_version_matches_the_da2_weighting() {
    // patch + minor*100 + major*10000
    let expected = VERSION
        .split('.')
        .rev()
        .enumerate()
        .map(|(index, part)| 100_usize.pow(index as u32) * part.parse::<usize>().unwrap_or(0))
        .sum::<usize>();
    assert_eq!(encoded_version(), expected);
    assert_eq!(encode_version("2.13.4"), 21304);
    assert_eq!(encode_version("2.13.4-beta-1"), 21300);
    assert_eq!(encode_version("2.13.4-beta"), 21304);
    assert_eq!(encode_version("x.1"), 1);
    assert_eq!(encode_version("1.0.0.0.0.0.0.0.0.0.0"), 0);
}

#[test]
fn cursor_position_report_uses_the_drawn_cell() {
    let mut parser = parser(2, 4);
    parser.process(b"abcd\x1b[6n");
    assert_eq!(replies(&mut parser), vec!["\x1b[1;4R"]);
}

#[test]
fn kitty_keyboard_query_reports_the_active_flags() {
    let mut parser = parser(5, 20);
    parser.process(b"\x1b[?u\x1b[>5u\x1b[?u\x1b[<u\x1b[?u");
    assert_eq!(replies(&mut parser), vec!["\x1b[?0u", "\x1b[?5u", "\x1b[?0u"]);
}

#[test]
fn known_but_unmodelled_sequences_do_not_reply() {
    let mut parser = parser(5, 20);
    parser.process(b"\x1b[?7h\x1b[?7l\x1b[>1;2m");
    assert!(replies(&mut parser).is_empty());
}

#[test]
fn unknown_sequences_are_warned_of_once() {
    let mut parser = parser(5, 20);
    parser.process(b"\x1b[?12;3:4$p\x1b[?12;3:4$p\x1b[?7h\x1b#8\x1b#8\x1b[9n");
    assert_eq!(
        parser.callbacks_mut().take_warnings(),
        vec![
            "unhandled terminal CSI sequence: \x1b[?$12;3:4p",
            "unhandled terminal escape sequence: \x1b#8",
            "unhandled terminal CSI sequence: \x1b[9n",
        ]
    );
    assert!(parser.callbacks_mut().take_warnings().is_empty());
}

#[test]
fn the_runtime_answers_as_the_parser_does() {
    let input = b"ab\x1b[6n\x1b[c\x1b]2;title\x07\x1b[?u\x1bZ";
    let mut whole = TerminalRuntime::new(20, 5, 100);
    whole.process(input);
    let mut parts = TerminalRuntime::new(20, 5, 100);
    for byte in input {
        parts.process(&[*byte]);
    }
    let mut parser = parser(5, 20);
    parser.process(input);
    let expected = parser.callbacks_mut().take_replies();
    assert_eq!(expected.len(), 3);
    assert_eq!(whole.take_replies(), expected);
    assert_eq!(parts.take_replies(), expected);
    assert_eq!(whole.visible_row_texts(), vec!["ab", "", "", "", ""]);
    assert_eq!(whole.screen().contents(), parts.screen().contents());
    assert_eq!(whole.take_warnings(), vec!["unhandled terminal escape sequence: \x1bZ"]);
    assert!(whole.take_replies().is_empty());
}

#[test]
fn polling_exit_discards_reaped_children_but_preserves_live_child_cleanup() {
    for status in [None, Some(0), Some(7)] {
        let mut runtime = TerminalRuntime::new(80, 24, 100);
        assert_eq!(
            runtime.child_exit_success(status).expect("poll child status"),
            status.map(|code| code == 0)
        );
        assert_eq!(runtime.child_held, status.is_none());
        let step = runtime.shutdown();
        assert!(step.close);
        assert_eq!(step.kill, status.is_none());
        assert!(runtime.pty_disconnected);
        assert_eq!(runtime.shutdown(), ShutdownStep { close: false, kill: false });
        assert_eq!(runtime.child_exit_success(None), Err(NoChild));
    }
}

#[test]
fn queue_accounting_decrements_only_on_successful_receipt() {
    let mut metrics = QueueMetrics::default();
    metrics.sent(3);
    assert_eq!(metrics.queued_bytes(), (3, 3));
    metrics.received(3);
    assert_eq!(metrics.queued_bytes(), (0, 3));
    metrics.sent(2);
    metrics.sent(4);
    metrics.received(2);
    assert_eq!(metrics.queued_bytes(), (4, 6));
}

#[test]
fn fidelity_digest_is_opt_in_and_independent_of_chunk_boundaries() {
    let make_runtime = || TerminalRuntime::new(80, 24, 100);
    let mut whole = make_runtime();
    whole.process(b"READY");
    assert_eq!(whole.processed_digest(), None);
    whole.start_processed_digest();
    whole.process(b"hello");
    assert_eq!(whole.processed_digest(), Some(0xa430d84680aabd0b));
    let mut split = make_runtime();
    split.start_processed_digest();
    for byte in b"hello" {
        split.process(&[*byte]);
    }
    assert_eq!(split.processed_digest(), whole.processed_digest());
    split.start_processed_digest();
    split.process(b"jello");
    assert_ne!(split.processed_digest(), whole.processed_digest());
    assert_eq!(whole.processed_bytes(), 10);
    whole.child_held = false;
    assert_eq!(whole.child_exit_success(None).expect_err("no child handle"), NoChild);
}

fn dimensions(cols: u16, rows: u16, pixel_width: u16, pixel_height: u16) -> PtyDimensions {
    PtyDimensions { cols, rows, pixel_width, pixel_height }
}

#[test]
fn scheduled_retry_applies_a_retained_resize_after_the_parser_reflowed() {
    let mut runtime = TerminalRuntime::new(80, 24, 100);
    let wanted = dimensions(100, 30, 800, 600);
    // The child is asked, and does not answer.
    assert_eq!(runtime.resize(100, 30, 800, 600), ResizeStep::Notify(wanted));
    assert_eq!(runtime.last_pty_size, dimensions(80, 24, 0, 0));
    assert_eq!(runtime.last_parser_size, (100, 30));
    assert_eq!(runtime.screen().size(), (30, 100));
    assert_eq!(runtime.pending_resize, Some(wanted));

    assert_eq!(runtime.retry_pending_resize(), ResizeStep::Notify(wanted));
    runtime.pty_resized(wanted);
    assert_eq!(runtime.last_pty_size, wanted);
    assert_eq!(runtime.pending_resize, None);
    assert_eq!(runtime.retry_pending_resize(), ResizeStep::Idle);

    // Identical dimensions are not resent to the PTY.
    assert_eq!(runtime.resize(100, 30, 800, 600), ResizeStep::Applied);
    let wider = dimensions(100, 30, 900, 600);
    assert_eq!(runtime.resize(100, 30, 900, 600), ResizeStep::Notify(wider));
    runtime.pty_resized(wider);
    assert_eq!(runtime.last_pty_size, wider);
    assert_eq!(runtime.last_parser_size, (100, 30));
    assert_eq!(runtime.resize(0, 30, 900, 600), ResizeStep::Idle);
}

#[test]
fn commands_come_from_the_options_or_a_shell() {
    let text = |text: &str| text.to_string();
    let shell = ShellConfig { program: None, args: vec![text("-l")] };
    let options = RuntimeOptions {
        command: Some(vec![text("ls"), text("-a"), text("-b")]),
        working_dir: None,
    };
    let line = command_line(&options, &shell, None).expect("a command");
    assert_eq!((line.program.as_str(), line.args), ("ls", vec![text("-a"), text("-b")]));
    let empty = RuntimeOptions { command: Some(Vec::new()), working_dir: None };
    assert_eq!(command_line(&empty, &shell, None).expect_err("no program"), EmptyCommand);

    let none = RuntimeOptions::default();
    let line = command_line(&none, &shell, None).expect("a shell");
    assert_eq!((line.program.as_str(), line.args), ("/bin/sh", vec![text("-l")]));
    let line = command_line(&none, &shell, Some(text("/bin/zsh"))).expect("a shell");
    assert_eq!(line.program, "/bin/zsh");
    let fish = ShellConfig { program: Some(text("fish")), args: Vec::new() };
    let line = command_line(&none, &fish, Some(text("/bin/zsh"))).expect("a shell");
    assert_eq!(line.program, "fish");
}

#[test]
fn the_kind_of_terminal_is_told_unless_configured() {
    let pair = |name: &str, value: &str| (name.to_string(), value.to_string());
    assert_eq!(
        environment(&vec![pair("A", "1")]),
        vec![pair("TERM", "xterm-256color"), pair("A", "1")]
    );
    let configured = vec![pair("A", "1"), pair("TERM", "vt100")];
    assert_eq!(environment(&configured), configured);
}
