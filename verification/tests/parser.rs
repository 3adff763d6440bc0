//! The parser, fed in pieces and with malformed input.

use ratty::ratty_vt::{Callbacks, Parser, Screen};

#[test]
fn partial_utf8_does_not_swallow_text_controls_or_escapes() {
    for text in [
        "éxé",
        "é\n€",
        "é\x1b€",
        "你好 e\u{301} 👩\u{200d}💻 🇺🇳 क्षि",
        "\x1b]0;éxé\x07after",
        "\x1b]0;éxé\x1b\\after",
    ] {
        let bytes = text.as_bytes();
        let mut whole = Parser::new(8, 80, 100);
        whole.process(bytes);
        let expected = whole.screen().state_formatted();
        for first in 0..=bytes.len() {
            for second in first..=bytes.len() {
                let mut split = Parser::new(8, 80, 100);
                split.process(&bytes[..first]);
                split.process(&bytes[first..second]);
                split.process(&bytes[second..]);
                assert_eq!(
                    split.screen().state_formatted(),
                    expected,
                    "{text:?}: cuts {first}, {second}"
                );
            }
        }
    }
}

#[test]
fn malformed_prefixes_do_not_hide_following_ascii_or_panic() {
    for prefix in [
        &b"\xc3\xff"[..],
        &b"\xf0\x80\xc3"[..],
        &b"\xe2\xc3\xc3\xc3"[..],
        &b"\xed\xa0\x80"[..],
        &b"\xf5\x80\x80\x80"[..],
        &b"\xe2\x1b[0m"[..],
    ] {
        let mut bytes = prefix.to_vec();
        bytes.extend_from_slice(b"\r\nEND");
        for chunk in 1..=bytes.len() {
            let mut parser = Parser::new(8, 80, 100);
            for bytes in bytes.chunks(chunk) {
                parser.process(bytes);
            }
            assert!(
                parser.screen().contents().ends_with("END"),
                "prefix={prefix:?}, chunk={chunk}"
            );
        }
    }
}

#[test]
fn split_osc_preserves_title_payload_and_terminators() {
    #[derive(Default)]
    struct Titles(Vec<Vec<u8>>);
    impl Callbacks for Titles {
        fn set_window_title(&mut self, _: &mut Screen, title: &[u8]) {
            self.0.push(title.to_vec());
        }
    }
    for terminator in ["\x07", "\x1b\\"] {
        let input = format!("\x1b]2;éxé 界💻{terminator}after");
        let bytes = input.as_bytes();
        for first in 0..=bytes.len() {
            for second in first..=bytes.len() {
                let mut parser = Parser::new_with_callbacks(8, 80, 0, Titles::default());
                parser.process(&bytes[..first]);
                parser.process(&bytes[first..second]);
                parser.process(&bytes[second..]);
                assert_eq!(
                    parser.callbacks().0,
                    vec!["éxé 界💻".as_bytes()],
                    "cuts {first}, {second}"
                );
                assert_eq!(parser.screen().contents(), "after");
            }
        }
    }
}

#[test]
fn params() {
    let mut parser = Parser::default();
    parser.process(b"\x1b[::::::::::::::::::::::::::::::::@");
    parser.process(b"\x1b[::::::::::::::::::::::::::::::::H");
    parser.process(b"\x1b[::::::::::::::::::::::::::::::::r");
    parser.process(b"a\x1b[8888888X");
}

#[derive(Default)]
struct Heard {
    chars: Vec<char>,
    controls: Vec<u8>,
}

impl Callbacks for Heard {
    fn unhandled_char(&mut self, _: &mut Screen, c: char) {
        self.chars.push(c);
    }

    fn unhandled_control(&mut self, _: &mut Screen, b: u8) {
        self.controls.push(b);
    }
}

#[test]
fn control_characters_that_come_whole_are_executed() {
    let mut parser = Parser::new_with_callbacks(2, 10, 0, Heard::default());
    parser.process(b"\xc2\x85");
    assert_eq!(parser.callbacks().controls, [0x85]);
    assert!(parser.callbacks().chars.is_empty());
    // Nor does it matter where they are split.
    parser.process(b"\xc2");
    assert_eq!(parser.callbacks().controls, [0x85]);
    parser.process(b"\x86x");
    assert_eq!(parser.callbacks().controls, [0x85, 0x86]);
    assert_eq!(parser.screen().contents(), "x");
}
