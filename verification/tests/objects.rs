//! The object protocol: sequences in the output, objects and their anchors.

use ratty::inline::{
    apc_end, center_anchor, next_rgp_candidate, InlineAction, OutputFilter, OutputPiece, RgpScan,
    TerminalInlineObjects,
};
use ratty::decimal::reads_as_real;
use ratty::kitty::{ColorType, GraphicData, PendingImage};
use ratty::number::Number;
use ratty::rgp::{
    consume_sequence, support_reply, RgpCameraSettings, RgpOperation, RgpRegisterSource,
};
use ratty::runtime::TerminalRuntime;
use ratty::scene::TerminalPresentationMode;

fn operation(text: &str) -> Option<RgpOperation> {
    consume_sequence(format!("\x1b_ratty;g;{text}\x1b\\").as_bytes())
}

#[test]
fn sequences_are_read() {
    assert!(matches!(operation("s"), Some(RgpOperation::SupportQuery)));
    assert!(matches!(operation("d;id=4"), Some(RgpOperation::Delete { object_id: Some(4) })));
    assert!(matches!(operation("d"), Some(RgpOperation::Delete { object_id: None })));
    assert!(matches!(operation("x;id=4"), Some(RgpOperation::Ignored)));
    assert!(consume_sequence(b"\x1b_other;g;s\x1b\\").is_none());
    assert!(operation("r;id=1;fmt=obj").is_none());
    assert!(operation("r;fmt=obj;path=a.obj").is_none());
    match operation("r;id=1;fmt=obj;path=a.obj;normalize=0") {
        Some(RgpOperation::Register { object_id, format, options, source }) => {
            assert_eq!((object_id, format.as_str(), options.normalize), (1, "obj", false));
            assert!(matches!(source, RgpRegisterSource::Path { path } if path == "a.obj"));
        }
        other => panic!("unexpected operation {other:?}"),
    }
}

#[test]
fn payloads_are_decoded() {
    match operation("r;id=2;fmt=glb;source=payload;name=rat;more=1;aGVsbG8=") {
        Some(RgpOperation::Register { options, source, .. }) => {
            assert!(options.normalize);
            match source {
                RgpRegisterSource::Payload { name, more, data } => {
                    assert_eq!(name.as_deref(), Some("rat"));
                    assert!(more);
                    assert_eq!(data, b"hello");
                }
                other => panic!("unexpected source {other:?}"),
            }
        }
        other => panic!("unexpected operation {other:?}"),
    }
    assert!(operation("r;id=2;fmt=glb;source=payload;not base64!").is_none());
}

#[test]
fn placements_and_updates_keep_their_numbers() {
    match operation("p;id=3;row=5;col=6;w=2;h=4;animate=1;color=#0a0B0c;scale=1.5;sz=2;px=-3") {
        Some(RgpOperation::Place { object_id, anchor }) => {
            assert_eq!(object_id, 3);
            assert_eq!((anchor.row, anchor.col, anchor.columns, anchor.rows), (5, 6, 2, 4));
            assert!(anchor.style.animate);
            assert_eq!(anchor.style.color, Some([10, 11, 12]));
            // Those that are not given are one where they multiply, else zero.
            assert_eq!(
                anchor.style.numbers,
                ["1.5", "0", "1", "-3", "0", "0", "0", "0", "0", "1", "1", "2"]
            );
        }
        other => panic!("unexpected operation {other:?}"),
    }
    assert!(operation("p;id=3;row=5;col=6;w=2").is_none());
    assert!(operation("p;id=3;row=70000;col=6;w=2;h=1").is_none());
    match operation("u;id=3;animate=maybe;tint=123456") {
        Some(RgpOperation::Update { update, .. }) => {
            assert_eq!(update.animate, None);
            assert_eq!(update.color, Some([0x12, 0x34, 0x56]));
        }
        other => panic!("unexpected operation {other:?}"),
    }
    // What is no number is not given, and the last one counts.
    match operation("u;id=3;scale=2;depth=deep;scale=x;px=1e3") {
        Some(RgpOperation::Update { update, .. }) => {
            assert_eq!(update.numbers[0], None);
            assert_eq!(update.numbers[1], None);
            assert_eq!(update.numbers[3].as_deref(), Some("1e3"));
        }
        other => panic!("unexpected operation {other:?}"),
    }
}

#[test]
fn numbers_are_those_that_the_standard_library_reads() {
    for text in [
        "0", "1", "-1", "+2", "007", "1.", ".5", "-.5", "1.25", "1e3", "1E3", "1e+3", "1.5e-3",
        "inf", "-Infinity", "NaN", "+nan", "", ".", "+", "-", "e3", "1e", "1e+", ".e1", "1.2.3",
        "1,5", " 1", "1 ", "0x10", "--1", "infinit", "1f", "e", "1e2.5", "\u{661}", "1_000",
    ] {
        let chars: Vec<char> = text.chars().collect();
        assert_eq!(reads_as_real(&chars), text.parse::<f32>().is_ok(), "{text:?}");
    }
}

#[test]
fn output_reaches_the_terminal_or_the_objects() {
    let mut objects = TerminalInlineObjects::new();
    let mut runtime = TerminalRuntime::new(20, 3, 0);
    let mut replies = Vec::new();
    let mut output = false;
    for chunk in [&b"a\x1b_ratty;g;s\x1b\\b\x1b_ratty;g;r;id"[..], b"=1\x1b\\c"] {
        for piece in objects.consume_pty_output(chunk) {
            let handled = objects.handle_piece(piece, &mut runtime);
            output |= handled.terminal_output;
            if let InlineAction::Reply(bytes) = handled.action {
                replies.push(bytes);
            }
        }
    }
    assert!(output);
    assert_eq!(replies, [support_reply()]);
    assert_eq!(runtime.screen().contents(), "abc");
    // The second sequence asks for nothing, and the terminal got it.
    assert_eq!(runtime.processed_bytes(), 3 + 18);
}

#[test]
fn changed_images_ask_for_synchronization() {
    let mut objects = TerminalInlineObjects::new();
    objects.finish_sync(80, 24);
    objects.refresh_kitty(&Vec::new(), Vec::new(), &Vec::new(), &Vec::new());
    assert!(!objects.needs_sync(false, 80, 24));
    let data = GraphicData {
        width: 1,
        height: 1,
        color_type: ColorType::Rgb,
        pixels: vec![1, 2, 3],
    };
    let image = PendingImage { image_id: 4, transmit_time: 7, data };
    objects.refresh_kitty(&Vec::new(), vec![image], &vec![4], &Vec::new());
    assert!(objects.needs_sync(false, 80, 24));
    assert_eq!(objects.kitty().image(4).expect("an image").raster.rgba, [1, 2, 3, 255]);
}

fn engine_bytes(pieces: &[OutputPiece]) -> Vec<u8> {
    pieces
        .iter()
        .flat_map(|piece| match piece {
            OutputPiece::Engine(bytes) => bytes.clone(),
            OutputPiece::Sequence(_) => Vec::new(),
        })
        .collect()
}

#[test]
fn sequences_are_taken_out_of_the_output() {
    let mut filter = OutputFilter::new();
    let pieces = filter.take(b"ab\x1b_ratty;g;s\x1b\\cd\x1b[0m");
    assert_eq!(engine_bytes(&pieces), b"abcd\x1b[0m");
    assert!(pieces.iter().any(
        |piece| matches!(piece, OutputPiece::Sequence(bytes) if bytes == b"\x1b_ratty;g;s\x1b\\")
    ));
    assert!(filter.pending.is_empty());
}

#[test]
fn sequences_may_be_split_anywhere() {
    let output = b"ab\x1b_ratty;g;d;id=9\x1b\\cd\x1b_Gother\x1b\\";
    for split in 0..output.len() {
        let mut filter = OutputFilter::new();
        let mut pieces = filter.take(&output[..split]);
        pieces.extend(filter.take(&output[split..]));
        assert_eq!(engine_bytes(&pieces), b"abcd\x1b_Gother\x1b\\");
        let sequences = pieces
            .iter()
            .filter(|piece| matches!(piece, OutputPiece::Sequence(_)))
            .count();
        assert_eq!(sequences, 1);
    }
}

#[test]
fn prefixes_wait_for_the_rest() {
    let bytes = b"xx\x1b_rat".to_vec();
    assert!(matches!(next_rgp_candidate(&bytes, 0), RgpScan::Partial(2)));
    let bytes = b"xx\x1b_ratty;g;".to_vec();
    assert!(matches!(next_rgp_candidate(&bytes, 0), RgpScan::Complete(2)));
    let bytes = b"xx\x1b[m".to_vec();
    assert!(matches!(next_rgp_candidate(&bytes, 0), RgpScan::Absent));
    let bytes = b"ab\x1b\\cd".to_vec();
    assert_eq!(apc_end(&bytes, 0), Some(4));
    assert_eq!(apc_end(&bytes, 4), None);
}

#[test]
fn camera_operations_become_updates() {
    let number = |value: f32| Some(Number { bits: value.to_bits() });
    let mut objects = TerminalInlineObjects::new();
    let action = objects.handle_operation(RgpOperation::Camera {
        camera_slot: 4,
        switch_immediately: true,
        settings: RgpCameraSettings {
            camera_type: Some(TerminalPresentationMode::Perspective3d),
            scale: None,
            fov: number(1.0),
            offset: [None, number(2.0), None],
            rotation: [number(0.5), None, None],
        },
    });
    match action {
        InlineAction::UpdateCamera(update) => {
            assert_eq!((update.slot, update.activate), (4, true));
            assert_eq!(update.mode, Some(TerminalPresentationMode::Perspective3d));
            assert!(update.scale.is_none());
            assert_eq!(update.fov.map(|value| value.bits), Some(1.0f32.to_bits()));
            assert_eq!(update.translation.y.map(|value| value.bits), Some(2.0f32.to_bits()));
            assert!(update.translation.x.is_none() && update.translation.z.is_none());
            assert_eq!(update.rotation.x.map(|value| value.bits), Some(0.5f32.to_bits()));
        }
        other => panic!("unexpected action {other:?}"),
    }
    assert!(!objects.needs_sync(false, 0, 0));
}

fn handle(objects: &mut TerminalInlineObjects, text: &str) -> InlineAction {
    objects.handle_operation(operation(text).expect("an operation"))
}

#[test]
fn objects_are_registered_placed_and_deleted() {
    let mut objects = TerminalInlineObjects::new();
    match handle(&mut objects, "s") {
        InlineAction::Reply(bytes) => assert_eq!(bytes, support_reply()),
        other => panic!("unexpected action {other:?}"),
    }
    match handle(&mut objects, "r;id=1;fmt=obj;path=a.obj") {
        InlineAction::LoadPath { object_id, path, normalize } => {
            assert_eq!((object_id, path.as_str(), normalize), (1, "a.obj", true));
        }
        other => panic!("unexpected action {other:?}"),
    }
    assert!(matches!(handle(&mut objects, "r;id=1;fmt=png;path=a.png"), InlineAction::Done));
    // Nothing is placed that is not loaded.
    handle(&mut objects, "p;id=1;row=5;col=6;w=2;h=4");
    assert!(objects.anchor(1).is_none());
    objects.object_loaded(1);
    handle(&mut objects, "p;id=1;row=5;col=6;w=2;h=4");
    let anchor = objects.anchor(1).expect("an anchor");
    assert_eq!((anchor.row, anchor.col), (3, 5));
    assert!(objects.has_scroll_tracked_anchors());
    objects.finish_sync(80, 24);
    assert!(!objects.needs_sync(false, 80, 24));
    assert!(objects.needs_sync(true, 80, 24));
    assert!(objects.needs_sync(false, 81, 24));
    // A turn does not make the object anew, a color does.
    handle(&mut objects, "u;id=1;rx=90");
    assert!(!objects.needs_sync(false, 80, 24));
    handle(&mut objects, "u;id=1;color=ffffff");
    assert!(objects.needs_sync(false, 80, 24));
    let style = &objects.anchor(1).expect("an anchor").style;
    assert_eq!(style.numbers[6], "90");
    assert_eq!(style.color, Some([255, 255, 255]));
    handle(&mut objects, "d;id=1");
    assert!(objects.anchor(1).is_none());
}

#[test]
fn chunks_make_one_payload() {
    let mut objects = TerminalInlineObjects::new();
    assert!(matches!(
        handle(&mut objects, "r;id=2;fmt=glb;source=payload;name=rat;more=1;aGVs"),
        InlineAction::Done
    ));
    // A chunk of another format is dropped.
    assert!(matches!(
        handle(&mut objects, "r;id=2;fmt=obj;source=payload;more=0;eHg="),
        InlineAction::Done
    ));
    match handle(&mut objects, "r;id=2;fmt=glb;source=payload;bG8=") {
        InlineAction::LoadPayload { object_id, payload } => {
            assert_eq!(object_id, 2);
            assert_eq!(payload.data, b"hello");
            assert_eq!(payload.name.as_deref(), Some("rat"));
        }
        other => panic!("unexpected action {other:?}"),
    }
}

#[test]
fn anchors_scroll_with_the_text() {
    let mut objects = TerminalInlineObjects::new();
    objects.object_loaded(1);
    handle(&mut objects, "p;id=1;row=5;col=6;w=2;h=4");
    objects.apply_scroll(2);
    assert_eq!(objects.anchor(1).expect("an anchor").row, 1);
    objects.apply_scroll(4);
    assert_eq!(objects.anchor(1).expect("partly seen").row, 0);
    objects.apply_scroll(4);
    assert!(objects.anchor(1).is_none());
    assert_eq!(center_anchor(3, 9), 0);
    assert_eq!(center_anchor(10, 9), 6);
}
