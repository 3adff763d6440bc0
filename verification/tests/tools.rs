//! Recordings, debug pictures, object files, captures and the like.

use ratty::capture::{decode_input, unpad_rows, CaptureDecision, CaptureGate};
use ratty::cli::{Cli, DEFAULT_WINDOW_TITLE};
use ratty::cursor_effects::{cursor_missile, missile_hits, removal_is_due, MissileStats};
use ratty::direct_render::{frame_is_drawable, DirectTerminalSceneExchange, TerminalFrame};
use ratty::model::{
    extension_of, object_asset_path, object_format, object_source, AssetPathError, ObjectError,
    ObjectFormat, ObjectPath, ObjectSource, PathPart,
};
use ratty::number::Number;
use ratty::paths::{expand_path, expand_path_in};
use ratty::performance::{
    write_report, Completion, Frame, IncompleteRecording, RecordStep, Recording, WindowShape,
    REPORT_HEADER, REPORT_NOTE, SECOND,
};
use ratty::ratty_vt::Parser;
use ratty::rendering::{ansi_index_to_rgba, render_debug_image, CellGrid, FadeTable, Rgba};

fn n(value: f32) -> Number {
    Number { bits: value.to_bits() }
}

fn recording() -> Recording {
    Recording {
        duration: 2 * SECOND,
        warmup: SECOND,
        launched: 0,
        ready: None,
        first: 0,
        previous: None,
        samples: Vec::new(),
        finished: false,
        tracked_object: Some(7),
        resize_initial: None,
        resize_phase: None,
    }
}

fn frame(bytes: u64) -> Option<Frame> {
    Some(Frame {
        visible: true,
        measured: true,
        focused: true,
        cols: 80,
        rows: 24,
        scale: "1.5".to_string(),
        bytes,
        totals: [1, 2, 3, 4, 5, 6, 7, 8],
        resources: [9, 10, 11, 12, 13],
        placement: Some((3, 4, "45".to_string())),
        physical_size: (960, 620),
    })
}

#[test]
fn recordings_sample_after_the_warmup() {
    let mut recording = recording();
    assert_eq!(recording.record(SECOND / 2, None), RecordStep::Continue);
    assert_eq!(recording.ready, None);
    assert_eq!(recording.record(SECOND, frame(0)), RecordStep::Continue);
    assert_eq!(recording.ready, Some(SECOND));
    assert!(recording.samples.is_empty());
    recording.first = 2 * SECOND - 5;
    assert_eq!(recording.record(2 * SECOND, frame(10)), RecordStep::Continue);
    assert_eq!(recording.samples.len(), 1);
    recording.tracked_object = None;
    assert_eq!(
        recording.record(4 * SECOND + 1, frame(20)),
        RecordStep::Report { capped: false }
    );
    assert!(recording.finished);
    assert_eq!(recording.record(5 * SECOND, frame(20)), RecordStep::Continue);
    assert_eq!(recording.samples.len(), 2);

    let report = write_report("1", "2", false, Some(7), &recording.samples);
    let mut expected = REPORT_NOTE.to_string();
    expected.push_str("# warmup_seconds=1,requested_seconds=2,sample_cap_reached=false\n");
    expected.push_str("# tracked_object_id=Some(7)\n");
    expected.push_str(REPORT_HEADER);
    expected.push_str(
        "1.000000000,1.000000000,0.000000005,true,80,24,1.5,10,2.000000000,1,2,3,4,5,6,7,8,9,10,11,12,13,3,4,45,,960,620\n",
    );
    expected.push_str(
        "3.000000001,2.000000001,2.000000006,true,80,24,1.5,20,4.000000001,1,2,3,4,5,6,7,8,9,10,11,12,13,,,,,960,620\n",
    );
    assert_eq!(report, expected);
    assert!(write_report("1", "2", true, None, &Vec::new())
        .contains("sample_cap_reached=true\n# tracked_object_id=None\n"));
}

#[test]
fn recordings_end_when_they_are_overdue() {
    let mut recording = recording();
    assert_eq!(recording.record(63 * SECOND, None), RecordStep::Continue);
    assert_eq!(recording.record(63 * SECOND + 1, None), RecordStep::Overdue);
    assert!(recording.finished);
    let mut completion = Completion { written: false };
    assert_eq!(completion.check(), Err(IncompleteRecording));
    completion.report_written(true, true);
    assert_eq!(completion.check(), Err(IncompleteRecording));
    completion.report_written(true, false);
    assert_eq!(completion.check(), Ok(()));
}

#[test]
fn resize_cycles_come_from_the_start() {
    let mut recording = recording();
    let start = WindowShape { width: 960, height: 620, scale: None, font: 14 };
    assert!(recording.resize_cycle_step(9 * SECOND, start).is_none());
    recording.ready = Some(0);
    let first = recording.resize_cycle_step(SECOND, start).expect("the first phase");
    assert_eq!((first.width, first.font), (960, 14));
    assert!(recording.resize_cycle_step(SECOND + 1, start).is_none());
    let larger = recording.resize_cycle_step(3 * SECOND, start).expect("a larger font");
    assert_eq!((larger.font, larger.scale.is_none()), (16, true));
    let scaled = recording.resize_cycle_step(7 * SECOND, larger).expect("another scale");
    assert_eq!(scaled.scale.map(|scale| scale.bits), Some(1.5f32.to_bits()));
    assert_eq!(scaled.font, 14);
    let wider = recording.resize_cycle_step(11 * SECOND, scaled).expect("a larger window");
    assert_eq!((wider.width, wider.height), (1200, 775));
}

fn table() -> FadeTable {
    // Each channel mixes 55 parts of its value with 45 of the background.
    let fade = |background: u8| {
        let mut values = [0u8; 256];
        for (value, faded) in values.iter_mut().enumerate() {
            *faded = (value as f32 * 0.55 + background as f32 * (1.0 - 0.55)) as u8;
        }
        values
    };
    FadeTable { red: fade(18), green: fade(20), blue: fade(28) }
}

fn pixel(data: &[u8], width: usize, x: usize, y: usize) -> [u8; 4] {
    let at = (y * width + x) * 4;
    [data[at], data[at + 1], data[at + 2], data[at + 3]]
}

#[test]
fn indexed_colors_are_those_of_the_palette() {
    let rgba = |red: u8, green: u8, blue: u8| Rgba { red, green, blue, alpha: 255 };
    assert_eq!(ansi_index_to_rgba(1), rgba(128, 0, 0));
    assert_eq!(ansi_index_to_rgba(7), rgba(192, 192, 192));
    assert_eq!(ansi_index_to_rgba(14), rgba(0, 255, 255));
    assert_eq!(ansi_index_to_rgba(16), rgba(0, 0, 0));
    assert_eq!(ansi_index_to_rgba(231), rgba(255, 255, 255));
    assert_eq!(ansi_index_to_rgba(110), rgba(135, 175, 215));
    assert_eq!(ansi_index_to_rgba(232), rgba(8, 8, 8));
    assert_eq!(ansi_index_to_rgba(255), rgba(238, 238, 238));
}

#[test]
fn debug_pictures_show_cells_from_behind() {
    let mut parser = Parser::new(1, 2, 0);
    parser.process(b"\x1b[31;44mx\x1b[?25l");
    let (width, height) = (20u32, 10u32);
    let grid = CellGrid::new(width, height, 2, 1);
    let mut data = vec![0u8; (width * height * 4) as usize];
    render_debug_image(&mut data, &grid, parser.screen(), &table());
    let width = width as usize;
    // The first column is at the right: its outline, its background and its mark.
    assert_eq!(pixel(&data, width, 10, 0), [51, 57, 72, 255]);
    assert_eq!(pixel(&data, width, 11, 1), [0, 0, 128, 255]);
    assert_eq!(pixel(&data, width, 15, 5), [128, 0, 0, 255]);
    // The second column is empty: its background fades.
    assert_eq!(pixel(&data, width, 5, 5), [25, 26, 34, 255]);

    // The cursor gets an outline once it is shown.
    parser.process(b"\x1b[?25h");
    render_debug_image(&mut data, &grid, parser.screen(), &table());
    assert_eq!(pixel(&data, width, 0, 0), [126, 156, 216, 255]);
    assert_eq!(pixel(&data, width, 10, 0), [51, 57, 72, 255]);
}

fn path(parts: &[&str], absolute: bool, text: Option<&str>) -> ObjectPath {
    ObjectPath {
        parts: parts
            .iter()
            .map(|part| match *part {
                "/" => PathPart::Root,
                "." => PathPart::Current,
                ".." => PathPart::Parent,
                name => PathPart::Normal(name.to_string()),
            })
            .collect(),
        absolute,
        text: text.map(str::to_string),
    }
}

#[test]
fn objects_are_found_below_the_assets() {
    let found = |path: ObjectPath| object_asset_path(&path);
    assert_eq!(found(path(&["rat.obj"], false, Some("rat.obj"))), Ok("objects/rat.obj".to_string()));
    assert_eq!(
        found(path(&["a", "rat.obj"], false, Some("a\\rat.obj"))),
        Ok("a/rat.obj".to_string())
    );
    assert_eq!(
        found(path(&["/", "x", "assets", "..", "a", "b.glb"], true, Some("/x/assets/../a/b.glb"))),
        Ok("a/b.glb".to_string())
    );
    assert_eq!(
        found(path(&["/", "x", "rat.obj"], true, Some("/x/rat.obj"))),
        Err(AssetPathError::OutsideAssets)
    );
    assert_eq!(found(path(&["a", "b"], false, None)), Err(AssetPathError::NotText));
    assert_eq!(
        found(path(&["assets"], false, Some("assets"))),
        Ok("objects/assets".to_string())
    );
}

#[test]
fn objects_have_formats() {
    assert_eq!(extension_of("Rat.OBJ"), "obj");
    assert_eq!(extension_of(".obj"), "");
    assert_eq!(extension_of("a.tar.gz"), "gz");
    assert_eq!(extension_of("rat."), "");
    assert_eq!(object_format("a.glb"), ObjectFormat::Gltf);
    assert_eq!(object_format("a.gltf"), ObjectFormat::Gltf);
    assert_eq!(object_format("a.png"), ObjectFormat::Unsupported);
    assert_eq!(
        object_source(ObjectFormat::Unsupported, true, true),
        Err(ObjectError::UnsupportedFormat)
    );
    assert_eq!(
        object_source(ObjectFormat::Obj, true, false),
        Ok(ObjectSource::EmbeddedMeshes)
    );
    assert_eq!(object_source(ObjectFormat::Obj, false, true), Ok(ObjectSource::MeshFile));
    assert_eq!(object_source(ObjectFormat::Gltf, true, true), Ok(ObjectSource::Scene));
    assert_eq!(object_source(ObjectFormat::Gltf, true, false), Ok(ObjectSource::RestoredScene));
    assert_eq!(object_source(ObjectFormat::Gltf, false, false), Err(ObjectError::Missing));
}

#[test]
fn scripted_input_is_decoded() {
    assert_eq!(decode_input("a\\x1b[A\\n\\r\\t\\\\é"), "a\x1b[A\n\r\t\\é".as_bytes());
    assert_eq!(decode_input("\\q\\"), b"\\q\\");
    assert_eq!(decode_input("\\xZZ\\x4"), b"?\x04");
    assert_eq!(decode_input("\\x+5\\x"), b"\x05?");
}

#[test]
fn captures_wait_for_an_idle_terminal() {
    let mut gate = CaptureGate { idle_frames: 0 };
    assert_eq!(gate.capture_due(n(3.0), n(3.0), n(30.0)), CaptureDecision::Wait);
    for _ in 0..3 {
        gate.track_frame(0);
    }
    assert_eq!(gate.capture_due(n(2.9), n(3.0), n(30.0)), CaptureDecision::Wait);
    assert_eq!(gate.capture_due(n(3.0), n(3.0), n(30.0)), CaptureDecision::Idle);
    gate.track_frame(4);
    assert_eq!(gate.capture_due(n(29.0), n(3.0), n(30.0)), CaptureDecision::Wait);
    assert_eq!(gate.capture_due(n(30.0), n(3.0), n(30.0)), CaptureDecision::TimedOut);
    let padded: Vec<u8> = (0..20).collect();
    assert_eq!(unpad_rows(&padded, 2, 2), vec![
        0, 1, 2, 3, 4, 5, 6, 7, 10, 11, 12, 13, 14, 15, 16, 17
    ]);
}

#[test]
fn only_a_leading_tilde_is_expanded() {
    assert_eq!(expand_path("/tmp/~"), "/tmp/~");
    assert_eq!(expand_path("~other/x"), "~other/x");
    let expanded = expand_path("~/x");
    assert!(expanded.ends_with("/x"));
    assert!(expanded == "~/x" || !expanded.starts_with('~'));

    assert_eq!(expand_path_in("~/x", Some("/home/me")), "/home/me/x");
    assert_eq!(expand_path_in("~", Some("/home/me")), "/home/me");
    assert_eq!(expand_path_in("~/x", None), "~/x");
    assert_eq!(expand_path_in("~other/x", Some("/home/me")), "~other/x");
    assert_eq!(expand_path_in("", Some("/home/me")), "");
}

#[test]
fn arguments_become_options() {
    let cli = Cli {
        mcp: true,
        config_file: None,
        command: Some(vec!["ls".to_string()]),
        title: DEFAULT_WINDOW_TITLE.to_string(),
    };
    assert_eq!(cli.title, "Ratty");
    let options = cli.runtime_options(Some("/tmp".to_string()));
    assert_eq!(options.command, Some(vec!["ls".to_string()]));
    assert_eq!(options.working_dir.as_deref(), Some("/tmp"));
}

#[test]
fn missiles_pick_from_their_files() {
    let missile = cursor_missile();
    for _ in 0..50 {
        let sound = missile.get_random_sound_hit().expect("a sound");
        assert!(missile.hit_sounds.contains(sound));
        let texture = missile.get_random_texture().expect("a texture");
        assert!(missile.hit_textures.contains(texture));
        assert!(missile.spawn_sounds.contains(missile.get_random_sound_spawn().expect("one")));
    }
    let mut silent = cursor_missile();
    silent.hit_sounds.clear();
    assert!(silent.get_random_sound_hit().is_none());
    let stats = MissileStats::default();
    assert_eq!(stats.initial_speed.bits, 1000.0f32.to_bits());
    assert_eq!(stats.max_speed.bits, 19000.0f32.to_bits());
    assert_eq!(stats.hit_radius.bits, 40.0f32.to_bits());
    assert!(missile_hits(n(40.0), stats.hit_radius));
    assert!(!missile_hits(n(40.5), stats.hit_radius));
    assert!(removal_is_due(n(-0.1)) && !removal_is_due(n(0.0)));
}

#[test]
fn frames_are_exchanged_one_at_a_time() {
    let frame = |scene: &'static str| TerminalFrame { width: 4, height: 2, scene };
    let mut exchange = DirectTerminalSceneExchange::new();
    assert_eq!(exchange.take_recycled_scene(), None);
    assert_eq!(exchange.publish_frame(frame("a")), None);
    assert_eq!(exchange.publish_frame(frame("b")), Some("a"));
    exchange.recycle_scene("a");
    exchange.recycle_scene("z");
    assert_eq!(exchange.take_recycled_scene(), Some("a"));
    let mut current = Some(frame("old"));
    assert_eq!(exchange.extract_frame(&mut current), Some("old"));
    assert_eq!(current.as_ref().map(|frame| frame.scene), Some("b"));
    assert_eq!(exchange.extract_frame(&mut current), None);
    assert_eq!(current.as_ref().map(|frame| frame.scene), Some("b"));
    assert!(exchange.take_pending_frame().is_none());
    assert!(frame_is_drawable(4, 2, Some((4, 2)), Some((4, 2))));
    assert!(!frame_is_drawable(4, 2, Some((4, 2)), None));
    assert!(!frame_is_drawable(4, 2, Some((4, 3)), Some((4, 2))));
}

#[test]
fn white_space_is_that_of_the_standard_library() {
    for c in '\0'..=char::MAX {
        assert_eq!(ratty::text::is_whitespace(c), c.is_whitespace(), "{c:?}");
    }
}
