//! Images and their placements.

use ratty::kitty::{
    cells_hold_images, direct_placement_view, in_view, placeholder_bounds, rasterize,
    top_of_viewport, virtual_placement_views, virtual_source, ColorType, DirectPlacement, GraphicData,
    KittyGraphics, KittyPlacementView, PendingImage, PlacementKey, ShownPart, VirtualPlacement,
};
use ratty::number::Number;
use ratty::ratty_vt::Parser;

fn n(value: f32) -> Number {
    Number { bits: value.to_bits() }
}

const CELL_WIDTH: usize = 10;
const CELL_HEIGHT: usize = 20;

fn placement(image_id: u32) -> DirectPlacement {
    DirectPlacement {
        image_id,
        placement_id: 1,
        source_x: 0,
        source_y: 0,
        source_width: 0,
        source_height: 0,
        requested_columns: 0,
        requested_rows: 0,
        dest_row: 1,
        dest_col: 2,
        z_index: 0,
    }
}

fn view(image_id: u32, placement_id: u32, z: i32) -> KittyPlacementView {
    KittyPlacementView {
        image_id,
        placement_id,
        row: n(1.0),
        col: n(2.0),
        columns: n(2.0),
        rows: n(2.0),
        source_rect: [n(0.0), n(0.0), n(1.0), n(1.0)],
        z,
    }
}

fn image(image_id: u32, transmit_time: u64, width: usize, height: usize) -> PendingImage {
    PendingImage {
        image_id,
        transmit_time,
        data: GraphicData {
            width,
            height,
            color_type: ColorType::Rgba,
            pixels: vec![255; width * height * 4],
        },
    }
}

#[test]
fn rgb_payloads_expand_to_rgba() {
    let data =
        GraphicData { width: 1, height: 1, color_type: ColorType::Rgb, pixels: vec![9, 8, 7] };
    assert_eq!(rasterize(data).expect("decoded image").rgba, vec![9, 8, 7, 255]);
    let data = GraphicData {
        width: 2,
        height: 1,
        color_type: ColorType::Rgb,
        pixels: vec![1, 2, 3, 4, 5, 6],
    };
    assert_eq!(rasterize(data).expect("decoded image").rgba, vec![1, 2, 3, 255, 4, 5, 6, 255]);
    let short =
        GraphicData { width: 2, height: 1, color_type: ColorType::Rgba, pixels: vec![0; 7] };
    assert!(rasterize(short).is_none());
}

#[test]
fn placements_land_where_they_were_put() {
    let view = direct_placement_view(&placement(7), 20, 40, CELL_WIDTH, CELL_HEIGHT, 0)
        .expect("a placement");
    assert_eq!((view.image_id, view.row, view.col), (7, 1, 2));
    assert_eq!((view.display_width, view.display_height), (20, 40));
    assert_eq!((view.source_x, view.source_y, view.source_width, view.source_height), (
        0, 0, 20, 40
    ));
    assert!(direct_placement_view(&placement(7), 0, 40, CELL_WIDTH, CELL_HEIGHT, 0).is_none());

    // Scrolling moves the view, not the placement.
    let top = top_of_viewport(3, 5, 2);
    assert_eq!(top, 6);
    let view = direct_placement_view(&placement(7), 20, 40, CELL_WIDTH, CELL_HEIGHT, top)
        .expect("a placement");
    assert_eq!(view.row, -5);
    assert!(in_view(n(-1.0), n(1.0), n(3.0)));
    assert!(!in_view(n(-2.0), n(0.0), n(3.0)));
    assert!(!in_view(n(3.0), n(4.0), n(3.0)));
    assert!(cells_hold_images(n(10.0), n(20.0)));
    assert!(!cells_hold_images(n(10.0), n(0.5)));
}

#[test]
fn source_crops_resolve_to_normalized_rects() {
    // Show only the right half of a 2-cell-wide image.
    let cropped = DirectPlacement {
        source_x: CELL_WIDTH as u32,
        source_width: CELL_WIDTH as u32,
        ..placement(11)
    };
    let width = 2 * CELL_WIDTH;
    let view = direct_placement_view(&cropped, width, CELL_HEIGHT, CELL_WIDTH, CELL_HEIGHT, 0)
        .expect("a placement");
    let rect = [
        view.source_x as f32 / width as f32,
        view.source_y as f32 / CELL_HEIGHT as f32,
        (view.source_x + view.source_width) as f32 / width as f32,
        (view.source_y + view.source_height) as f32 / CELL_HEIGHT as f32,
    ];
    assert_eq!(rect, [0.5, 0.0, 1.0, 1.0]);
    assert_eq!(view.display_width as f32 / CELL_WIDTH as f32, 1.0);

    let outside = DirectPlacement { source_x: 20, ..placement(11) };
    assert!(direct_placement_view(&outside, 20, 20, CELL_WIDTH, CELL_HEIGHT, 0).is_none());
}

#[test]
fn placements_take_the_cells_they_ask_for() {
    let wide = DirectPlacement { requested_columns: 4, ..placement(1) };
    let view =
        direct_placement_view(&wide, 20, 40, CELL_WIDTH, CELL_HEIGHT, 0).expect("a placement");
    assert_eq!((view.display_width, view.display_height), (40, 80));
    let boxed = DirectPlacement { requested_columns: 4, requested_rows: 1, ..placement(1) };
    let view =
        direct_placement_view(&boxed, 20, 40, CELL_WIDTH, CELL_HEIGHT, 0).expect("a placement");
    assert_eq!((view.display_width, view.display_height), (40, 20));
}

fn virtual_placement(image_id: u32, placement_id: u32) -> VirtualPlacement {
    VirtualPlacement {
        key: PlacementKey { image_id, placement_id },
        x: 2,
        y: 3,
        width: 4,
        height: 0,
        image: Some((10, 20)),
    }
}

#[test]
fn virtual_placements_show_the_part_that_they_ask_for() {
    let placement = virtual_placement(42, 9);
    let part = |x, y, width, height| ShownPart::Part { x, y, width, height };
    assert_eq!(virtual_source(&placement), part(2, 3, 4, 17));
    let mut wide = placement;
    wide.width = 100;
    wide.height = 5;
    assert_eq!(virtual_source(&wide), part(2, 3, 8, 5));
    let mut outside = placement;
    outside.x = 10;
    assert_eq!(virtual_source(&outside), ShownPart::Whole);
    let mut empty = placement;
    empty.image = Some((0, 20));
    assert_eq!(virtual_source(&empty), ShownPart::Whole);
    let mut missing = placement;
    missing.image = None;
    assert_eq!(virtual_source(&missing), ShownPart::Whole);

    let mut parser = Parser::new(5, 20, 1000);
    parser.process("\x1b[38;2;0;0;42m\u{10EEEE}".as_bytes());
    let views = virtual_placement_views(parser.screen(), &vec![placement]);
    assert_eq!(views[0].source, part(2, 3, 4, 17));
}

#[test]
fn virtual_placements_follow_their_placeholder_cells() {
    let mut parser = Parser::new(5, 20, 1000);
    let keys = vec![virtual_placement(42, 9)];
    assert!(
        virtual_placement_views(parser.screen(), &keys).is_empty(),
        "a virtual placement must not draw before placeholders exist"
    );

    // The application prints the placeholder cells itself, image id in the foreground
    // color and row/column in combining diacritics.
    parser.process("\x1b[3;4H\x1b[38;2;0;0;42m".as_bytes());
    parser.process("\u{10EEEE}\u{305}\u{305}".as_bytes());
    parser.process("\u{10EEEE}\u{305}\u{30d}".as_bytes());
    parser.process(b"\x1b[m");

    let views = virtual_placement_views(parser.screen(), &keys);
    assert_eq!(views.len(), 1);
    let bounds = views[0].bounds;
    assert_eq!(views[0].key.image_id, 42);
    assert_eq!((bounds.top, bounds.left), (2, 3));
    assert_eq!((bounds.right - bounds.left + 1, bounds.bottom - bounds.top + 1), (2, 1));
    assert!(placeholder_bounds(parser.screen(), 41).is_none());

    // Only the low bytes of a number fit in a color; the last placement counts.
    let twins = vec![
        virtual_placement(42, 1),
        virtual_placement(0x0100_002a, 2),
    ];
    let views = virtual_placement_views(parser.screen(), &twins);
    assert_eq!(views.len(), 1);
    assert_eq!(views[0].key.placement_id, 2);

    // Erasing the text takes the image away.
    parser.process(b"\x1b[2J");
    assert!(virtual_placement_views(parser.screen(), &keys).is_empty());
}

#[test]
fn images_are_kept_while_they_live() {
    let mut kitty = KittyGraphics::new();
    assert!(kitty.refresh(&vec![], vec![image(4, 1, 2, 2)], &vec![4], &vec![view(4, 1, 0)]));
    assert_eq!(kitty.placements().len(), 1);
    assert_eq!(kitty.image(4).expect("decoded image").raster.rgba.len(), 16);
    // The same pixels again, and an unchanged frame, change nothing.
    assert!(!kitty.refresh(&vec![], vec![image(4, 1, 3, 3)], &vec![4], &vec![view(4, 1, 0)]));
    assert_eq!(kitty.image(4).expect("decoded image").raster.width, 2);
    // A retransmission replaces them.
    assert!(kitty.refresh(&vec![], vec![image(4, 2, 3, 3)], &vec![4], &vec![view(4, 1, 0)]));
    assert_eq!(kitty.image(4).expect("decoded image").raster.width, 3);
    // Keys beyond the numbers of images are not for images.
    assert!(!kitty.refresh(&vec![0x1_0000_0004], vec![], &vec![4], &vec![view(4, 1, 0)]));
    assert!(kitty.refresh(&vec![4], vec![], &vec![4], &vec![view(4, 1, 0)]));
    assert!(kitty.image(4).is_none());
}

#[test]
fn delete_all_drops_placements_and_image_data() {
    let mut kitty = KittyGraphics::new();
    kitty.refresh(&vec![], vec![image(4, 1, 10, 20)], &vec![4], &vec![view(4, 1, 0)]);
    assert_eq!(kitty.placements().len(), 1);

    assert!(kitty.refresh(&vec![], vec![], &vec![], &vec![]));
    assert!(kitty.placements().is_empty());
    assert!(kitty.image(4).is_none(), "deleted image data must not keep a texture alive");
}

#[test]
fn placements_are_drawn_back_to_front() {
    let mut kitty = KittyGraphics::new();
    let views = vec![view(3, 1, 2), view(2, 5, 0), view(2, 1, 0), view(9, 1, -1)];
    assert!(kitty.refresh(&vec![], vec![], &vec![], &views));
    let order: Vec<(u32, u32)> =
        kitty.placements().iter().map(|view| (view.image_id, view.placement_id)).collect();
    assert_eq!(order, vec![(9, 1), (2, 1), (2, 5), (3, 1)]);
    assert!(!kitty.refresh(&vec![], vec![], &vec![], &views));
}
