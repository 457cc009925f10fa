use wove::pixels::{split, Blocks, Pixels};
use wove::testing::{diff, snapshot};
use wove::{Buffer, Canvas, Color, Element};

/// Paint the image into a frame of `width` by `height` cells.
fn show(pixels: &Pixels, width: u16, height: u16) -> Buffer {
    let mut frame = Buffer::new(width, height);
    let area = frame.area();
    let mut canvas = Canvas::new(&mut frame, (0, 0), area, (width, height), false);
    pixels.paint(&mut canvas);
    frame
}

fn assert_frame(frame: &Buffer, expected: &str) {
    if let Some(report) = diff(expected, &snapshot(frame)) {
        panic!("{report}");
    }
}

#[test]
fn half_blocks_show_two_pixels_per_cell() {
    let mut pixels = Pixels::new(3, 2);
    pixels.set(0, 0, [255, 0, 0]);
    pixels.set(1, 1, [0, 0, 255]);
    pixels.set(2, 0, [0, 255, 0]);
    pixels.set(2, 1, [0, 255, 0]);
    let frame = show(&pixels, 3, 1);
    assert_frame(&frame, "▀▀\n@cursor none\n");
    let cell = |x| frame.cell(x, 0).unwrap();
    assert_eq!(cell(0).style().fg, Color::Rgb(255, 0, 0));
    assert_eq!(cell(0).style().bg, Color::Rgb(0, 0, 0));
    assert_eq!(cell(1).style().fg, Color::Rgb(0, 0, 0));
    assert_eq!(cell(1).style().bg, Color::Rgb(0, 0, 255));
    assert_eq!(cell(2).symbol(), " ");
    assert_eq!(cell(2).style().bg, Color::Rgb(0, 255, 0));
}

#[test]
fn quadrants_and_sextants_pack_more_pixels_into_a_cell() {
    let mut quad = Pixels::new(2, 2);
    quad.blocks = Blocks::Quadrant;
    quad.set(0, 0, [255; 3]);
    quad.set(1, 1, [255; 3]);
    assert_frame(&show(&quad, 1, 1), "▚\n@cursor none\n");

    let mut sextant = Pixels::new(2, 3);
    sextant.blocks = Blocks::Sextant;
    sextant.set(0, 0, [255; 3]);
    sextant.set(1, 2, [255; 3]);
    let frame = show(&sextant, 1, 1);
    assert_eq!(frame.cell(0, 0).unwrap().symbol(), "\u{1FB1F}");
    let mut sextant = Pixels::new(2, 3);
    sextant.blocks = Blocks::Sextant;
    for y in 0..3 {
        sextant.set(0, y, [255; 3]);
    }
    assert_eq!(show(&sextant, 1, 1).cell(0, 0).unwrap().symbol(), "▌");
}

#[test]
fn a_cell_keeps_the_two_colors_that_lose_least() {
    let (red, blue, white) = ([200, 0, 0], [0, 0, 200], [255; 3]);
    let (fg, bg, bits) = split(&[red, blue, blue, white, blue, red]);
    assert_eq!((fg, bg), (red, blue));
    assert_eq!(bits & 0b100001, 0b100001);
    assert_eq!(split(&[blue; 6]), (blue, blue, 0));
    assert_eq!(split(&[]), ([0; 3], [0; 3], 0));
}

#[test]
fn the_image_measures_its_cells_and_resizes_in_place() {
    let mut pixels = Pixels::new(5, 5);
    assert_eq!(pixels.cells(), (5, 3));
    pixels.blocks = Blocks::Sextant;
    assert_eq!(pixels.cells(), (3, 2));
    pixels.set(4, 4, [1, 2, 3]);
    pixels.resize(6, 6);
    assert_eq!(pixels.get(4, 4), Some([1, 2, 3]));
    assert_eq!(pixels.get(5, 5), Some([0, 0, 0]));
    pixels.write(&[9, 8, 7, 255, 6, 5, 4, 0]);
    assert_eq!(
        (pixels.get(0, 0), pixels.get(1, 0)),
        (Some([9, 8, 7]), Some([6, 5, 4]))
    );
    let frame = show(&pixels, 2, 1);
    assert_ne!(frame.cell(0, 0).unwrap().symbol(), " ");
    assert_eq!(frame.cell(1, 0).unwrap().symbol(), " ");
}

#[test]
fn a_lone_pixel_loses_nothing() {
    assert_eq!(split(&[[7, 8, 9]]), ([7, 8, 9], [7, 8, 9], 0));
}

#[test]
fn glyphs_cover_the_lit_pixels() {
    assert_eq!(Blocks::Half.glyph(0b01), '▀');
    assert_eq!(Blocks::Half.glyph(0b10), '▄');
    assert_eq!(Blocks::Quadrant.glyph(0b1001), '▚');
    assert_eq!(Blocks::Half.per_cell(), (1, 2));
    assert_eq!(Blocks::Quadrant.per_cell(), (2, 2));
    assert_eq!(Blocks::Sextant.per_cell(), (2, 3));
}

#[test]
fn choosing_blocks_keeps_the_pixels() {
    let mut pixels = Pixels::new(2, 3);
    pixels.set(1, 2, [4, 5, 6]);
    pixels.set_blocks(Blocks::Sextant);
    assert_eq!(pixels.blocks, Blocks::Sextant);
    assert_eq!(pixels.get(1, 2), Some([4, 5, 6]));
    assert_eq!(pixels.cells(), (1, 1));
}
