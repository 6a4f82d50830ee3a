use musimanager::image::block::{block_ops, get_color_from_pixel, write_character, BlockOp, CellColor, HalfBlock, Rgba8};
use musimanager::image::config::{Config, HorizontalAlignment};
use musimanager::image::decode::{decode_image, from_rows, resize_rows};
use musimanager::image::handler::{fit_rows, ImageData, ImageError, ImageHandler, UnprocessedImage};
use musimanager::image::printer::{Printer, PrinterChooser, PrinterKind};
use musimanager::image::sixel::{check_sixel_support, device_attrs_support, SixelSupport};

fn px(r: u8, a: u8) -> Rgba8 {
    Rgba8 { r, g: 0, b: 0, a }
}

#[test]
fn palette_colour_comes_from_ansi_colours() {
    let p = Rgba8 { r: 95, g: 135, b: 175, a: 255 };
    assert_eq!(get_color_from_pixel(p, false), CellColor::Ansi256(67));
    assert_eq!(get_color_from_pixel(p, true), CellColor::Rgb(95, 135, 175));
    let white = Rgba8 { r: 255, g: 255, b: 255, a: 255 };
    assert_eq!(get_color_from_pixel(white, false), CellColor::Ansi256(231));
}

#[test]
fn cells_are_chosen_by_which_halves_have_colour() {
    let c = CellColor::Rgb(1, 2, 3);
    let d = CellColor::Rgb(4, 5, 6);
    assert_eq!(write_character(None, None, false), BlockOp::MoveRight(1));
    assert_eq!(write_character(Some(c), None, false), BlockOp::Glyph { fg: c, bg: None, block: HalfBlock::Upper });
    assert_eq!(write_character(None, Some(d), false), BlockOp::Glyph { fg: d, bg: None, block: HalfBlock::Lower });
    assert_eq!(write_character(Some(c), Some(d), false), BlockOp::Glyph { fg: d, bg: Some(c), block: HalfBlock::Lower });
    assert_eq!(write_character(Some(c), Some(d), true), BlockOp::Glyph { fg: c, bg: None, block: HalfBlock::Upper });
    assert_eq!(write_character(None, Some(d), true), BlockOp::MoveRight(1));
}

#[test]
fn image_of_three_rows_prints_a_pair_then_a_lone_row() {
    let rows = vec![vec![px(1, 255), px(2, 0)], vec![px(3, 255), px(4, 255)], vec![px(5, 255), px(6, 0)]];
    let ops = block_ops(&rows, true, 2, 7);
    let rgb = |r: u8| CellColor::Rgb(r, 0, 0);
    assert_eq!(
        ops,
        vec![
            BlockOp::MoveTo(0, 7),
            BlockOp::MoveRight(2),
            BlockOp::Glyph { fg: rgb(3), bg: Some(rgb(1)), block: HalfBlock::Lower },
            BlockOp::Glyph { fg: rgb(4), bg: None, block: HalfBlock::Lower },
            BlockOp::Reset,
            BlockOp::NewLine,
            BlockOp::MoveRight(2),
            BlockOp::Glyph { fg: rgb(5), bg: None, block: HalfBlock::Upper },
            BlockOp::MoveRight(1),
            BlockOp::Reset,
            BlockOp::FinalNewLine,
        ]
    );
    assert_eq!(block_ops(&vec![], false, 0, 0), vec![BlockOp::MoveTo(0, 0), BlockOp::Reset, BlockOp::FinalNewLine]);
}

#[test]
fn wide_image_is_cut_to_its_middle_square() {
    let row: Vec<Rgba8> = (0..6).map(|i| px(i, 255)).collect();
    let mut img = UnprocessedImage::Image(ImageData { rows: vec![row.clone(), row] });
    assert!(!img.needs_preparing());
    assert_eq!(img.prepare_image(), Ok(()));
    match img {
        UnprocessedImage::Image(d) => {
            assert_eq!(d.rows.len(), 2);
            assert_eq!(d.rows[0], vec![px(2, 255), px(3, 255)]);
        },
        _ => panic!("image expected"),
    }
    assert!(UnprocessedImage::Url("u".to_string()).needs_preparing());
}

#[test]
fn handler_prints_again_when_its_space_changes() {
    let mut h = ImageHandler::default();
    assert!(h.config.restore_cursor);
    assert_eq!(h.config.printer_chooser, PrinterChooser::Default);
    assert_eq!(h.config.alignment.horizontal(), HorizontalAlignment::Center);
    assert!(!h.needs_printer());
    h.set_image(UnprocessedImage::Image(ImageData { rows: vec![vec![px(1, 255)]] }));
    assert!(h.needs_printer());
    h.set_offset(3, 4);
    h.set_size(Some(10), None);
    let mut p = Printer::default();
    if let UnprocessedImage::Image(d) = &h.unprocessed_image {
        p.new_from_img(&d.rows, &h.config, true);
    }
    assert_eq!(p.ops[0], BlockOp::MoveTo(0, 4));
    h.install_printer(p);
    assert!(!h.needs_printer());
    h.dimensions_changed();
    assert!(h.needs_printer());
    h.clear_image();
    assert!(h.printer.ops.is_empty());
}

#[test]
fn printers_are_chosen_by_the_chooser() {
    assert_eq!(PrinterChooser::Default.printer(false), PrinterKind::Block { truecolor: false });
    assert_eq!(PrinterChooser::Ansi256.printer(true), PrinterKind::Block { truecolor: false });
    assert_eq!(PrinterChooser::NoPrinter.printer(true), PrinterKind::Nothing);
    assert_eq!(Config::default().printer_chooser, PrinterChooser::NoPrinter);
}

#[test]
fn sixel_support_by_terminal() {
    assert_eq!(check_sixel_support(Some("foot".to_string()), None), SixelSupport::Supported);
    assert_eq!(check_sixel_support(Some("xterm-256color".to_string()), None), SixelSupport::AskTerminal);
    assert_eq!(check_sixel_support(Some("alacritty".to_string()), Some("MacTerm".to_string())), SixelSupport::Supported);
    assert_eq!(check_sixel_support(Some("alacritty".to_string()), None), SixelSupport::Unsupported);
    assert_eq!(check_sixel_support(None, Some("MacTerm".to_string())), SixelSupport::Unsupported);
    assert!(device_attrs_support("\x1b[?62;4;9;22c"));
    assert!(device_attrs_support("\x1b[?63;1;4c"));
    assert!(!device_attrs_support("\x1b[?62;9;22c"));
}

fn png_of(w: u32, h: u32, f: impl Fn(u32, u32) -> [u8; 4]) -> Vec<u8> {
    let buf = image::RgbaImage::from_fn(w, h, |x, y| image::Rgba(f(x, y)));
    let mut bytes: Vec<u8> = Vec::new();
    image::DynamicImage::ImageRgba8(buf)
        .write_to(&mut std::io::Cursor::new(&mut bytes), image::ImageOutputFormat::Png)
        .unwrap();
    bytes
}

#[test]
fn encoded_bytes_are_decoded_and_cut_square() {
    let bytes = png_of(3, 1, |x, _| [x as u8 * 10, 0, 0, 255]);
    let mut img = UnprocessedImage::Encoded(bytes);
    assert_eq!(img.prepare_image(), Ok(()));
    match img {
        UnprocessedImage::Image(d) => {
            assert_eq!(d.rows.len(), 1);
            assert_eq!(d.rows[0], vec![Rgba8 { r: 10, g: 0, b: 0, a: 255 }]);
        },
        _ => panic!("image expected"),
    }
}

#[test]
fn bytes_that_are_no_image_are_refused() {
    let mut img = UnprocessedImage::Encoded(vec![1, 2, 3]);
    assert_eq!(img.prepare_image(), Err(ImageError::Undecodable));
    assert!(matches!(img, UnprocessedImage::Encoded(_)));
}

#[test]
fn decoding_and_resizing_give_the_sizes_asked_for() {
    let bytes = png_of(2, 3, |x, y| [x as u8, y as u8, 0, 255]);
    let d = decode_image(&bytes).expect("an image");
    assert_eq!((d.width, d.height, d.pixels.len()), (2, 3, 24));
    let rows = d.to_rows();
    assert_eq!(rows[2][1], Rgba8 { r: 1, g: 2, b: 0, a: 255 });
    let r = resize_rows(&d, 4, 2);
    assert_eq!((r.width, r.height, r.pixels.len()), (4, 2, 32));
    let back = from_rows(&rows);
    assert_eq!(back.pixels, d.pixels);
    let fitted = fit_rows(&rows, 5, 1);
    assert_eq!(fitted.len(), 1);
    assert_eq!(fitted[0].len(), 5);
}

#[test]
fn the_handler_rebuilds_its_printer_when_the_space_changed() {
    let mut h = ImageHandler::default();
    h.set_offset(2, 3);
    assert!(!h.prepare_image(4, 4, true));
    h.set_image(UnprocessedImage::Image(ImageData { rows: vec![vec![px(1, 255)]] }));
    assert!(h.prepare_image(2, 2, true));
    assert!(!h.needs_printer());
    assert_eq!(h.printer.ops[0], BlockOp::MoveTo(0, 3));
    assert!(!h.prepare_image(2, 2, true));
}
