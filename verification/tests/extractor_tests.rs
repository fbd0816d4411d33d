use zsteg::extractor::{
    extract, extract_with, make_range, order_string, parse_byte_order, parse_channels_pattern,
    process_pixel, split_pattern, use_prime, use_prime_pixel, ExtractionConfig, Traversal,
};
use zsteg::bitpack::BitPacker;
use zsteg::imageio::{Image, ImgFormat};
use zsteg::opts::{BitOrder, Options, OrderSpec, PrimeSpec};

fn image(format: ImgFormat, width: u32, height: u32, pixels: Vec<u8>, raw: Vec<u8>) -> Image {
    assert_eq!(pixels.len(), (width * height * 4) as usize);
    Image {
        format,
        width,
        height,
        pixels,
        imagedata: raw,
        metadata: Vec::new(),
        chunks: Vec::new(),
        extradata: Vec::new(),
    }
}

/// Four by two pixels; the red samples end in the bits 1011 and 0010, the
/// green ones are even, the blue ones odd.
fn small() -> Image {
    let reds = [0x11u8, 0x20, 0x31, 0x41, 0x50, 0x60, 0x71, 0x80];
    let mut pixels = Vec::new();
    for r in reds {
        pixels.extend_from_slice(&[r, 0x02, 0x03, 0xFF]);
    }
    image(ImgFormat::Png, 4, 2, pixels, Vec::new())
}

/// A raw byte grid of four columns and three rows: a BMP one pixel wide.
fn grid() -> Image {
    let raw = vec![10, 11, 12, 13, 20, 21, 22, 23, 30, 31, 32, 33];
    image(ImgFormat::Bmp, 1, 3, vec![0; 12], raw)
}

fn options(order: &str, bits: u16, channels: Option<&str>) -> Options {
    let mut o = Options::default();
    o.order = OrderSpec::Explicit(vec![order.to_string()]);
    o.bits = Some(vec![bits]);
    o.channels = channels.map(|c| vec![c.to_string()]);
    o.limit = 0;
    o
}

fn run(image: &Image, o: &Options) -> Vec<u8> {
    let mut title = String::new();
    extract(image, o, &mut title)
}

#[test]
fn byte_walk_row_major() {
    let out = run(&grid(), &options("by", 8, None));
    assert_eq!(out, vec![10, 11, 12, 13, 20, 21, 22, 23, 30, 31, 32, 33]);
}

#[test]
fn byte_walk_column_major() {
    let out = run(&grid(), &options("yb", 8, None));
    assert_eq!(out, vec![10, 20, 30, 11, 21, 31, 12, 22, 32, 13, 23, 33]);
}

#[test]
fn byte_walk_directions() {
    assert_eq!(
        run(&grid(), &options("bY", 8, None)),
        vec![30, 31, 32, 33, 20, 21, 22, 23, 10, 11, 12, 13]
    );
    assert_eq!(
        run(&grid(), &options("BY", 8, None)),
        vec![33, 32, 31, 30, 23, 22, 21, 20, 13, 12, 11, 10]
    );
    assert_eq!(
        run(&grid(), &options("By", 8, None)),
        vec![13, 12, 11, 10, 23, 22, 21, 20, 33, 32, 31, 30]
    );
    assert_eq!(
        run(&grid(), &options("Yb", 8, None)),
        vec![30, 20, 10, 31, 21, 11, 32, 22, 12, 33, 23, 13]
    );
}

#[test]
fn byte_walk_stops_where_the_data_ends() {
    let mut g = grid();
    g.imagedata.truncate(6);
    assert_eq!(run(&g, &options("by", 8, None)), vec![10, 11, 12, 13, 20, 21]);
    assert_eq!(run(&g, &options("yb", 8, None)), vec![10, 20]);
}

#[test]
fn byte_walk_prime_filter_goes_by_the_running_index() {
    let mut o = options("by", 8, None);
    o.prime = PrimeSpec::Only;
    assert_eq!(run(&grid(), &o), vec![12, 13, 21, 23, 33]);
    let mut o = options("yb", 8, None);
    o.prime = PrimeSpec::Only;
    // Cells 2, 3, 5, 7 and 11 of the column-major walk.
    assert_eq!(run(&grid(), &o), vec![30, 11, 31, 22, 33]);
}

#[test]
fn byte_walk_honours_the_limit() {
    let mut o = options("by", 8, None);
    o.limit = 5;
    assert_eq!(run(&grid(), &o), vec![10, 11, 12, 13, 20]);
    let mut o = options("by", 4, None);
    o.limit = 2;
    // Two samples make a byte: the low nibbles of 10, 11, 12 and 13.
    assert_eq!(run(&grid(), &o), vec![0xAB, 0xCD]);
}

#[test]
fn byte_walk_of_png_counts_the_filter_byte() {
    // One pixel wide: five bytes a row.
    let raw = vec![0, 1, 2, 3, 4, 0, 5, 6, 7, 8];
    let img = image(ImgFormat::Png, 1, 2, vec![0; 8], raw);
    assert_eq!(run(&img, &options("yb", 8, None)), vec![0, 0, 1, 5, 2, 6, 3, 7, 4, 8]);
}

#[test]
fn pixel_walk_row_major() {
    assert_eq!(run(&small(), &options("xy", 1, Some("r"))), vec![0xB2]);
    let mut o = options("xy", 1, Some("r"));
    o.bit_order = Some(BitOrder::Msb);
    assert_eq!(run(&small(), &o), vec![0x4D]);
}

#[test]
fn pixel_walk_column_major() {
    assert_eq!(run(&small(), &options("yx", 1, Some("r"))), vec![0x8E]);
    assert_eq!(run(&small(), &options("YX", 1, Some("r"))), vec![0x8E]);
}

#[test]
fn pixel_walk_takes_the_channels_in_order() {
    assert_eq!(run(&small(), &options("xy", 1, Some("rgb"))), vec![0xA6, 0xD2, 0x69]);
    // Blue first, then green, then red: (1, 0, r) for every pixel.
    assert_eq!(run(&small(), &options("xy", 1, Some("bgr"))), vec![0xB2, 0xD9, 0x2C]);
    assert_eq!(
        run(&small(), &options("xy", 8, Some("a"))),
        vec![0xFF, 0xFF, 0xFF, 0xFF, 0xFF, 0xFF, 0xFF, 0xFF]
    );
}

#[test]
fn pixel_walk_defaults() {
    let o = Options { limit: 0, ..Options::default() };
    let mut title = String::new();
    let out = extract(&small(), &o, &mut title);
    assert_eq!(out, vec![0xA6, 0xD2, 0x69]);
    assert_eq!(title, "b1,rgb,lsb,auto");
}

#[test]
fn pixel_walk_stops_at_the_limit() {
    let mut o = options("xy", 1, Some("rgb"));
    o.limit = 1;
    assert_eq!(run(&small(), &o), vec![0xA6]);
    let mut o = options("xy", 8, Some("rgb"));
    o.limit = 2;
    // A pixel gives three bytes, so the walk stops behind the first.
    assert_eq!(run(&small(), &o), vec![0x11, 0x02, 0x03]);
}

#[test]
fn pixel_walk_prime_filter_goes_by_the_position() {
    let mut o = options("xy", 8, Some("r"));
    o.prime = PrimeSpec::Only;
    // Positions 2 and 3 of the first row and 1000003 at the start of the second.
    let mut title = String::new();
    assert_eq!(extract(&small(), &o, &mut title), vec![0x31, 0x41, 0x50]);
    assert_eq!(title, "b8,r,lsb,xy,prime");
    o.prime = PrimeSpec::All;
    assert_eq!(extract(&small(), &o, &mut title).len(), 8);
    assert_eq!(title, "b8,r,lsb,xy");
}

#[test]
fn tagged_channels_have_their_own_widths() {
    // Two bits of red, one of blue for every pixel.
    let o = options("xy", 7, Some("r2b1"));
    // The low pairs of red are 01 00 01 01 00 00 01 00, the blue bit is 1.
    assert_eq!(run(&small(), &o), vec![0x65, 0xB2, 0x59]);
}

#[test]
fn several_widths_are_fed_one_behind_the_other() {
    let mut o = options("xy", 1, Some("r"));
    o.bits = Some(vec![1, 2]);
    let mut title = String::new();
    let out = extract(&small(), &o, &mut title);
    // For every pixel the low bit of red, then its two low bits.
    assert_eq!(out, vec![0xA2, 0xD0, 0x28]);
    assert_eq!(title, "b1/2,r,lsb,xy");
}

#[test]
fn shift_and_invert_come_last() {
    let mut o = options("by", 8, None);
    o.limit = 2;
    o.invert = true;
    assert_eq!(run(&grid(), &o), vec![!10u8, !11u8]);
    let mut o = options("by", 8, None);
    o.limit = 2;
    o.shift = Some(4);
    // [0x0A, 0x0B] behind four zero bits.
    assert_eq!(run(&grid(), &o), vec![0x00, 0xA0]);
    o.shift = Some(16);
    assert_eq!(run(&grid(), &o), vec![10, 11]);
    o.shift = Some(0);
    assert_eq!(run(&grid(), &o), vec![10, 11]);
}

#[test]
fn extraction_is_deterministic() {
    let o = options("xy", 2, Some("rgb"));
    let mut t1 = String::new();
    let mut t2 = String::new();
    let a = extract(&small(), &o, &mut t1);
    let b = extract(&small(), &o, &mut t2);
    assert_eq!(a, b);
    assert_eq!(t1, t2);
    assert_eq!(t1, "b2,rgb,lsb,xy");
}

#[test]
fn empty_image_gives_nothing() {
    let img = image(ImgFormat::Png, 0, 0, Vec::new(), Vec::new());
    assert_eq!(run(&img, &options("xy", 1, Some("rgb"))), Vec::<u8>::new());
    assert_eq!(run(&img, &options("by", 8, None)), Vec::<u8>::new());
}

#[test]
fn labels_name_the_order() {
    let mut o = Options::default();
    assert_eq!(order_string(&o), "auto");
    o.order = OrderSpec::All;
    assert_eq!(order_string(&o), "ALL");
    o.order = OrderSpec::Explicit(vec!["XY".to_string()]);
    assert_eq!(order_string(&o), "xy");
    o.order = OrderSpec::Explicit(vec!["bY".to_string(), "Yx".to_string()]);
    assert_eq!(order_string(&o), "yx");
    o.order = OrderSpec::Explicit(vec!["xy".to_string(), "Yb".to_string()]);
    assert_eq!(order_string(&o), "Yb");
    let mut title = String::new();
    o.bit_order = Some(BitOrder::Msb);
    o.bits = Some(vec![0x188]);
    extract(&grid(), &o, &mut title);
    assert_eq!(title, "b392,rgb,msb,Yb");
}

#[test]
fn channel_patterns() {
    assert_eq!(parse_channels_pattern("rgb"), (vec!['r', 'g', 'b'], vec![]));
    assert_eq!(parse_channels_pattern("r3g2b3"), (vec!['r', 'g', 'b'], vec![3, 2, 3]));
    assert_eq!(parse_channels_pattern("bgra"), (vec!['b', 'g', 'r', 'a'], vec![]));
    assert_eq!(parse_channels_pattern("r3g"), (vec!['r', '3', 'g'], vec![]));
    assert_eq!(parse_channels_pattern(""), (vec![], vec![]));
    assert_eq!(parse_channels_pattern("a9"), (vec!['a'], vec![9]));
}

#[test]
fn byte_orders() {
    let g = grid();
    assert_eq!(parse_byte_order("by", &g), (0, 3, 1, 0, 2, 1));
    assert_eq!(parse_byte_order("bY", &g), (0, 3, 1, 2, 0, 1));
    assert_eq!(parse_byte_order("BY", &g), (3, 0, 1, 2, 0, 1));
    assert_eq!(parse_byte_order("YB", &g), (3, 0, 1, 2, 0, 1));
    assert_eq!(parse_byte_order("b", &g), (0, 3, 1, 0, 2, 1));
}

#[test]
fn ranges() {
    let up = make_range(2, 9, 3);
    assert_eq!(up.count(), 3);
    assert_eq!((up.at(0), up.at(1), up.at(2)), (2, 5, 8));
    let down = make_range(9, 2, 3);
    assert_eq!(down.count(), 3);
    assert_eq!((down.at(0), down.at(1), down.at(2)), (9, 6, 3));
    let one = make_range(4, 4, 1);
    assert_eq!(one.count(), 1);
    assert_eq!(one.at(0), 4);
}

#[test]
fn prime_filters() {
    assert!(use_prime(4, false));
    assert!(!use_prime(4, true));
    assert!(use_prime(5, true));
    assert!(use_prime_pixel(1, 0, true));
    assert!(!use_prime_pixel(1, 1, true));
    assert!(use_prime_pixel(1, 1, false));
}

#[test]
fn a_pixel_that_is_left_out_adds_nothing() {
    let img = small();
    let mut p = BitPacker::new(BitOrder::Lsb);
    process_pixel(0, &img.pixels, &vec!['r'], &vec![], &vec![8], &mut p, false);
    assert_eq!(p.len(), 0);
    process_pixel(4, &img.pixels, &vec!['r', 'x'], &vec![], &vec![8], &mut p, true);
    assert_eq!(p.into_bytes(), vec![0x20, 0x00]);
}

#[test]
fn options_are_resolved_to_a_configuration() {
    let cfg = ExtractionConfig::from_options(&Options::default());
    assert_eq!(cfg.traversal, Traversal::Rows);
    assert_eq!(cfg.channels, vec!['r', 'g', 'b']);
    assert!(cfg.per_channel.is_empty());
    assert_eq!(cfg.widths, vec![1]);
    assert_eq!(cfg.bit_order, BitOrder::Lsb);
    assert!(!cfg.prime_only);
    assert_eq!(cfg.limit, 256);
    assert_eq!(cfg.shift, 0);
    assert!(!cfg.invert);

    let mut o = options("Xy", 3, Some("r2g1"));
    o.order = OrderSpec::Explicit(vec!["Xy".to_string(), "bY".to_string(), "yx".to_string()]);
    o.channels = Some(vec!["r2".to_string(), "g1".to_string()]);
    o.shift = Some(13);
    o.invert = true;
    o.prime = PrimeSpec::Only;
    o.bit_order = Some(BitOrder::Msb);
    let cfg = ExtractionConfig::from_options(&o);
    assert_eq!(cfg.traversal, Traversal::Bytes("bY".to_string()));
    assert_eq!(cfg.channels, vec!['r', 'g']);
    assert_eq!(cfg.per_channel, vec![2, 1]);
    assert_eq!(cfg.widths, vec![3]);
    assert_eq!(cfg.shift, 5);
    assert!(cfg.invert && cfg.prime_only);
    assert_eq!(cfg.bit_order, BitOrder::Msb);

    o.order = OrderSpec::Explicit(vec!["xy".to_string(), "YX".to_string()]);
    assert_eq!(ExtractionConfig::from_options(&o).traversal, Traversal::Columns);
    o.order = OrderSpec::All;
    assert_eq!(ExtractionConfig::from_options(&o).traversal, Traversal::Rows);
}

#[test]
fn a_configuration_is_run_as_it_stands() {
    let cfg = ExtractionConfig {
        traversal: Traversal::Columns,
        channels: vec!['r'],
        per_channel: Vec::new(),
        widths: vec![1],
        bit_order: BitOrder::Lsb,
        prime_only: false,
        limit: 0,
        shift: 0,
        invert: true,
    };
    assert_eq!(extract_with(&small(), &cfg), vec![!0x8Eu8]);
    assert_eq!(split_pattern(vec!['g', '4']), (vec!['g'], vec![4]));
    assert_eq!(split_pattern(vec!['g', 'x']), (vec!['g', 'x'], vec![]));
}
