use std::io::Cursor;
use std::io::Write;
use zsteg::imageio::{
    check_fit, parse_png_itxt, parse_png_text, parse_png_ztxt, read_bmp_pixel_data, read_chunks,
    Image, ImgFormat, LoadError,
};

fn deflate(text: &[u8]) -> Vec<u8> {
    let mut encoder = flate2::write::ZlibEncoder::new(Vec::new(), flate2::Compression::default());
    encoder.write_all(text).unwrap();
    encoder.finish().unwrap()
}

fn png_2x2() -> (Vec<u8>, Vec<u8>) {
    let pixels: Vec<u8> = vec![
        10, 20, 30, 255, 40, 50, 60, 255, //
        70, 80, 90, 128, 100, 110, 120, 0,
    ];
    let img = image::RgbaImage::from_raw(2, 2, pixels.clone()).unwrap();
    let mut out = Cursor::new(Vec::new());
    image::DynamicImage::ImageRgba8(img).write_to(&mut out, image::ImageFormat::Png).unwrap();
    (out.into_inner(), pixels)
}

fn bmp_3x2() -> (Vec<u8>, Vec<u8>) {
    let pixels: Vec<u8> = vec![
        1, 2, 3, 4, 5, 6, 7, 8, 9, //
        11, 12, 13, 14, 15, 16, 17, 18, 19,
    ];
    let img = image::RgbImage::from_raw(3, 2, pixels.clone()).unwrap();
    let mut out = Cursor::new(Vec::new());
    image::DynamicImage::ImageRgb8(img).write_to(&mut out, image::ImageFormat::Bmp).unwrap();
    (out.into_inner(), pixels)
}

fn chunk(ty: &[u8; 4], data: &[u8]) -> Vec<u8> {
    let mut out = (data.len() as u32).to_be_bytes().to_vec();
    out.extend_from_slice(ty);
    out.extend_from_slice(data);
    out.extend_from_slice(&[0, 0, 0, 0]);
    out
}

#[test]
fn png_is_taken_apart() {
    let (file, pixels) = png_2x2();
    let image = Image::load("png", &file).unwrap();
    assert_eq!(image.format, ImgFormat::Png);
    assert_eq!((image.width, image.height), (2, 2));
    assert_eq!(image.pixels, pixels);
    // Two rows of a filter byte and eight bytes of pixels.
    assert_eq!(image.imagedata.len(), 18);
    let types: Vec<&[u8; 4]> = image.chunks.iter().map(|c| &c.ty).collect();
    assert_eq!(types.first(), Some(&b"IHDR"));
    assert_eq!(types.last(), Some(&b"IEND"));
    assert!(types.contains(&b"IDAT"));
    assert_eq!(image.chunks[0].data.len(), 13);
    assert!(image.extradata.is_empty());
    assert!(image.metadata.is_empty());
}

#[test]
fn png_extension_in_any_case_and_by_content() {
    let (file, pixels) = png_2x2();
    assert_eq!(Image::load("PNG", &file).unwrap().pixels, pixels);
    assert_eq!(Image::load("dat", &file).unwrap().format, ImgFormat::Png);
    assert_eq!(Image::load("", &file).unwrap().format, ImgFormat::Png);
    assert_eq!(Image::load("bmp", &file).err(), Some(LoadError::NotBmp));
}

#[test]
fn png_with_data_behind_its_end() {
    let (mut file, _) = png_2x2();
    file.extend_from_slice(b"hidden behind the end");
    let image = Image::load("png", &file).unwrap();
    assert_eq!(image.extradata, vec![b"hidden behind the end".to_vec()]);
}

#[test]
fn png_with_text_chunks() {
    let (file, _) = png_2x2();
    let end = file.len() - 12;
    let mut with_text = file[..end].to_vec();
    with_text.extend_from_slice(&chunk(b"tEXt", b"Comment\0first"));
    with_text.extend_from_slice(&chunk(b"tEXt", b"Author\0somebody"));
    let mut packed = b"Packed\0\0".to_vec();
    packed.extend_from_slice(&deflate(b"inflated text"));
    with_text.extend_from_slice(&chunk(b"zTXt", &packed));
    with_text.extend_from_slice(&chunk(b"iTXt", b"Title\0\0\0en\0Titel\0ignored"));
    with_text.extend_from_slice(&chunk(b"tEXt", b"Comment\0second"));
    with_text.extend_from_slice(&file[end..]);
    let image = Image::load("png", &with_text).unwrap();
    let entries: Vec<(&str, &str)> =
        image.metadata.iter().map(|(k, v)| (k.as_str(), v.as_str())).collect();
    assert_eq!(
        entries,
        vec![
            ("Comment", "second"),
            ("Author", "somebody"),
            ("Packed", "inflated text"),
            ("Title", "Titel"),
        ]
    );
}

#[test]
fn png_that_is_wrong() {
    let (file, _) = png_2x2();
    assert_eq!(Image::load("png", &file[..7]).err(), Some(LoadError::Truncated));
    assert_eq!(Image::load("png", b"not a png at all").err(), Some(LoadError::Signature));
    // Cut in the middle of a chunk.
    assert_eq!(Image::load("png", &file[..40]).err(), Some(LoadError::Truncated));
    // Cut at the end of the header chunk: the chunks are fine, the pixels are not.
    assert_eq!(Image::load("png", &file[..33]).err(), Some(LoadError::Decode));
    assert_eq!(Image::load("xyz", b"").err(), Some(LoadError::NotBmp));
}

#[test]
fn chunks_are_read_up_to_the_end_chunk() {
    let mut file = vec![0x89, b'P', b'N', b'G', 0x0D, 0x0A, 0x1A, 0x0A];
    file.extend_from_slice(&chunk(b"abCd", b"12345"));
    file.extend_from_slice(&chunk(b"IEND", b""));
    file.extend_from_slice(b"rest");
    let (chunks, stop, ended) = read_chunks(&file).unwrap();
    assert_eq!(chunks.len(), 2);
    assert_eq!(&chunks[0].ty, b"abCd");
    assert_eq!(chunks[0].data, b"12345");
    assert_eq!(&chunks[1].ty, b"IEND");
    assert!(ended);
    assert_eq!(stop, file.len() - 4);

    let mut open = file[..8].to_vec();
    open.extend_from_slice(&chunk(b"abCd", b"12345"));
    open.extend_from_slice(&[0, 0, 0]);
    let (chunks, stop, ended) = read_chunks(&open).unwrap();
    assert_eq!(chunks.len(), 1);
    assert!(!ended);
    assert_eq!(stop, open.len() - 3);

    let mut short = file[..8].to_vec();
    short.extend_from_slice(&[0, 0, 0, 9, b'a', b'b', b'c', b'd', 1, 2, 3]);
    assert!(read_chunks(&short).is_none());
}

#[test]
fn text_entries() {
    assert_eq!(
        parse_png_text(b"key\0value"),
        Some(("key".to_string(), "value".to_string()))
    );
    assert_eq!(parse_png_text(b"key\0"), Some(("key".to_string(), String::new())));
    assert_eq!(parse_png_text(b"\0v\0w"), Some((String::new(), "v\0w".to_string())));
    assert_eq!(parse_png_text(b"no separator"), None);
    assert_eq!(
        parse_png_text(b"k\xff\0v"),
        Some(("k\u{fffd}".to_string(), "v".to_string()))
    );
}

#[test]
fn international_text_entries() {
    assert_eq!(
        parse_png_itxt(b"key\0\0\0\0text"),
        Some(("key".to_string(), "text".to_string()))
    );
    assert_eq!(
        parse_png_itxt(b"key\0\0en\0schluessel\0text\0more"),
        Some(("key".to_string(), "text".to_string()))
    );
    assert_eq!(parse_png_itxt(b"key\0a\0b\0c"), Some(("key".to_string(), String::new())));
    assert_eq!(parse_png_itxt(b"key\0a\0b"), None);
    assert_eq!(parse_png_itxt(b""), None);
}

#[test]
fn compressed_text_entries() {
    let mut data = b"key\0\0".to_vec();
    data.extend_from_slice(&deflate(b"some text"));
    assert_eq!(parse_png_ztxt(&data), Some(("key".to_string(), "some text".to_string())));
    assert_eq!(parse_png_ztxt(b"key\0\0garbage"), None);
    assert_eq!(parse_png_ztxt(b"key\0"), None);
    assert_eq!(parse_png_ztxt(b"key"), None);
}

#[test]
fn bmp_rows_come_out_top_down() {
    let (file, pixels) = bmp_3x2();
    let image = Image::load("bmp", &file).unwrap();
    assert_eq!(image.format, ImgFormat::Bmp);
    assert_eq!((image.width, image.height), (3, 2));
    let rgba: Vec<u8> = pixels.chunks(3).flat_map(|p| [p[0], p[1], p[2], 255]).collect();
    assert_eq!(image.pixels, rgba);
    // Nine bytes of pixels in blue, green, red order and three of padding a row.
    assert_eq!(image.imagedata.len(), 24);
    assert_eq!(&image.imagedata[..9], &[3, 2, 1, 6, 5, 4, 9, 8, 7]);
    assert_eq!(&image.imagedata[12..21], &[13, 12, 11, 16, 15, 14, 19, 18, 17]);
    assert!(image.chunks.is_empty());
    assert!(image.metadata.is_empty());
    assert!(image.extradata.is_empty());
    assert_eq!(Image::load("", &file).unwrap().imagedata, image.imagedata);
    assert_eq!(Image::load("png", &file).err(), Some(LoadError::Signature));
}

#[test]
fn bmp_rows_by_the_header() {
    let mut file = vec![0u8; 54];
    file[0] = b'B';
    file[1] = b'M';
    file[10] = 54;
    file[22] = 2; // two rows, stored bottom-up
    file[28] = 24;
    file.extend_from_slice(&[1, 2, 3, 0, 4, 5, 6, 0]);
    assert_eq!(read_bmp_pixel_data(&file, 1, 2), Some(vec![4, 5, 6, 0, 1, 2, 3, 0]));
    // A negative height: the rows are stored top-down.
    file[22] = 0xFE;
    file[23] = 0xFF;
    file[24] = 0xFF;
    file[25] = 0xFF;
    assert_eq!(read_bmp_pixel_data(&file, 1, 2), Some(vec![1, 2, 3, 0, 4, 5, 6, 0]));
    assert_eq!(read_bmp_pixel_data(&file, 1, 3), None);
    assert_eq!(read_bmp_pixel_data(&file[..53], 1, 0), None);
    assert_eq!(read_bmp_pixel_data(&file, 1, 0), Some(Vec::new()));
}

#[test]
fn bmp_that_is_wrong() {
    let (file, _) = bmp_3x2();
    assert_eq!(Image::load("bmp", b"XY").err(), Some(LoadError::NotBmp));
    assert_eq!(Image::load("bmp", b"BM and then nothing").err(), Some(LoadError::Decode));
    assert_eq!(Image::load("bmp", &file[..file.len() - 1]).err(), Some(LoadError::Decode));
}

#[test]
fn loaded_image_fits_its_dimensions() {
    let (file, _) = png_2x2();
    let image = Image::load("png", &file).unwrap();
    assert_eq!(image.pixels.len(), (image.width * image.height * 4) as usize);
    assert_eq!(image.row_stride(), 9);
    let (file, _) = bmp_3x2();
    let image = Image::load("bmp", &file).unwrap();
    assert_eq!(image.row_stride(), 12);
}

fn crc32(bytes: &[u8]) -> u32 {
    let mut crc = 0xFFFF_FFFFu32;
    for &b in bytes {
        crc ^= b as u32;
        for _ in 0..8 {
            crc = if crc & 1 == 1 { (crc >> 1) ^ 0xEDB8_8320 } else { crc >> 1 };
        }
    }
    !crc
}

#[test]
fn png_whose_pixel_data_does_not_inflate() {
    let (mut file, _) = png_2x2();
    let at = file.windows(4).position(|w| w == b"IDAT").unwrap();
    let len = u32::from_be_bytes([file[at - 4], file[at - 3], file[at - 2], file[at - 1]]) as usize;
    // Spoil the checksum at the end of the zlib stream, and mend the chunk's own.
    let last = at + 4 + len - 1;
    file[last] ^= 0xFF;
    let crc = crc32(&file[at..at + 4 + len]);
    file[at + 4 + len..at + 8 + len].copy_from_slice(&crc.to_be_bytes());
    assert_eq!(Image::load("png", &file).err(), Some(LoadError::Inflate));
}

#[test]
fn pixels_must_fit_the_dimensions() {
    assert!(check_fit(ImgFormat::Png, 2, 2, &vec![0; 16]));
    assert!(!check_fit(ImgFormat::Png, 2, 2, &vec![0; 15]));
    assert!(!check_fit(ImgFormat::Png, 2, 2, &vec![0; 17]));
    assert!(check_fit(ImgFormat::Bmp, 0, 0, &Vec::new()));
    assert!(check_fit(ImgFormat::Png, 0, 7, &Vec::new()));
    assert!(!check_fit(ImgFormat::Png, 1, 0, &vec![0; 4]));
    let (file, _) = png_2x2();
    let mut image = Image::load("png", &file).unwrap();
    assert!(image.well_formed());
    image.pixels.pop();
    assert!(!image.well_formed());
}

#[test]
fn loaders_by_format() {
    let (png, _) = png_2x2();
    let (bmp, _) = bmp_3x2();
    assert_eq!(Image::load_png(&png).unwrap().format, ImgFormat::Png);
    assert_eq!(Image::load_bmp(&bmp).unwrap().format, ImgFormat::Bmp);
    assert_eq!(Image::load_auto(&png).unwrap().format, ImgFormat::Png);
    assert_eq!(Image::load_auto(&bmp).unwrap().format, ImgFormat::Bmp);
    assert_eq!(Image::load_png(&bmp).err(), Some(LoadError::Signature));
    assert_eq!(Image::load_bmp(&png).err(), Some(LoadError::NotBmp));
    assert_eq!(Image::load_auto(b"GIF89a").err(), Some(LoadError::NotBmp));
}
