use std::io::Write;
use zsteg::detect::{
    check_openstego, check_wbstego, classify_head, classify_tail, data2result, one_char,
    strings_first, whole_text_check, zlib_found, zlib_try,
};
use zsteg::opts::{BitOrder, Options};
use zsteg::result::DetectResult;

fn deflate(text: &[u8]) -> Vec<u8> {
    let mut encoder = flate2::write::ZlibEncoder::new(Vec::new(), flate2::Compression::default());
    encoder.write_all(text).unwrap();
    encoder.finish().unwrap()
}

#[test]
fn one_char_fifty_times() {
    let data = vec![0x41u8; 50];
    match data2result(&data, &Options::default(), None) {
        Some(DetectResult::OneChar { ch, size }) => {
            assert_eq!(ch, 0x41);
            assert_eq!(size, 50);
        }
        other => panic!("unexpected {:?}", other),
    }
}

#[test]
fn one_char_single_zero() {
    match data2result(&[0x00], &Options::default(), None) {
        Some(DetectResult::OneChar { ch, size }) => {
            assert_eq!(ch, 0);
            assert_eq!(size, 1);
        }
        other => panic!("unexpected {:?}", other),
    }
}

#[test]
fn one_char_needs_every_byte_equal() {
    assert!(one_char(&[]).is_none());
    assert!(one_char(&[7, 7, 7, 8]).is_none());
    assert!(one_char(&[8, 7, 7, 7]).is_none());
    assert!(one_char(&[7, 7]).is_some());
}

#[test]
fn whole_text_hello_world() {
    match data2result(b"HELLO WORLD", &Options::default(), None) {
        Some(DetectResult::WholeText(text)) => assert_eq!(text, "HELLO WORLD"),
        other => panic!("unexpected {:?}", other),
    }
}

#[test]
fn whole_text_lengths() {
    // With a minimum string length of 8, six bytes are enough for whole text.
    assert!(matches!(whole_text_check(b"abcdef", 6), Some(DetectResult::WholeText(_))));
    assert!(whole_text_check(b"abcde", 6).is_none());
    assert!(whole_text_check(b"abc\x01def", 6).is_none());
    assert!(matches!(whole_text_check(b"a\r\n\tb c", 6), Some(DetectResult::WholeText(_))));
    assert!(whole_text_check(b"abcde\x7f", 6).is_none());
    let o = Options::default();
    assert!(matches!(data2result(b"abcdxy", &o, None), Some(DetectResult::WholeText(_))));
    assert!(data2result(b"abcdx", &o, None).is_none());
    let o = Options { min_str_len: 1, ..Options::default() };
    assert!(matches!(data2result(b"", &o, None), Some(DetectResult::WholeText(_))));
}

#[test]
fn openstego_header() {
    let mut data = b"XX".to_vec();
    data.extend_from_slice(b"OPENSTEGO");
    data.extend_from_slice(&[1, 10, 0, 0, 0, 8, 4, 0, 0]);
    data.extend_from_slice(b"test");
    match data2result(&data, &Options::default(), None) {
        Some(DetectResult::OpenStego {
            version,
            data_len,
            channel_bits,
            fname_len,
            compress,
            encrypt,
            fname,
        }) => {
            assert_eq!(version, 1);
            assert_eq!(data_len, 10);
            assert_eq!(channel_bits, 8);
            assert_eq!(fname_len, 4);
            assert_eq!(compress, 0);
            assert_eq!(encrypt, 0);
            assert_eq!(fname, "test");
        }
        other => panic!("unexpected {:?}", other),
    }
}

#[test]
fn openstego_needs_nine_bytes_behind_the_marker() {
    let mut data = b"OPENSTEGO".to_vec();
    data.extend_from_slice(&[1, 0x78, 0x56, 0x34, 0x12, 8, 0, 1]);
    assert!(check_openstego(&data).is_none());
    data.push(2);
    match check_openstego(&data) {
        Some(DetectResult::OpenStego { data_len, fname, compress, encrypt, .. }) => {
            assert_eq!(data_len, 0x12345678);
            assert_eq!(compress, 1);
            assert_eq!(encrypt, 2);
            assert_eq!(fname, "");
        }
        other => panic!("unexpected {:?}", other),
    }
    assert!(check_openstego(b"OPENSTEG0 and nothing").is_none());
}

#[test]
fn openstego_name_that_is_cut_short_is_empty() {
    let mut data = b"OPENSTEGO".to_vec();
    data.extend_from_slice(&[1, 0, 0, 0, 0, 8, 5, 0, 0]);
    data.extend_from_slice(b"abcd");
    match check_openstego(&data) {
        Some(DetectResult::OpenStego { fname_len, fname, .. }) => {
            assert_eq!(fname_len, 5);
            assert_eq!(fname, "");
        }
        other => panic!("unexpected {:?}", other),
    }
}

#[test]
fn zlib_behind_three_bytes() {
    let mut data = vec![0x01, 0x02, 0x03];
    data.extend_from_slice(&deflate(b"hi"));
    let rest = data.len() - 3;
    match data2result(&data, &Options::default(), None) {
        Some(DetectResult::Zlib { data, offset, size }) => {
            assert_eq!(data, b"hi");
            assert_eq!(offset, 3);
            assert_eq!(size, rest);
        }
        other => panic!("unexpected {:?}", other),
    }
}

#[test]
fn zlib_is_not_looked_for_beyond_256_bytes() {
    let mut data = vec![0x01; 256];
    data.extend_from_slice(&deflate(b"hidden"));
    assert!(zlib_try(&data).is_none());
    let mut data = vec![0x01; 255];
    data.extend_from_slice(&deflate(b"hidden"));
    assert!(matches!(zlib_try(&data), Some(DetectResult::Zlib { offset: 255, .. })));
}

#[test]
fn zlib_that_inflates_to_nothing_does_not_count() {
    assert!(zlib_try(&deflate(b"")).is_none());
    assert!(zlib_found(Some(Vec::new()), 0, 8).is_none());
    assert!(zlib_found(None, 0, 8).is_none());
    match zlib_found(Some(vec![1, 2]), 4, 9) {
        Some(DetectResult::Zlib { data, offset, size }) => {
            assert_eq!((data, offset, size), (vec![1, 2], 4, 9));
        }
        other => panic!("unexpected {:?}", other),
    }
}

#[test]
fn first_run_of_text() {
    let mut data = vec![0, 0];
    data.extend_from_slice(b"abc");
    data.push(0);
    data.extend_from_slice(b"hello world!");
    data.push(1);
    data.extend_from_slice(b"another long run");
    match strings_first(&data, 8) {
        Some(DetectResult::PartialText { text, offset }) => {
            assert_eq!(text, "hello world!");
            assert_eq!(offset, 6);
        }
        other => panic!("unexpected {:?}", other),
    }
}

#[test]
fn run_of_text_at_the_end() {
    let mut data = vec![0xFF];
    data.extend_from_slice(b"abcdefgh");
    match strings_first(&data, 8) {
        Some(DetectResult::PartialText { text, offset }) => {
            assert_eq!(text, "abcdefgh");
            assert_eq!(offset, 1);
        }
        other => panic!("unexpected {:?}", other),
    }
    assert!(strings_first(&data, 9).is_none());
    assert!(strings_first(&[1, 2, 3], 0).is_none());
    assert!(strings_first(&[], 0).is_none());
}

#[test]
fn wbstego_with_extension() {
    let mut data = vec![0x10, 0x00, 0x00];
    data.extend_from_slice(b"3gp");
    data.extend((1..=40).map(|i| i as u8));
    match check_wbstego(&data, false) {
        Some(DetectResult::WBStego { size, ext, data_preview, enc, even }) => {
            assert_eq!(size, 16);
            assert_eq!(ext.as_deref(), Some("3gp"));
            assert_eq!(data_preview, (1..=30).map(|i| i as u8).collect::<Vec<u8>>());
            assert_eq!(enc, None);
            assert!(!even);
        }
        other => panic!("unexpected {:?}", other),
    }
}

#[test]
fn wbstego_encrypted_header() {
    let data = [5, 0, 0, 0x00, 0xff, 0x02, 0x01, 0xAA, 0xBB, 0xCC];
    match check_wbstego(&data, true) {
        Some(DetectResult::WBStego { size, ext, data_preview, enc, .. }) => {
            assert_eq!(size, 5);
            assert_eq!(ext, None);
            assert_eq!(data_preview, vec![0xBB, 0xCC]);
            assert_eq!(enc.as_deref(), Some("Blowfish"));
        }
        other => panic!("unexpected {:?}", other),
    }
    let names = [(2u8, "Twofish"), (3, "CAST128"), (4, "Rijndael"), (9, "unknown #9"), (0, "unknown #0")];
    for (code, name) in names {
        let data = [5, 0, 0, 0x00, 0xff, 0x01, code, 0x11];
        match check_wbstego(&data, false) {
            Some(DetectResult::WBStego { enc, data_preview, .. }) => {
                assert_eq!(enc.as_deref(), Some(name));
                assert_eq!(data_preview, vec![0x11]);
            }
            other => panic!("unexpected {:?}", other),
        }
    }
    // An empty header: the code counts as 0.
    let data = [5, 0, 0, 0x00, 0xff, 0x00, 0x07];
    match check_wbstego(&data, false) {
        Some(DetectResult::WBStego { enc, data_preview, .. }) => {
            assert_eq!(enc.as_deref(), Some("unknown #0"));
            assert_eq!(data_preview, vec![0x07]);
        }
        other => panic!("unexpected {:?}", other),
    }
    // A header that the data is too short for.
    assert!(check_wbstego(&[5, 0, 0, 0x00, 0xff, 0x04, 1, 2, 3, 4], false).is_none());
}

#[test]
fn wbstego_control_byte() {
    match check_wbstego(&[5, 0, 0, 0x80, 1, 2, 3], false) {
        Some(DetectResult::WBStego { enc, data_preview, ext, .. }) => {
            assert_eq!(enc.as_deref(), Some("wbStego 2.x/3.x"));
            assert_eq!(data_preview, vec![1, 2, 3]);
            assert_eq!(ext, None);
        }
        other => panic!("unexpected {:?}", other),
    }
    match check_wbstego(&[5, 0, 0, 0x40, 1, 2, 3], false) {
        Some(DetectResult::WBStego { enc, data_preview, .. }) => {
            assert_eq!(enc, None);
            assert_eq!(data_preview, vec![1, 2, 3]);
        }
        other => panic!("unexpected {:?}", other),
    }
}

#[test]
fn wbstego_rejections() {
    assert!(check_wbstego(&[1, 0, 0], false).is_none());
    assert!(check_wbstego(&[1, 0, 0, b'1', b'b'], false).is_none());
    assert!(check_wbstego(&[0, 0, 0, b'1', b'b', b'c', 1], false).is_none());
    // 1,000,001 is too large, 1,000,000 is not.
    assert!(check_wbstego(&[0x41, 0x42, 0x0F, b'1', b'b', b'c', 1], false).is_none());
    assert!(check_wbstego(&[0x40, 0x42, 0x0F, b'1', b'b', b'c', 1], false).is_some());
    assert!(check_wbstego(&[1, 0, 0, b'1', b'*', b'c', 1], false).is_none());
    assert!(check_wbstego(&[1, 0, 0, b'1', b'?', b'c', 1], false).is_none());
    assert!(check_wbstego(&[1, 0, 0, b'1', 0x1f, b'c', 1], false).is_none());
    assert!(check_wbstego(&[1, 0, 0, b'1', b'b', 0x7f, 1], false).is_none());
    assert!(check_wbstego(&[1, 0, 0, 0x1f, b'b', b'c', 1], false).is_none());
    // Eleven zero bytes and three others are a wasteland; four others are not.
    let mut data = vec![1, 0, 0, b'1', b'b', b'c'];
    data.extend_from_slice(&[0; 11]);
    assert!(check_wbstego(&data, false).is_none());
    data.push(9);
    assert!(check_wbstego(&data, false).is_some());
}

#[test]
fn wbstego_letter_in_front_counts_as_control_byte() {
    // A letter has one of its two top bits set.
    match check_wbstego(&[1, 0, 0, b'p', b'n', b'g', 9, 8], false) {
        Some(DetectResult::WBStego { ext, enc, data_preview, .. }) => {
            assert_eq!(ext, None);
            assert_eq!(enc, None);
            assert_eq!(data_preview, vec![b'n', b'g', 9, 8]);
        }
        other => panic!("unexpected {:?}", other),
    }
}

#[test]
fn wbstego_only_under_pinned_lsb() {
    let mut data = vec![0x10, 0x00, 0x00];
    data.extend_from_slice(b"png");
    data.extend_from_slice(&[1, 2, 3, 4, 5, 6, 7, 8]);
    let mut o = Options::default();
    assert!(data2result(&data, &o, None).is_none());
    o.bit_order = Some(BitOrder::Msb);
    assert!(data2result(&data, &o, None).is_none());
    o.bit_order = Some(BitOrder::Lsb);
    assert!(matches!(data2result(&data, &o, None), Some(DetectResult::WBStego { .. })));
}

#[test]
fn the_first_rule_that_matches_wins() {
    let o = Options { bit_order: Some(BitOrder::Lsb), ..Options::default() };
    // One repeated byte comes before everything else.
    assert!(matches!(data2result(b"aaaaaaaaaaaa", &o, None), Some(DetectResult::OneChar { .. })));
    // The OpenStego header comes before whole text.
    let text = b"OPENSTEGO123456789";
    assert!(matches!(data2result(text, &o, None), Some(DetectResult::OpenStego { .. })));
    // The classifier's answer comes before zlib and text runs, but behind the head.
    let file = || Some("something".to_string());
    let mut data = vec![0x01];
    data.extend_from_slice(b"some text in here");
    assert!(matches!(
        data2result(&data, &o, file()),
        Some(DetectResult::FileType(d)) if d == "something"
    ));
    assert!(matches!(data2result(&data, &o, None), Some(DetectResult::PartialText { .. })));
    assert!(matches!(data2result(b"HELLO WORLD", &o, file()), Some(DetectResult::WholeText(_))));
    assert!(classify_head(&data, &o).is_none());
    assert!(matches!(classify_tail(&data, &o), Some(DetectResult::PartialText { offset: 1, .. })));
    // Zlib comes before text runs.
    let mut data = deflate(b"payload");
    data.extend_from_slice(b" and a long run of text");
    assert!(matches!(classify_tail(&data, &o), Some(DetectResult::Zlib { offset: 0, .. })));
    assert!(data2result(&[1, 2, 3, 4, 5], &o, None).is_none());
}

#[test]
fn zlib_streams_are_unpacked() {
    assert_eq!(zsteg::zlib::unpack(&deflate(b"payload")), Some(b"payload".to_vec()));
    let mut padded = deflate(b"payload");
    padded.extend_from_slice(b"behind the stream");
    assert_eq!(zsteg::zlib::unpack(&padded), Some(b"payload".to_vec()));
    assert_eq!(zsteg::zlib::unpack(b"no stream"), None);
    assert_eq!(zsteg::zlib::unpack(&[]), None);
    let whole = deflate(b"a longer payload that is cut short");
    assert_eq!(zsteg::zlib::unpack(&whole[..whole.len() - 6]), None);
}

#[test]
fn openstego_name_that_is_no_ascii() {
    let mut data = b"OPENSTEGO".to_vec();
    data.extend_from_slice(&[1, 0, 0, 0, 0, 8, 3, 0, 0]);
    data.extend_from_slice(&[b'a', 0xC3, 0xA9]);
    match check_openstego(&data) {
        Some(DetectResult::OpenStego { fname, .. }) => assert_eq!(fname, "a\u{e9}"),
        other => panic!("unexpected {:?}", other),
    }
    let end = data.len() - 1;
    data[end] = 0xFF;
    match check_openstego(&data) {
        Some(DetectResult::OpenStego { fname, .. }) => assert_eq!(fname, "a\u{fffd}\u{fffd}"),
        other => panic!("unexpected {:?}", other),
    }
}
