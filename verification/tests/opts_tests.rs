use zsteg::opts::{
    apply_param, bits_single_chars, decode_param_string, extract_target, merge_cli_into_options,
    merge_for_extraction, merge_params, parse_bits, parse_bits_single, piece_widths,
    read_bounded, read_index, read_u16, split_list, strings_mode, BitOrder, CliArgs,
    ExtractTarget, Options, OptionsError, OrderSpec, PixelAlignSpec, PrimeSpec, StringsMode,
};

fn bits(s: &str) -> Result<Vec<u16>, OptionsError> {
    let mut aligned = false;
    parse_bits(s, &mut aligned)
}

fn cli() -> CliArgs {
    CliArgs {
        all: false,
        extract: None,
        order: None,
        channels: None,
        bits: None,
        lsb: false,
        msb: false,
        prime: false,
        shift: None,
        step: None,
        invert: false,
        pixel_align: false,
        limit: None,
        file_cmd: true,
        no_strings: false,
        strings: None,
        min_str_len: None,
        verbose: 0,
        quiet: 0,
    }
}

#[test]
fn defaults() {
    let o = Options::default();
    assert_eq!(o.verbose, 0);
    assert_eq!(o.limit, 256);
    assert_eq!(o.order, OrderSpec::Auto);
    assert_eq!((o.step, o.ystep), (1, 1));
    assert_eq!(o.channels, None);
    assert_eq!(o.bits, None);
    assert_eq!(o.bit_order, None);
    assert_eq!(o.prime, PrimeSpec::Off);
    assert_eq!(o.pixel_align, PixelAlignSpec::Off);
    assert_eq!(o.shift, None);
    assert!(!o.invert);
    assert!(o.file_cmd);
    assert_eq!(o.strings, None);
    assert_eq!(o.min_str_len, 8);
    assert!(o.extra_checks);
    assert!(!o.zlib_flag);
}

#[test]
fn single_values() {
    assert_eq!(parse_bits_single("1"), Ok(1));
    assert_eq!(parse_bits_single("2"), Ok(2));
    assert_eq!(parse_bits_single("8"), Ok(8));
    assert_eq!(parse_bits_single("12"), Ok(12));
    assert_eq!(parse_bits_single("+3"), Ok(3));
    assert_eq!(parse_bits_single("65535"), Ok(65535));
    assert_eq!(parse_bits_single("0x88"), Ok(0x188));
    assert_eq!(parse_bits_single("0xFF"), Ok(0x1FF));
    assert_eq!(parse_bits_single("0x1ff"), Ok(0x1FF));
    assert_eq!(parse_bits_single("0b101"), Ok(0x105));
    assert_eq!(parse_bits_single("101"), Ok(0x105));
    assert_eq!(parse_bits_single("11"), Ok(0x103));
    assert_eq!(parse_bits_single("0"), Ok(0x100));
    assert_eq!(parse_bits_single("00000001"), Ok(0x101));
    for wrong in ["", "x", "0x", "0xZZ", "0b2", "65536", "-1", "1 ", "0x10000", "1_0", "+"] {
        match parse_bits_single(wrong) {
            Err(OptionsError::InvalidBitsValue(text)) => assert_eq!(text, wrong),
            other => panic!("{:?} gave {:?}", wrong, other),
        }
    }
}

#[test]
fn lists_of_widths() {
    assert_eq!(bits("1"), Ok(vec![1]));
    assert_eq!(bits("1,3,5"), Ok(vec![1, 3, 5]));
    assert_eq!(bits(" 1 , 2 "), Ok(vec![1, 2]));
    assert_eq!(bits("1-4"), Ok(vec![1, 2, 3, 4]));
    assert_eq!(bits("4-1"), Ok(vec![1, 2, 3, 4]));
    assert_eq!(bits("3-3"), Ok(vec![3]));
    assert_eq!(bits("all"), Ok(vec![1, 2, 3, 4, 5, 6, 7, 8]));
    assert_eq!(bits("ALL"), Ok(vec![1, 2, 3, 4, 5, 6, 7, 8]));
    assert_eq!(bits("0x88"), Ok(vec![0x188]));
    assert_eq!(bits("1,0x88,0b11"), Ok(vec![1, 0x188, 0x103]));
    assert_eq!(bits("1,1,2,2,1"), Ok(vec![1, 2, 1]));
    assert_eq!(bits("1-2,2-3"), Ok(vec![1, 2, 3]));
    assert_eq!(bits("8,all"), Ok(vec![8, 1, 2, 3, 4, 5, 6, 7, 8]));
}

#[test]
fn lists_that_are_wrong() {
    assert!(matches!(bits(""), Err(OptionsError::InvalidBitsValue(_))));
    assert!(matches!(bits("1,,2"), Err(OptionsError::InvalidBitsValue(_))));
    assert!(matches!(bits("x"), Err(OptionsError::InvalidBitsValue(_))));
    assert!(matches!(bits("1-"), Err(OptionsError::InvalidBitsValue(_))));
    assert!(matches!(bits("a-3"), Err(OptionsError::InvalidBitsValue(_))));
    assert!(matches!(bits("0-3"), Err(OptionsError::InvalidBitsRange(_))));
    assert!(matches!(bits("2-9"), Err(OptionsError::InvalidBitsRange(_))));
    assert!(matches!(bits("9-10"), Err(OptionsError::InvalidBitsRange(_))));
    assert!(matches!(bits("1-2-3"), Err(OptionsError::InvalidBitsValue(_))));
    match bits("1, 2-9 ,x") {
        Err(e @ OptionsError::InvalidBitsRange(_)) => {
            assert_eq!(e.message(), "invalid bits range: 2-9");
        }
        other => panic!("unexpected {:?}", other),
    }
    match bits("1,zz") {
        Err(e) => assert_eq!(e.message(), "invalid bits value: zz"),
        other => panic!("unexpected {:?}", other),
    }
}

#[test]
fn alignment_mark() {
    let mut aligned = false;
    assert_eq!(parse_bits("2p", &mut aligned), Ok(vec![2]));
    assert!(aligned);
    let mut aligned = false;
    assert_eq!(parse_bits(" 1,2p ", &mut aligned), Ok(vec![1, 2]));
    assert!(aligned);
    let mut aligned = false;
    assert_eq!(parse_bits("2", &mut aligned), Ok(vec![2]));
    assert!(!aligned);
    let mut aligned = true;
    assert_eq!(parse_bits("2", &mut aligned), Ok(vec![2]));
    assert!(aligned);
    let mut aligned = false;
    assert!(parse_bits("p", &mut aligned).is_err());
    assert!(aligned);
}

#[test]
fn parameter_strings() {
    let o = decode_param_string("1b,rgb,lsb,xy").unwrap();
    assert_eq!(o.bits, Some(vec![1]));
    assert_eq!(o.channels, Some(vec!["rgb".to_string()]));
    assert_eq!(o.bit_order, Some(BitOrder::Lsb));
    assert_eq!(o.order, OrderSpec::Explicit(vec!["xy".to_string()]));
    assert!(!o.extra_checks);
    assert_eq!(o.prime, PrimeSpec::Off);
    assert_eq!(o.limit, 256);

    let o = decode_param_string("b2p, msb ,prime,zlib,Yb").unwrap();
    assert_eq!(o.bits, Some(vec![2]));
    assert_eq!(o.pixel_align, PixelAlignSpec::Only);
    assert_eq!(o.bit_order, Some(BitOrder::Msb));
    assert_eq!(o.prime, PrimeSpec::Only);
    assert!(o.zlib_flag);
    assert_eq!(o.order, OrderSpec::Explicit(vec!["Yb".to_string()]));
    assert_eq!(o.channels, None);

    let o = decode_param_string("lsb").unwrap();
    assert!(o.extra_checks);
    assert_eq!(o.bits, None);
    let o = decode_param_string("zlib").unwrap();
    assert!(o.extra_checks);

    let o = decode_param_string("b").unwrap();
    assert_eq!(o.channels, Some(vec!["b".to_string()]));
    assert_eq!(o.bits, None);
    let o = decode_param_string("by").unwrap();
    assert_eq!(o.order, OrderSpec::Explicit(vec!["by".to_string()]));
    let o = decode_param_string("b12").unwrap();
    assert_eq!(o.bits, Some(vec![12]));
    let o = decode_param_string("b11").unwrap();
    assert_eq!(o.bits, Some(vec![0x103]));
    let o = decode_param_string("3b,4b").unwrap();
    assert_eq!(o.bits, Some(vec![4]));
    let o = decode_param_string("bgra").unwrap();
    assert_eq!(o.channels, Some(vec!["bgra".to_string()]));
}

#[test]
fn parameter_strings_that_are_wrong() {
    for wrong in ["", "foo", "lsb,,msb", "LSB", "rgbx", "xyz", "b1,what"] {
        match decode_param_string(wrong) {
            Err(OptionsError::UnknownParam(_)) => {}
            other => panic!("{:?} gave {:?}", wrong, other),
        }
    }
    match decode_param_string("lsb, nonsense") {
        Err(e) => assert_eq!(e.message(), "unknown param nonsense"),
        other => panic!("unexpected {:?}", other),
    }
    assert!(matches!(decode_param_string("bp"), Err(OptionsError::InvalidBitsValue(_))));
}

#[test]
fn command_line_all() {
    let mut o = Options::default();
    o.extra_checks = false;
    let c = CliArgs { all: true, ..cli() };
    assert_eq!(merge_cli_into_options(&mut o, &c), Ok(()));
    assert_eq!(o.prime, PrimeSpec::All);
    assert_eq!(o.order, OrderSpec::All);
    assert_eq!(o.pixel_align, PixelAlignSpec::All);
    assert_eq!(o.bits, Some(vec![1, 2, 3, 4, 5, 6, 7, 8]));
    assert!(o.extra_checks);
}

#[test]
fn command_line_settings() {
    let mut o = Options::default();
    let c = CliArgs {
        order: Some("xy,bY".to_string()),
        channels: Some("r,rgb".to_string()),
        bits: Some("1-2p".to_string()),
        msb: true,
        shift: Some(3),
        step: Some(2),
        invert: true,
        limit: Some(0),
        file_cmd: false,
        strings: Some("LONGEST".to_string()),
        min_str_len: Some(4),
        verbose: 2,
        quiet: 3,
        ..cli()
    };
    assert_eq!(merge_cli_into_options(&mut o, &c), Ok(()));
    assert_eq!(o.order, OrderSpec::Explicit(vec!["xy".to_string(), "bY".to_string()]));
    assert_eq!(o.channels, Some(vec!["r".to_string(), "rgb".to_string()]));
    assert_eq!(o.bits, Some(vec![1, 2]));
    assert_eq!(o.pixel_align, PixelAlignSpec::Only);
    assert_eq!(o.bit_order, Some(BitOrder::Msb));
    assert_eq!(o.shift, Some(3));
    assert_eq!(o.step, 2);
    assert!(o.invert);
    assert_eq!(o.limit, 0);
    assert!(!o.file_cmd);
    assert_eq!(o.strings, Some(StringsMode::Longest));
    assert_eq!(o.min_str_len, 4);
    assert_eq!(o.verbose, -1);
    assert!(!o.extra_checks);
}

#[test]
fn command_line_leaves_the_rest() {
    let mut o = Options::default();
    o.shift = Some(5);
    o.limit = 99;
    o.bit_order = Some(BitOrder::Lsb);
    let c = CliArgs { prime: true, no_strings: true, pixel_align: true, ..cli() };
    assert_eq!(merge_cli_into_options(&mut o, &c), Ok(()));
    assert_eq!(o.shift, Some(5));
    assert_eq!(o.limit, 99);
    assert_eq!(o.bit_order, Some(BitOrder::Lsb));
    assert_eq!(o.prime, PrimeSpec::Only);
    assert_eq!(o.strings, Some(StringsMode::Off));
    assert_eq!(o.pixel_align, PixelAlignSpec::Only);
    assert_eq!(o.order, OrderSpec::Auto);
    assert!(!o.extra_checks);
}

#[test]
fn command_line_with_wrong_widths() {
    let mut o = Options::default();
    let c = CliArgs { bits: Some("0-9".to_string()), ..cli() };
    assert!(matches!(
        merge_cli_into_options(&mut o, &c),
        Err(OptionsError::InvalidBitsRange(_))
    ));
}

#[test]
fn lists_and_modes() {
    assert_eq!(split_list("a,b,,c"), vec!["a", "b", "", "c"]);
    assert_eq!(split_list(""), vec![""]);
    assert_eq!(split_list(" x ,"), vec![" x ", ""]);
    assert_eq!(strings_mode("first"), StringsMode::First);
    assert_eq!(strings_mode("ALL"), StringsMode::All);
    assert_eq!(strings_mode("Longest"), StringsMode::Longest);
    assert_eq!(strings_mode("none"), StringsMode::Off);
    assert_eq!(strings_mode("NO"), StringsMode::Off);
    assert_eq!(strings_mode("whatever"), StringsMode::First);
}

#[test]
fn parameters_over_options() {
    let mut o = Options::default();
    o.bits = Some(vec![1, 2]);
    o.channels = Some(vec!["r".to_string()]);
    o.prime = PrimeSpec::All;
    o.limit = 7;
    let p = decode_param_string("3b,msb,yx").unwrap();
    merge_params(&mut o, p);
    assert_eq!(o.bits, Some(vec![3]));
    assert_eq!(o.bit_order, Some(BitOrder::Msb));
    assert_eq!(o.order, OrderSpec::Explicit(vec!["yx".to_string()]));
    assert_eq!(o.channels, Some(vec!["r".to_string()]));
    assert_eq!(o.prime, PrimeSpec::All);
    assert_eq!(o.limit, 7);
    assert!(!o.extra_checks);
    assert!(!o.zlib_flag);
    let p = decode_param_string("zlib,prime,g").unwrap();
    merge_params(&mut o, p);
    assert!(o.zlib_flag);
    assert_eq!(o.prime, PrimeSpec::Only);
    assert_eq!(o.channels, Some(vec!["g".to_string()]));
    assert_eq!(o.bits, Some(vec![3]));
}

#[test]
fn extraction_targets() {
    assert_eq!(extract_target("imagedata"), Ok(ExtractTarget::ImageData));
    assert_eq!(extract_target("chunk:3"), Ok(ExtractTarget::Chunk(3)));
    assert_eq!(extract_target("chunk:12:tEXt"), Ok(ExtractTarget::Chunk(12)));
    assert_eq!(extract_target("chunk:+7:a:b"), Ok(ExtractTarget::Chunk(7)));
    assert_eq!(extract_target("1b,rgb,lsb"), Ok(ExtractTarget::Params));
    assert_eq!(extract_target("chunk"), Ok(ExtractTarget::Params));
    assert_eq!(extract_target(""), Ok(ExtractTarget::Params));
    for wrong in ["chunk:", "chunk:x", "chunk::1", "chunk:-1", "chunk:99999999999999999999999"] {
        match extract_target(wrong) {
            Err(e @ OptionsError::InvalidChunkIndex(_)) => {
                assert_eq!(e.message(), format!("invalid chunk index: {}", wrong));
            }
            other => panic!("{:?} gave {:?}", wrong, other),
        }
    }
    let mut o = Options::default();
    o.shift = Some(2);
    merge_for_extraction(&mut o, decode_param_string("2b,msb").unwrap());
    assert_eq!(o.limit, 0);
    assert_eq!(o.bits, Some(vec![2]));
    assert_eq!(o.bit_order, Some(BitOrder::Msb));
    assert_eq!(o.shift, Some(2));
    // An extraction takes over what decides the stream, and nothing else.
    assert!(o.extra_checks);
    let mut o = Options::default();
    merge_for_extraction(&mut o, decode_param_string("b3p,zlib,prime,yx,g").unwrap());
    assert_eq!(o.bits, Some(vec![3]));
    assert_eq!(o.prime, PrimeSpec::Only);
    assert_eq!(o.order, OrderSpec::Explicit(vec!["yx".to_string()]));
    assert_eq!(o.channels, Some(vec!["g".to_string()]));
    assert_eq!(o.pixel_align, PixelAlignSpec::Off);
    assert!(!o.zlib_flag);
    assert!(o.extra_checks);
    let mut o = Options { limit: 10, ..Options::default() };
    merge_for_extraction(&mut o, decode_param_string("lsb").unwrap());
    assert_eq!(o.limit, 10);
}

fn chars(s: &str) -> Vec<char> {
    s.chars().collect()
}

#[test]
fn numbers_in_a_radix() {
    assert_eq!(read_u16(&chars("ff"), 16), Some(255));
    assert_eq!(read_u16(&chars("FFFF"), 16), Some(65535));
    assert_eq!(read_u16(&chars("10000"), 16), None);
    assert_eq!(read_u16(&chars("+101"), 2), Some(5));
    assert_eq!(read_u16(&chars("102"), 2), None);
    assert_eq!(read_u16(&chars("0009"), 10), Some(9));
    assert_eq!(read_u16(&chars("9a"), 10), None);
    assert_eq!(read_u16(&chars(""), 10), None);
    assert_eq!(read_u16(&chars("++1"), 10), None);
    assert_eq!(read_bounded(&chars("18446744073709551615"), 10, u64::MAX), Some(u64::MAX));
    assert_eq!(read_bounded(&chars("18446744073709551616"), 10, u64::MAX), None);
    assert_eq!(read_bounded(&chars("11"), 10, 10), None);
    assert_eq!(read_bounded(&chars("10"), 10, 10), Some(10));
    assert_eq!(read_index(&chars("42")), Some(42));
    assert_eq!(read_index(&chars("4 2")), None);
    assert_eq!(bits_single_chars(&chars("0b1111")), Some(0x10F));
    assert_eq!(bits_single_chars(&chars("7")), Some(7));
    assert_eq!(bits_single_chars(&chars("0b")), None);
}

#[test]
fn items_of_a_list() {
    assert_eq!(piece_widths("3"), Ok(vec![3]));
    assert_eq!(piece_widths("2-4"), Ok(vec![2, 3, 4]));
    assert_eq!(piece_widths("8-6"), Ok(vec![6, 7, 8]));
    assert_eq!(piece_widths("aLl"), Ok(vec![1, 2, 3, 4, 5, 6, 7, 8]));
    assert_eq!(piece_widths("0x0f"), Ok(vec![0x10F]));
    assert!(matches!(piece_widths(" 3"), Err(OptionsError::InvalidBitsValue(_))));
    assert!(matches!(piece_widths("1-9"), Err(OptionsError::InvalidBitsRange(_))));
    match piece_widths("2-x") {
        Err(OptionsError::InvalidBitsValue(text)) => assert_eq!(text, "x"),
        other => panic!("unexpected {:?}", other),
    }
    match piece_widths("y-2") {
        Err(OptionsError::InvalidBitsValue(text)) => assert_eq!(text, "y"),
        other => panic!("unexpected {:?}", other),
    }
}

#[test]
fn words_of_a_parameter_string() {
    let mut o = Options::default();
    let mut aligned = false;
    assert_eq!(apply_param(&mut o, &mut aligned, "msb".to_string()), Ok(()));
    assert_eq!(o.bit_order, Some(BitOrder::Msb));
    assert!(o.extra_checks);
    assert_eq!(apply_param(&mut o, &mut aligned, "b3p".to_string()), Ok(()));
    assert_eq!(o.bits, Some(vec![3]));
    assert!(aligned);
    assert!(!o.extra_checks);
    assert_eq!(apply_param(&mut o, &mut aligned, "YX".to_string()), Ok(()));
    assert_eq!(o.order, OrderSpec::Explicit(vec!["YX".to_string()]));
    assert_eq!(
        apply_param(&mut o, &mut aligned, " lsb".to_string()),
        Err(OptionsError::UnknownParam(" lsb".to_string()))
    );
    assert_eq!(o.bit_order, Some(BitOrder::Msb));
}
