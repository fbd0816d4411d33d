use zsteg::file_cmd::FileCmd;
use zsteg::hexdump::dump;
use zsteg::report::{Output, Reporter};
use zsteg::text::{has_prefix, is_word, push_decimal, str_chars, text_of, word_at};
use zsteg::result::{escape_bytes_to_string, DetectResult, Segment, Tone};

#[test]
fn dump_of_a_short_line() {
    let expected = format!(
        "    00000000: 48 65 6c 6c 6f 00 {} Hello.\n",
        " ".repeat(30)
    );
    assert_eq!(dump(4, b"Hello\x00", 0), expected);
}

#[test]
fn dump_of_two_lines() {
    let data: Vec<u8> = (0x40..0x52).collect();
    let expected = "00000000: 40 41 42 43 44 45 46 47 48 49 4a 4b 4c 4d 4e 4f  @ABCDEFGHIJKLMNO\n\
                    00000010: 50 51                                            PQ\n";
    assert_eq!(dump(0, &data, 0), expected);
}

#[test]
fn dump_honours_the_limit() {
    let data: Vec<u8> = (0..40).collect();
    assert_eq!(dump(0, &data, 3), format!("00000000: 00 01 02 {} ...\n", " ".repeat(39)));
    assert_eq!(dump(1, &data, 100).lines().count(), 3);
    assert_eq!(dump(0, &data, 16).lines().count(), 1);
    assert_eq!(dump(0, &data, 17).lines().count(), 2);
    assert_eq!(dump(4, &[], 0), "");
}

#[test]
fn dump_shows_what_is_not_printable_as_a_dot() {
    let text = dump(0, &[0x1f, 0x20, 0x7e, 0x7f, 0xff], 0);
    assert!(text.ends_with(" . ~..\n"), "{:?}", text);
    assert!(text.starts_with("00000000: 1f 20 7e 7f ff "));
}

#[test]
fn escapes() {
    assert_eq!(escape_bytes_to_string(b"hi"), "\"hi\"");
    assert_eq!(escape_bytes_to_string(b""), "\"\"");
    assert_eq!(escape_bytes_to_string(b"a\nb\rc\td"), "\"a\\nb\\rc\\td\"");
    assert_eq!(escape_bytes_to_string(b"\\ \""), "\"\\\\ \\\"\"");
    assert_eq!(
        escape_bytes_to_string(&[0x07, 0x08, 0x0B, 0x0C, 0x1B]),
        "\"\\a\\b\\v\\f\\e\""
    );
    assert_eq!(escape_bytes_to_string(&[0x00, 0x1f, 0x7f, 0xAB, 0xff]), "\"\\x00\\x1F\\x7F\\xAB\\xFF\"");
}

#[test]
fn summaries() {
    let r = DetectResult::OneChar { ch: 0x41, size: 50 };
    assert_eq!(r.summary(), "[0x41] repeated 50 times");
    let r = DetectResult::OneChar { ch: 0x0a, size: 1 };
    assert_eq!(r.summary(), "[0x0A] repeated 1 times");
    let r = DetectResult::WholeText("HELLO \"WORLD\"".to_string());
    assert_eq!(r.summary(), "text: \"HELLO \\\"WORLD\\\"\"");
    let r = DetectResult::PartialText { text: "a\tb".to_string(), offset: 7 };
    assert_eq!(r.summary(), "text: \"a\\tb\"");
    let r = DetectResult::Zlib { data: b"hi".to_vec(), offset: 3, size: 10 };
    assert_eq!(r.summary(), "zlib: data=\"hi\", offset=3, size=2");
    let r = DetectResult::Zlib { data: vec![b'x'; 101], offset: 0, size: 20 };
    assert_eq!(
        r.summary(),
        format!("zlib: data=\"{}\"..., offset=0, size=101", "x".repeat(100))
    );
    let r = DetectResult::OpenStego {
        version: 1,
        data_len: 0x1a2b,
        channel_bits: 8,
        fname_len: 4,
        compress: 0,
        encrypt: 1,
        fname: "test".to_string(),
    };
    assert_eq!(
        r.summary(),
        "<ZSteg::Result::OpenStego version=1 data_len=0x1a2b channel_bits=8 fname_len=4 \
         compress=0 encrypt=1 fname=\"test\""
    );
    let r = DetectResult::WBStego {
        size: 16,
        ext: Some("png".to_string()),
        data_preview: vec![1, 2],
        enc: None,
        even: false,
    };
    assert_eq!(r.summary(), "<wbStego size=16, ext=\"png\", data=\"\\x01\\x02\"...>");
    let r = DetectResult::WBStego {
        size: 5,
        ext: None,
        data_preview: b"ab".to_vec(),
        enc: Some("Blowfish".to_string()),
        even: true,
    };
    assert_eq!(r.summary(), "<wbStego size=5, data=\"ab\"..., even=true, enc=\"Blowfish\">");
    let r = DetectResult::FileType("PNG image data".to_string());
    assert_eq!(r.summary(), "file: PNG image data");
    assert!(DetectResult::OneChar { ch: 0, size: 1 }.is_one_char());
    assert!(!r.is_one_char());
}

#[test]
fn file_classifier_is_there_only_if_enabled() {
    assert!(FileCmd::new(false).is_none());
    assert!(FileCmd::new(true).is_some());
}

#[test]
fn file_classifier_answers() {
    let fc = FileCmd::new(true).unwrap();
    let data = b"12345";
    assert!(fc.wants(data));
    assert!(!fc.wants(b"1234"));
    match fc.data2result(data, Some(b"PNG image data, 1 x 1\n")) {
        Some(DetectResult::FileType(desc)) => assert_eq!(desc, "PNG image data, 1 x 1"),
        other => panic!("unexpected {:?}", other),
    }
    match fc.data2result(data, Some(b"  \tZip archive data  \r\n")) {
        Some(DetectResult::FileType(desc)) => assert_eq!(desc, "Zip archive data"),
        other => panic!("unexpected {:?}", other),
    }
    assert!(fc.data2result(data, None).is_none());
    assert!(fc.data2result(data, Some(b"")).is_none());
    assert!(fc.data2result(data, Some(b"\n")).is_none());
    assert!(fc.data2result(b"1234", Some(b"PNG image data\n")).is_none());
}

#[test]
fn file_classifier_ignores_what_says_nothing() {
    let fc = FileCmd::new(true).unwrap();
    let ignored = [
        "data",
        "empty",
        "Sendmail frozen configuration - version 1",
        "DBase 3 data file (123 records)",
        "DOS executable (COM)",
        "Dyalog APL version 1",
        "8086 relocatable (Microsoft)",
        "SysEx File - ADA",
        "COM executable for DOS",
        "Non-ISO extended-ASCII text",
        "ISO-8859 text, with no line terminators",
        "very short file (no magic)",
        "International EBCDIC text",
        "lif file",
        "AmigaOS bitmap font",
        "a python script text executable",
        "database",
    ];
    for desc in ignored {
        let output = format!("{}\n", desc);
        assert!(fc.data2result(b"12345", Some(output.as_bytes())).is_none(), "{}", desc);
    }
    for desc in ["Data", "dat", "ASCII text", "an empty thing"] {
        let output = format!("{}\n", desc);
        assert!(fc.data2result(b"12345", Some(output.as_bytes())).is_some(), "{}", desc);
    }
}

#[test]
fn descriptions_are_judged() {
    match FileCmd::judge("JPEG image data".to_string()) {
        Some(DetectResult::FileType(desc)) => assert_eq!(desc, "JPEG image data"),
        other => panic!("unexpected {:?}", other),
    }
    assert!(FileCmd::judge(String::new()).is_none());
    assert!(FileCmd::judge("data".to_string()).is_none());
    assert!(FileCmd::judge("lif file".to_string()).is_none());
    assert!(FileCmd::judge(" data".to_string()).is_some());
}

fn tones(r: &DetectResult) -> Vec<Tone> {
    r.segments().iter().map(|p| p.tone).collect()
}

fn run(text: &str, offset: usize) -> DetectResult {
    DetectResult::PartialText { text: text.to_string(), offset }
}

fn file(desc: &str) -> DetectResult {
    DetectResult::FileType(desc.to_string())
}

#[test]
fn segments_spell_the_summary() {
    let all = [
        DetectResult::OneChar { ch: 0, size: 3 },
        DetectResult::WholeText("some text".to_string()),
        run("a run of text", 4),
        DetectResult::Zlib { data: vec![7; 150], offset: 1, size: 9 },
        DetectResult::Zlib { data: vec![7; 3], offset: 1, size: 9 },
        DetectResult::OpenStego {
            version: 2,
            data_len: 300,
            channel_bits: 1,
            fname_len: 0,
            compress: 1,
            encrypt: 0,
            fname: String::new(),
        },
        DetectResult::WBStego {
            size: 9,
            ext: None,
            data_preview: vec![1],
            enc: None,
            even: false,
        },
        file("PC bitmap"),
        file("DBase 3 data file"),
        file("something else"),
    ];
    for r in &all {
        let spelled: String = r.segments().iter().map(|p| p.text.as_str()).collect();
        assert_eq!(spelled, r.summary());
    }
}

#[test]
fn tones_of_findings() {
    assert_eq!(tones(&DetectResult::OneChar { ch: 0, size: 3 }), vec![Tone::Gray]);
    assert_eq!(
        DetectResult::WholeText("hi".to_string()).segments(),
        vec![
            Segment { tone: Tone::Gray, text: "text: ".to_string() },
            Segment { tone: Tone::Red, text: "\"hi\"".to_string() },
        ]
    );
    assert_eq!(
        tones(&DetectResult::Zlib { data: vec![7; 3], offset: 1, size: 9 }),
        vec![Tone::Plain, Tone::Red, Tone::Plain]
    );
    let wb = |ext: Option<&str>, enc: Option<&str>| DetectResult::WBStego {
        size: 9,
        ext: ext.map(|e| e.to_string()),
        data_preview: vec![1],
        enc: enc.map(|e| e.to_string()),
        even: false,
    };
    assert_eq!(tones(&wb(Some("3gp"), None)), vec![Tone::Red]);
    assert_eq!(tones(&wb(Some("3gp"), Some("Blowfish"))), vec![Tone::Gray]);
    assert_eq!(tones(&wb(None, None)), vec![Tone::Gray]);
}

#[test]
fn tones_of_text_runs() {
    assert_eq!(tones(&run("x", 0)), vec![Tone::Gray, Tone::Red]);
    assert_eq!(tones(&run("hello world, ok", 5)), vec![Tone::Gray, Tone::Red]);
    assert_eq!(tones(&run("Line one.\r\nLine_two: 2!", 5)), vec![Tone::Gray, Tone::Red]);
    // No space, too short, or a character that is no prose.
    assert_eq!(tones(&run("helloworld!!", 5)), vec![Tone::Gray, Tone::Plain]);
    assert_eq!(tones(&run("hi there!!", 5)), vec![Tone::Gray, Tone::Plain]);
    assert_eq!(tones(&run("hello world #1", 5)), vec![Tone::Gray, Tone::Plain]);
    assert_eq!(tones(&run("hello world (1)", 5)), vec![Tone::Gray, Tone::Plain]);
}

#[test]
fn tones_of_file_types() {
    for desc in [
        "PC bitmap, Windows 3.x format",
        "JPEG image data",
        "a PDF document",
        "Zip archive data",
        "old\tRAR archive",
        "7-zip archive data",
        "7z archive",
        "zipped",
    ] {
        assert_eq!(tones(&file(desc)), vec![Tone::Plain, Tone::Red], "{}", desc);
    }
    for desc in ["ASCII text", "gzip compressed data", "a-zip", "x7z", ""] {
        assert_eq!(tones(&file(desc)), vec![Tone::Plain, Tone::Yellow], "{}", desc);
    }
    for desc in ["DBase 3 data file", "old dbase 3 data", "a zip of DBASE 3 DATA"] {
        assert_eq!(tones(&file(desc)), vec![Tone::Gray], "{}", desc);
    }
    assert_eq!(file("PC bitmap").segments()[1].text, "PC bitmap");
}

#[test]
fn reporter_follows_the_verbosity() {
    let data = b"some data".to_vec();
    let text = || Some(DetectResult::WholeText("some data".to_string()));
    let dull = || Some(DetectResult::OneChar { ch: 0, size: 9 });

    // Normal verbosity: only what is of interest, without a dump.
    let mut r = Reporter::new();
    assert!(!r.conclude(0, 256, "a".to_string(), &data, true, None));
    assert!(!r.conclude(0, 256, "b".to_string(), &data, true, dull()));
    assert!(r.conclude(-1, 256, "c".to_string(), &data, false, text()));
    assert_eq!(r.count(), 1);
    assert_eq!(r.printed().len(), 2);
    assert!(matches!(&r.printed()[0], Output::Title(t) if t == "c"));
    assert!(matches!(&r.printed()[1], Output::Finding(0)));

    // Raised verbosity: every finding with a dump, the label if it is always shown.
    let mut r = Reporter::new();
    assert!(!r.conclude(1, 4, "a".to_string(), &data, true, None));
    assert!(!r.conclude(1, 4, "b".to_string(), &data, false, None));
    assert!(r.conclude(1, 4, "c".to_string(), &data, false, dull()));
    assert_eq!(r.count(), 1);
    let shown = r.printed();
    assert_eq!(shown.len(), 4);
    assert!(matches!(&shown[0], Output::Title(t) if t == "a"));
    assert!(matches!(&shown[1], Output::Title(t) if t == "c"));
    assert!(matches!(&shown[2], Output::Finding(0)));
    assert!(matches!(&shown[3], Output::Dump(d) if d == &zsteg::hexdump::dump(4, &data, 4)));

    // Highest verbosity: a dump also without a finding, and duplicates.
    let mut r = Reporter::new();
    assert!(r.conclude(2, 0, "a".to_string(), &data, false, None));
    assert_eq!(r.printed().len(), 1);
    assert!(matches!(&r.printed()[0], Output::Dump(_)));
    assert!(r.duplicate(2, "b".to_string(), "a".to_string()));
    assert!(!r.duplicate(1, "c".to_string(), "a".to_string()));
    assert_eq!(r.printed().len(), 3);
    assert!(matches!(&r.printed()[2], Output::SameAs(t) if t == "a"));

    r.emit(Output::Nothing);
    r.keep(DetectResult::FileType("x".to_string()));
    let (findings, output) = r.into_parts();
    assert_eq!(findings.len(), 1);
    assert_eq!(output.len(), 5);
    assert!(matches!(&output[4], Output::Finding(0)));
}

#[test]
fn text_helpers() {
    let mut s = String::from("n=");
    push_decimal(&mut s, 0);
    push_decimal(&mut s, 40961);
    push_decimal(&mut s, u64::MAX);
    assert_eq!(s, "n=04096118446744073709551615");
    let chars = str_chars("a\u{e9}z");
    assert_eq!(chars, vec!['a', '\u{e9}', 'z']);
    assert!(has_prefix(&chars, "a\u{e9}"));
    assert!(has_prefix(&chars, ""));
    assert!(!has_prefix(&chars, "az"));
    assert!(!has_prefix(&chars, "a\u{e9}zz"));
    assert!(is_word(&chars, "a\u{e9}z"));
    assert!(!is_word(&chars, "a\u{e9}"));
    assert!(word_at(&chars, "z", 2));
    assert!(word_at(&chars, "", 3));
    assert!(!word_at(&chars, "z", 3));
    assert!(!word_at(&chars, "\u{e9}z!", 1));
}

#[test]
fn bytes_are_read_as_text() {
    assert_eq!(text_of(b"plain ASCII\n"), "plain ASCII\n");
    assert_eq!(text_of(b""), "");
    assert_eq!(text_of("gr\u{fc}n \u{8d8a}".as_bytes()), "gr\u{fc}n \u{8d8a}");
    assert_eq!(text_of(&[b'a', 0xFF, b'b']), "a\u{fffd}b");
    assert_eq!(text_of(&[0xC3]), "\u{fffd}");
}
