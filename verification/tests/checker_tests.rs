use zsteg::checker::{Checker, Step};
use zsteg::scan::Job;
use zsteg::imageio::{Image, ImgFormat, PngChunk};
use zsteg::opts::{BitOrder, Options, OrderSpec, PrimeSpec};
use zsteg::plan::{default_channels, sweep, Combination};
use zsteg::report::Output;
use zsteg::result::DetectResult;
use zsteg::seen::Seen;

/// Sixteen by sixteen pixels whose lowest red bits spell `text`.
fn carrier(text: &[u8; 32]) -> Image {
    let mut pixels = Vec::new();
    for byte in text {
        for bit in (0..8).rev() {
            pixels.extend_from_slice(&[0xFE | ((byte >> bit) & 1), 0, 0, 0xFF]);
        }
    }
    Image {
        format: ImgFormat::Png,
        width: 16,
        height: 16,
        pixels,
        imagedata: vec![0; 16 * 65],
        metadata: Vec::new(),
        chunks: Vec::new(),
        extradata: Vec::new(),
    }
}

fn blank() -> Image {
    Image {
        format: ImgFormat::Png,
        width: 4,
        height: 4,
        pixels: vec![0; 64],
        imagedata: vec![0; 68],
        metadata: Vec::new(),
        chunks: Vec::new(),
        extradata: Vec::new(),
    }
}

fn quiet() -> Options {
    Options { file_cmd: false, ..Options::default() }
}

fn titles(output: &[Output]) -> Vec<String> {
    output
        .iter()
        .filter_map(|o| match o {
            Output::Title(t) => Some(t.clone()),
            _ => None,
        })
        .collect()
}

#[test]
fn nothing_in_a_blank_image() {
    let image = blank();
    let options = quiet();
    let (results, output) = Checker::new(&image, &options).check();
    assert!(results.is_empty());
    assert_eq!(output.len(), 1);
    assert!(matches!(output[0], Output::Nothing));
}

#[test]
fn text_in_the_lowest_red_bits_is_found() {
    let image = carrier(b"this is a hidden message, ok?...");
    let options = quiet();
    let (results, output) = Checker::new(&image, &options).check();
    let found = results.iter().any(|r| match r {
        DetectResult::WholeText(t) => t == "this is a hidden message, ok?...",
        _ => false,
    });
    assert!(found, "{:?}", results);
    assert!(titles(&output).contains(&"b1,r,lsb,xy".to_string()));
    assert!(!output.iter().any(|o| matches!(o, Output::Nothing)));
}

#[test]
fn special_passes_come_first() {
    let mut image = blank();
    image.metadata.push(("Comment".to_string(), "a secret comment".to_string()));
    image.imagedata = b"raw data that reads as text".to_vec();
    image.extradata.push(Vec::new());
    image.extradata.push(b"trailing text behind the end".to_vec());
    image.chunks.push(PngChunk { ty: *b"IDAT", data: b"not looked at, pixel data".to_vec() });
    image.chunks.push(PngChunk { ty: *b"tEXt", data: b"abc".to_vec() });
    image.chunks.push(PngChunk { ty: *b"prVt", data: b"private chunk payload".to_vec() });
    let options = quiet();
    let (results, output) = Checker::new(&image, &options).check();
    let texts: Vec<String> = results
        .iter()
        .map(|r| match r {
            DetectResult::WholeText(t) => t.clone(),
            other => panic!("unexpected {:?}", other),
        })
        .collect();
    assert_eq!(
        texts,
        vec![
            "a secret comment",
            "raw data that reads as text",
            "trailing text behind the end",
            "private chunk payload",
        ]
    );
    assert_eq!(
        titles(&output),
        vec!["meta Comment", "imagedata", "extradata:1", "chunk:2:prVt"]
    );
    assert!(output.iter().any(|o| matches!(o, Output::ExtraNotice(28))));
    let dumped = zsteg::hexdump::dump(4, b"trailing text behind the end", 0);
    assert!(output.iter().any(|o| matches!(o, Output::ExtraDump(d) if d == &dumped)));
    assert!(!output.iter().any(|o| matches!(o, Output::Dump(_))));
    // The sweep behind the special passes showed nothing, so the line is cleared.
    assert!(matches!(output.last(), Some(Output::ClearLine)));
}

#[test]
fn a_repeated_byte_in_the_raw_data_is_of_no_interest() {
    let image = blank();
    let options = Options { verbose: 1, ..quiet() };
    let (results, output) = Checker::new(&image, &options).check();
    assert!(!titles(&output).contains(&"imagedata".to_string()));
    // At raised verbosity the sweep shows its repeated bytes.
    assert!(results.iter().all(|r| r.is_one_char()));
    assert!(!results.is_empty());
}

#[test]
fn the_same_bytes_are_classified_once() {
    let mut image = blank();
    image.metadata.push(("One".to_string(), "the same words".to_string()));
    image.metadata.push(("Two".to_string(), "the same words".to_string()));
    image.metadata.push(("Three".to_string(), "other words here".to_string()));
    let options = quiet();
    let (results, output) = Checker::new(&image, &options).check();
    assert_eq!(results.len(), 2);
    assert_eq!(titles(&output), vec!["meta One", "meta Three"]);

    let options = Options { verbose: 2, ..quiet() };
    let (results, output) = Checker::new(&image, &options).check();
    let texts = results.iter().filter(|r| matches!(r, DetectResult::WholeText(_))).count();
    assert_eq!(texts, 2);
    let at = output
        .iter()
        .position(|o| matches!(o, Output::Title(t) if t == "meta Two"))
        .expect("the duplicate is shown at the highest verbosity");
    assert!(matches!(&output[at + 1], Output::SameAs(t) if t == "meta One"));
}

#[test]
fn a_duplicate_names_the_first_of_its_kind() {
    // Every extraction from a blank image gives zero bytes of the same length
    // for its width: the first label with that content is the one referred to.
    let image = blank();
    let options = Options {
        verbose: 2,
        bits: Some(vec![1]),
        channels: Some(vec!["r".to_string(), "g".to_string(), "b".to_string()]),
        ..quiet()
    };
    let (_, output) = Checker::new(&image, &options).check();
    let same: Vec<&String> = output
        .iter()
        .filter_map(|o| match o {
            Output::SameAs(t) => Some(t),
            _ => None,
        })
        .collect();
    assert_eq!(same.len(), 5);
    assert!(same.iter().all(|t| *t == "b1,r,lsb,xy"));
}

#[test]
fn a_label_is_gone_through_once() {
    let image = blank();
    let options = Options {
        verbose: 2,
        order: OrderSpec::Explicit(vec!["xy".to_string(), "xy".to_string()]),
        bits: Some(vec![1, 1]),
        channels: Some(vec!["r".to_string()]),
        bit_order: Some(BitOrder::Lsb),
        ..quiet()
    };
    let checker = Checker::new(&image, &options);
    assert_eq!(sweep(&image, &options).len(), 4);
    let (_, output) = checker.check();
    let count = titles(&output).iter().filter(|t| *t == "b1,r,lsb,xy").count();
    assert_eq!(count, 1);
}

#[test]
fn the_driver_asks_for_the_file_classifier() {
    let mut image = blank();
    image.metadata.push(("Blob".to_string(), "\u{1}\u{2}binary\u{3}".to_string()));
    image.imagedata = (0..68).collect();
    let options = Options::default();
    let checker = Checker::new(&image, &options);
    let mut state = checker.begin();
    assert_eq!(checker.advance(&mut state, None), Step::AskFile);
    assert_eq!(state.asked().map(|d| d.as_slice()), Some(&b"\x01\x02binary\x03"[..]));
    assert!(!state.finished());
    // The answer settles the metadata; the raw data is asked about next.
    assert_eq!(checker.advance(&mut state, Some(b"Targa image data\n")), Step::AskFile);
    assert!(matches!(
        state.results().first(),
        Some(DetectResult::FileType(d)) if d == "Targa image data"
    ));
    assert_eq!(state.asked().map(|d| d.len()), Some(68));
    // An answer that says nothing leaves the raw data to the rest of the chain.
    assert_eq!(checker.advance(&mut state, Some(b"data\n")), Step::Done);
    assert!(state.finished());
    assert!(state.asked().is_none());
    assert_eq!(titles(state.printed()), vec!["meta Blob", "imagedata"]);
    let shown = state.printed().len();
    assert_eq!(checker.advance(&mut state, None), Step::Done);
    assert_eq!(state.printed().len(), shown);
    let (results, output) = state.into_parts();
    assert_eq!(output.len(), shown);
    assert_eq!(results.len(), 2);
    assert!(matches!(&results[1], DetectResult::PartialText { offset: 32, .. }));
}

#[test]
fn without_an_answer_the_chain_goes_on() {
    let mut image = blank();
    image.metadata.push(("Blob".to_string(), "\u{1}\u{2}binary text\u{3}".to_string()));
    let options = Options::default();
    let (results, _) = Checker::new(&image, &options).check();
    assert!(matches!(
        results.first(),
        Some(DetectResult::PartialText { text, offset: 2 }) if text == "binary text"
    ));
}

#[test]
fn jobs_are_laid_out_in_order() {
    let mut image = blank();
    image.metadata.push(("k".to_string(), "v".to_string()));
    image.extradata.push(vec![1]);
    image.chunks.push(PngChunk { ty: *b"IEND", data: Vec::new() });
    let options = Options { bits: Some(vec![2]), bit_order: Some(BitOrder::Msb), ..quiet() };
    let jobs = Checker::new(&image, &options).plan();
    assert_eq!(jobs.len(), 4 + 5);
    assert_eq!(jobs[0], Job::Meta(0));
    assert_eq!(jobs[1], Job::ImageData);
    assert_eq!(jobs[2], Job::Extra(0));
    assert_eq!(jobs[3], Job::Chunk(0));
    let first = Combination {
        order: "xy".to_string(),
        prime: false,
        bits: 2,
        channel: Some("r".to_string()),
        bit_order: BitOrder::Msb,
    };
    assert_eq!(jobs[4], Job::Sweep(first));
}

#[test]
fn the_sweep_goes_through_every_combination() {
    let image = blank();
    let combos = sweep(&image, &quiet());
    // One order, one filter state, four widths, five patterns, two bit orders.
    assert_eq!(combos.len(), 40);
    let labels: Vec<String> = combos.iter().map(|c| c.title()).collect();
    assert_eq!(labels[0], "b1,r,lsb,xy");
    assert_eq!(labels[1], "b1,r,msb,xy");
    assert_eq!(labels[2], "b1,g,lsb,xy");
    assert_eq!(labels[9], "b1,bgr,msb,xy");
    assert_eq!(labels[10], "b2,r,lsb,xy");
    assert_eq!(labels[39], "b4,bgr,msb,xy");

    let mut bmp = blank();
    bmp.format = ImgFormat::Bmp;
    let combos = sweep(&bmp, &quiet());
    // The byte walk has no channels: 4 * 2 combinations, then 40 for the pixels.
    assert_eq!(combos.len(), 48);
    assert_eq!(combos[0].title(), "b1,lsb,bY");
    assert_eq!(combos[7].title(), "b4,msb,bY");
    assert_eq!(combos[8].title(), "b1,r,lsb,xY");

    let all = Options { order: OrderSpec::All, prime: PrimeSpec::All, ..quiet() };
    assert_eq!(sweep(&image, &all).len(), 8 * 2 * 40);
    assert_eq!(sweep(&bmp, &all).len(), 8 * 2 * 8 + 8 * 2 * 40);
    let labels: Vec<String> = sweep(&image, &all).iter().map(|c| c.title()).collect();
    assert_eq!(labels[40], "b1,r,lsb,xy,prime");
    assert_eq!(labels[80], "b1,r,lsb,yx");
    let only = Options { prime: PrimeSpec::Only, ..quiet() };
    assert_eq!(sweep(&image, &only)[0].title(), "b1,r,lsb,xy,prime");
}

#[test]
fn default_channel_patterns() {
    assert_eq!(default_channels(), vec!["r", "g", "b", "rgb", "bgr"]);
}

#[test]
fn a_combination_is_extracted_as_its_label_says() {
    let image = carrier(b"0123456789abcdef0123456789abcdef");
    let options = Options { limit: 4, invert: false, ..quiet() };
    let c = Combination {
        order: "xy".to_string(),
        prime: false,
        bits: 1,
        channel: Some("r".to_string()),
        bit_order: BitOrder::Lsb,
    };
    let checker = Checker::new(&image, &options);
    let (title, data) = checker.prepare(&Job::Sweep(c)).unwrap();
    assert_eq!(title, "b1,r,lsb,xy");
    assert_eq!(data, b"0123");
    assert!(checker.prepare(&Job::ImageData).is_some());
}

#[test]
fn chunk_labels_name_index_and_type() {
    let mut image = blank();
    image.chunks.push(PngChunk { ty: *b"tEXt", data: b"12345".to_vec() });
    image.chunks.push(PngChunk { ty: [0xFF, 0xFE, 0x41, 0x42], data: b"123456".to_vec() });
    image.chunks.push(PngChunk { ty: *b"IDAT", data: b"123456".to_vec() });
    image.chunks.push(PngChunk { ty: *b"abcd", data: b"1234".to_vec() });
    let options = quiet();
    let checker = Checker::new(&image, &options);
    assert_eq!(checker.prepare(&Job::Chunk(0)).unwrap().0, "chunk:0:tEXt");
    assert_eq!(checker.prepare(&Job::Chunk(1)).unwrap().0, "chunk:1:????");
    assert!(checker.prepare(&Job::Chunk(2)).is_none());
    assert!(checker.prepare(&Job::Chunk(3)).is_none());
}

#[test]
fn memory_gives_the_first_label() {
    let mut seen = Seen::new();
    let a = "first".to_string();
    let b = "second".to_string();
    assert!(!seen.knows(&a));
    assert_eq!(seen.record(&vec![1, 2, 3], &a, true), None);
    assert!(seen.knows(&a));
    assert!(!seen.knows(&b));
    assert_eq!(seen.record(&vec![1, 2, 3], &b, true), Some("first".to_string()));
    assert!(seen.knows(&b));
    assert_eq!(seen.record(&vec![1, 2], &b, false), None);
    assert_eq!(seen.record(&vec![1, 2], &a, false), Some("second".to_string()));
    assert_eq!(seen.record(&vec![1, 2, 3], &a, false), Some("first".to_string()));
    assert_eq!(seen.record(&vec![], &a, false), None);
}

#[test]
fn a_combination_stands_for_an_extraction() {
    let options = Options { limit: 9, shift: Some(10), invert: true, ..quiet() };
    let c = Combination {
        order: "Yb".to_string(),
        prime: true,
        bits: 0x107,
        channel: None,
        bit_order: BitOrder::Msb,
    };
    let cfg = c.config(&options);
    assert_eq!(cfg.traversal, zsteg::extractor::Traversal::Bytes("Yb".to_string()));
    assert_eq!(cfg.channels, vec!['r', 'g', 'b']);
    assert_eq!(cfg.widths, vec![0x107]);
    assert_eq!(cfg.bit_order, BitOrder::Msb);
    assert!(cfg.prime_only);
    assert_eq!((cfg.limit, cfg.shift, cfg.invert), (9, 2, true));
    assert_eq!(c.title(), "b263,msb,Yb,prime");
    let c = Combination { order: "yX".to_string(), channel: Some("b3a1".to_string()), ..c };
    let cfg = c.config(&options);
    assert_eq!(cfg.traversal, zsteg::extractor::Traversal::Columns);
    assert_eq!(cfg.channels, vec!['b', 'a']);
    assert_eq!(cfg.per_channel, vec![3, 1]);
    assert_eq!(c.title(), "b263,b3a1,msb,yX,prime");
}
