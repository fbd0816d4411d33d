//! What the detector chain can find.

use vstd::prelude::*;
use vstd::slice::slice_subrange;
use vstd::string::StringExecFns;
use crate::hexdump::{hex_lower, hex_numeral};
use crate::text::{
    ascii_chars, debug_string, debug_text, decimal, is_ascii_bytes, is_white, lossy_string,
    lowercase_string, lowercased, push_decimal, stands_at, str_chars, white, word_at,
};

verus! {

/// One finding of the detector chain.
#[derive(Debug, Clone)]
pub enum DetectResult {
    /// Every byte is `ch`, `size` times.
    OneChar { ch: u8, size: usize },
    /// The whole buffer is text.
    WholeText(String),
    /// A run of text that starts at `offset`.
    PartialText { text: String, offset: usize },
    /// A zlib stream that starts at `offset`; `size` bytes of input lie
    /// behind that offset, and `data` is what they inflate to.
    Zlib { data: Vec<u8>, offset: usize, size: usize },
    /// The header that OpenStego writes in front of its payload.
    OpenStego {
        version: u8,
        data_len: u32,
        channel_bits: u8,
        fname_len: u8,
        compress: u8,
        encrypt: u8,
        fname: String,
    },
    /// The header that wbStego writes in front of its payload.
    WBStego {
        size: u32,
        ext: Option<String>,
        data_preview: Vec<u8>,
        enc: Option<String>,
        even: bool,
    },
    /// What the file-type classifier says.
    FileType(String),
}

/// Mathematical counterpart of [`DetectResult`].
pub enum DetectResultView {
    OneChar { ch: u8, size: nat },
    WholeText(Seq<char>),
    PartialText { text: Seq<char>, offset: nat },
    Zlib { data: Seq<u8>, offset: nat, size: nat },
    OpenStego {
        version: u8,
        data_len: u32,
        channel_bits: u8,
        fname_len: u8,
        compress: u8,
        encrypt: u8,
        fname: Seq<char>,
    },
    WBStego {
        size: u32,
        ext: Option<Seq<char>>,
        data_preview: Seq<u8>,
        enc: Option<Seq<char>>,
        even: bool,
    },
    FileType(Seq<char>),
}

/// The view of an optional string.
pub open spec fn opt_text(s: Option<String>) -> Option<Seq<char>> {
    match s {
        Some(t) => Some(t@),
        None => None,
    }
}

impl View for DetectResult {
    type V = DetectResultView;

    open spec fn view(&self) -> DetectResultView {
        match self {
            DetectResult::OneChar { ch, size } => DetectResultView::OneChar {
                ch: *ch,
                size: *size as nat,
            },
            DetectResult::WholeText(s) => DetectResultView::WholeText(s@),
            DetectResult::PartialText { text, offset } => DetectResultView::PartialText {
                text: text@,
                offset: *offset as nat,
            },
            DetectResult::Zlib { data, offset, size } => DetectResultView::Zlib {
                data: data@,
                offset: *offset as nat,
                size: *size as nat,
            },
            DetectResult::OpenStego {
                version,
                data_len,
                channel_bits,
                fname_len,
                compress,
                encrypt,
                fname,
            } => DetectResultView::OpenStego {
                version: *version,
                data_len: *data_len,
                channel_bits: *channel_bits,
                fname_len: *fname_len,
                compress: *compress,
                encrypt: *encrypt,
                fname: fname@,
            },
            DetectResult::WBStego { size, ext, data_preview, enc, even } => DetectResultView::WBStego {
                size: *size,
                ext: opt_text(*ext),
                data_preview: data_preview@,
                enc: opt_text(*enc),
                even: *even,
            },
            DetectResult::FileType(s) => DetectResultView::FileType(s@),
        }
    }
}

/// The view of an optional finding.
pub open spec fn opt_view(r: Option<DetectResult>) -> Option<DetectResultView> {
    match r {
        Some(d) => Some(d@),
        None => None,
    }
}

impl DetectResult {
    /// Whether the finding is a repeated single byte, which a scan takes to
    /// be of no interest.
    pub fn is_one_char(&self) -> (r: bool)
        ensures
            r == (self@ is OneChar),
    {
        match self {
            DetectResult::OneChar { .. } => true,
            _ => false,
        }
    }
}

// ---------------------------------------------------------------------------
// Rendering
// ---------------------------------------------------------------------------
/// The upper-case hexadecimal digit of a number below 16.
pub open spec fn hex_upper(d: nat) -> u8 {
    if d < 10 {
        (0x30 + d) as u8
    } else {
        (0x41 + d - 10) as u8
    }
}

/// How one byte is written in a preview: printable ASCII as it is, but for
/// the backslash and the double quote, which get a backslash in front; the
/// usual control characters as a backslash and a letter; everything else as
/// `\x` and two upper-case hexadecimal digits.
pub open spec fn escaped_byte(b: u8) -> Seq<u8> {
    if b == 0x0A {
        seq![0x5Cu8, 0x6Eu8]
    } else if b == 0x0D {
        seq![0x5Cu8, 0x72u8]
    } else if b == 0x09 {
        seq![0x5Cu8, 0x74u8]
    } else if b == 0x5C {
        seq![0x5Cu8, 0x5Cu8]
    } else if b == 0x22 {
        seq![0x5Cu8, 0x22u8]
    } else if b == 0x07 {
        seq![0x5Cu8, 0x61u8]
    } else if b == 0x08 {
        seq![0x5Cu8, 0x62u8]
    } else if b == 0x0B {
        seq![0x5Cu8, 0x76u8]
    } else if b == 0x0C {
        seq![0x5Cu8, 0x66u8]
    } else if b == 0x1B {
        seq![0x5Cu8, 0x65u8]
    } else if 0x20 <= b <= 0x7e {
        seq![b]
    } else {
        seq![0x5Cu8, 0x78u8, hex_upper((b / 16) as nat), hex_upper((b % 16) as nat)]
    }
}

/// The bytes of a sequence, each as it is written in a preview.
pub open spec fn escaped_bytes(data: Seq<u8>) -> Seq<u8>
    decreases data.len(),
{
    if data.len() == 0 {
        Seq::empty()
    } else {
        escaped_bytes(data.drop_last()) + escaped_byte(data.last())
    }
}

/// A preview of a byte sequence: its bytes as they are written in a
/// preview, between double quotes.
pub open spec fn escaped(data: Seq<u8>) -> Seq<u8> {
    seq![0x22u8] + escaped_bytes(data) + seq![0x22u8]
}

fn upper_digit(d: u8) -> (c: u8)
    requires
        d < 16,
    ensures
        c == hex_upper(d as nat),
        c < 0x80,
{
    if d < 10 {
        0x30 + d
    } else {
        0x41 + (d - 10)
    }
}

fn push_escaped(out: &mut Vec<u8>, b: u8)
    requires
        is_ascii_bytes(old(out)@),
    ensures
        final(out)@ == old(out)@ + escaped_byte(b),
        is_ascii_bytes(final(out)@),
{
    let ghost base = out@;
    if b == 0x0A {
        out.push(0x5C);
        out.push(0x6E);
    } else if b == 0x0D {
        out.push(0x5C);
        out.push(0x72);
    } else if b == 0x09 {
        out.push(0x5C);
        out.push(0x74);
    } else if b == 0x5C {
        out.push(0x5C);
        out.push(0x5C);
    } else if b == 0x22 {
        out.push(0x5C);
        out.push(0x22);
    } else if b == 0x07 {
        out.push(0x5C);
        out.push(0x61);
    } else if b == 0x08 {
        out.push(0x5C);
        out.push(0x62);
    } else if b == 0x0B {
        out.push(0x5C);
        out.push(0x76);
    } else if b == 0x0C {
        out.push(0x5C);
        out.push(0x66);
    } else if b == 0x1B {
        out.push(0x5C);
        out.push(0x65);
    } else if 0x20 <= b && b <= 0x7e {
        out.push(b);
    } else {
        out.push(0x5C);
        out.push(0x78);
        out.push(upper_digit(b / 16));
        out.push(upper_digit(b % 16));
    }
    assert(out@ =~= base + escaped_byte(b));
}

/// Writes a byte sequence as a preview: between double quotes, with
/// escapes for everything that is not printable ASCII.
pub fn escape_bytes_to_string(data: &[u8]) -> (s: String)
    ensures
        s@ == ascii_chars(escaped(data@)),
{
    let mut out: Vec<u8> = Vec::new();
    out.push(0x22);
    let mut i: usize = 0;
    assert(data@.take(0) =~= Seq::<u8>::empty());
    assert(out@ =~= seq![0x22u8] + escaped_bytes(data@.take(0)));
    while i < data.len()
        invariant
            i <= data.len(),
            out@ == seq![0x22u8] + escaped_bytes(data@.take(i as int)),
            is_ascii_bytes(out@),
        decreases data.len() - i,
    {
        push_escaped(&mut out, data[i]);
        proof {
            let next = data@.take(i + 1);
            assert(next.drop_last() =~= data@.take(i as int));
            assert(next.last() == data@[i as int]);
            assert(out@ =~= seq![0x22u8] + escaped_bytes(next));
        }
        i = i + 1;
    }
    assert(data@.take(data.len() as int) =~= data@);
    out.push(0x22);
    assert(out@ =~= escaped(data@));
    lossy_string(out.as_slice())
}

fn push_hex(out: &mut Vec<u8>, n: u64)
    requires
        is_ascii_bytes(old(out)@),
    ensures
        final(out)@ == old(out)@ + hex_numeral(n as nat),
        is_ascii_bytes(final(out)@),
    decreases n,
{
    if n >= 16 {
        push_hex(out, n / 16);
    }
    let d = (n % 16) as u8;
    let c = if d < 10 {
        0x30 + d
    } else {
        0x61 + (d - 10)
    };
    out.push(c);
    proof {
        assert(c == hex_lower(d as nat));
        if n < 16 {
            assert(hex_numeral(n as nat) =~= seq![c]);
        } else {
            assert(hex_numeral(n as nat) =~= hex_numeral((n / 16) as nat).push(c));
        }
        assert(final(out)@ =~= old(out)@ + hex_numeral(n as nat));
    }
}

/// The first hundred bytes of the data, or all of it if it is shorter.
pub open spec fn zlib_preview(data: Seq<u8>) -> Seq<u8> {
    if data.len() > 100 {
        data.take(100)
    } else {
        data
    }
}

/// An optional part of the wbStego line: a comma, a name and the quoted
/// text, or nothing.
pub open spec fn quoted_part(name: Seq<char>, text: Option<Seq<char>>) -> Seq<char> {
    match text {
        Some(t) => name + debug_text(t),
        None => Seq::empty(),
    }
}

/// The line that describes a finding.
pub open spec fn spec_summary(r: DetectResultView) -> Seq<char> {
    match r {
        DetectResultView::OneChar { ch, size } => "[0x"@ + ascii_chars(
            seq![hex_upper((ch / 16) as nat), hex_upper((ch % 16) as nat)],
        ) + "] repeated "@ + decimal(size) + " times"@,
        DetectResultView::WholeText(s) => "text: "@ + debug_text(s),
        DetectResultView::PartialText { text, offset } => "text: "@ + debug_text(text),
        DetectResultView::Zlib { data, offset, size } => "zlib: data="@ + ascii_chars(
            escaped(zlib_preview(data)),
        ) + (if data.len() > 100 {
            "..."@
        } else {
            Seq::empty()
        }) + ", offset="@ + decimal(offset) + ", size="@ + decimal(data.len()),
        DetectResultView::OpenStego {
            version,
            data_len,
            channel_bits,
            fname_len,
            compress,
            encrypt,
            fname,
        } => "<ZSteg::Result::OpenStego version="@ + decimal(version as nat) + " data_len=0x"@
            + ascii_chars(hex_numeral(data_len as nat)) + " channel_bits="@ + decimal(
            channel_bits as nat,
        ) + " fname_len="@ + decimal(fname_len as nat) + " compress="@ + decimal(compress as nat)
            + " encrypt="@ + decimal(encrypt as nat) + " fname="@ + debug_text(fname),
        DetectResultView::WBStego { size, ext, data_preview, enc, even } => "<wbStego size="@
            + decimal(size as nat) + quoted_part(", ext="@, ext) + ", data="@ + ascii_chars(
            escaped(data_preview),
        ) + "..."@ + (if even {
            ", even=true"@
        } else {
            Seq::empty()
        }) + quoted_part(", enc="@, enc) + ">"@,
        DetectResultView::FileType(desc) => "file: "@ + desc,
    }
}

fn push_quoted(out: &mut String, name: &str, text: &Option<String>)
    ensures
        final(out)@ == old(out)@ + quoted_part(name@, opt_text(*text)),
{
    match text {
        Some(t) => {
            out.append(name);
            let q = debug_string(t.as_str());
            out.append(q.as_str());
            assert(out@ =~= old(out)@ + (name@ + debug_text(t@)));
        },
        None => {
            assert(out@ =~= old(out)@ + Seq::<char>::empty());
        },
    }
}

impl DetectResult {
    /// The line that describes the finding, without colours.
    pub fn summary(&self) -> (s: String)
        ensures
            s@ == spec_summary(self@),
    {
        match self {
            DetectResult::OneChar { ch, size } => {
                let mut s = String::from_str("[0x");
                let digits = vec![upper_digit(*ch / 16), upper_digit(*ch % 16)];
                assert(digits@ =~= seq![
                    hex_upper((*ch / 16) as nat),
                    hex_upper((*ch % 16) as nat),
                ]);
                let hex = lossy_string(digits.as_slice());
                s.append(hex.as_str());
                s.append("] repeated ");
                push_decimal(&mut s, *size as u64);
                s.append(" times");
                s
            },
            DetectResult::WholeText(text) => {
                let mut s = String::from_str("text: ");
                let q = debug_string(text.as_str());
                s.append(q.as_str());
                s
            },
            DetectResult::PartialText { text, offset } => {
                let mut s = String::from_str("text: ");
                let q = debug_string(text.as_str());
                s.append(q.as_str());
                s
            },
            DetectResult::Zlib { data, offset, size } => {
                let mut s = String::from_str("zlib: data=");
                let shown = if data.len() > 100 {
                    slice_subrange(data.as_slice(), 0, 100)
                } else {
                    data.as_slice()
                };
                assert(shown@ =~= zlib_preview(data@));
                let preview = escape_bytes_to_string(shown);
                s.append(preview.as_str());
                let ghost head = s@;
                if data.len() > 100 {
                    s.append("...");
                } else {
                    assert(s@ =~= head + Seq::<char>::empty());
                }
                s.append(", offset=");
                push_decimal(&mut s, *offset as u64);
                s.append(", size=");
                push_decimal(&mut s, data.len() as u64);
                s
            },
            DetectResult::OpenStego {
                version,
                data_len,
                channel_bits,
                fname_len,
                compress,
                encrypt,
                fname,
            } => {
                let mut s = String::from_str("<ZSteg::Result::OpenStego version=");
                push_decimal(&mut s, *version as u64);
                s.append(" data_len=0x");
                let mut digits: Vec<u8> = Vec::new();
                push_hex(&mut digits, *data_len as u64);
                assert(digits@ =~= hex_numeral(*data_len as nat));
                let hex = lossy_string(digits.as_slice());
                s.append(hex.as_str());
                s.append(" channel_bits=");
                push_decimal(&mut s, *channel_bits as u64);
                s.append(" fname_len=");
                push_decimal(&mut s, *fname_len as u64);
                s.append(" compress=");
                push_decimal(&mut s, *compress as u64);
                s.append(" encrypt=");
                push_decimal(&mut s, *encrypt as u64);
                s.append(" fname=");
                let q = debug_string(fname.as_str());
                s.append(q.as_str());
                s
            },
            DetectResult::WBStego { size, ext, data_preview, enc, even } => {
                let mut s = String::from_str("<wbStego size=");
                push_decimal(&mut s, *size as u64);
                push_quoted(&mut s, ", ext=", ext);
                s.append(", data=");
                let preview = escape_bytes_to_string(data_preview.as_slice());
                s.append(preview.as_str());
                s.append("...");
                let ghost head = s@;
                if *even {
                    s.append(", even=true");
                } else {
                    assert(s@ =~= head + Seq::<char>::empty());
                }
                push_quoted(&mut s, ", enc=", enc);
                s.append(">");
                s
            },
            DetectResult::FileType(desc) => {
                let mut s = String::from_str("file: ");
                s.append(desc.as_str());
                s
            },
        }
    }
}

// ---------------------------------------------------------------------------
// Tones
// ---------------------------------------------------------------------------
/// The tone in which a piece of a line is shown.
#[derive(Debug, Clone, Copy, PartialEq, Eq, Structural)]
pub enum Tone {
    /// As the terminal has it.
    Plain,
    /// Toned down.
    Gray,
    /// Brought out.
    Red,
    /// Marked as of some interest.
    Yellow,
}

/// A piece of a line with its tone.
#[derive(Debug, Clone, PartialEq, Eq)]
pub struct Segment {
    pub tone: Tone,
    pub text: String,
}

/// Mathematical counterpart of [`Segment`].
pub struct SegmentView {
    pub tone: Tone,
    pub text: Seq<char>,
}

impl View for Segment {
    type V = SegmentView;

    open spec fn view(&self) -> SegmentView {
        SegmentView { tone: self.tone, text: self.text@ }
    }
}

/// The views of a list of segments.
pub open spec fn segments_view(s: Seq<Segment>) -> Seq<SegmentView> {
    s.map_values(|p: Segment| p@)
}

/// A character of plain prose: an ASCII letter or digit, or one of the space,
/// `.`, `,`, `:`, `!`, `_`, `-`, CR, LF and TAB.
pub open spec fn is_prose_char(c: char) -> bool {
    ||| 'a' <= c <= 'z'
    ||| 'A' <= c <= 'Z'
    ||| '0' <= c <= '9'
    ||| c == ' '
    ||| c == '.'
    ||| c == ','
    ||| c == ':'
    ||| c == '!'
    ||| c == '_'
    ||| c == '-'
    ||| c == '\r'
    ||| c == '\n'
    ||| c == '\t'
}

/// A text that reads as prose: more than ten characters of plain prose, a
/// space among them.
pub open spec fn reads_as_prose(text: Seq<char>) -> bool {
    &&& text.len() > 10
    &&& text.contains(' ')
    &&& forall|i: int| 0 <= i < text.len() ==> is_prose_char(#[trigger] text[i])
}

/// Whether `needle` stands somewhere in `text`.
pub open spec fn mentions(text: Seq<char>, needle: Seq<char>) -> bool {
    exists|i: int| 0 <= i <= text.len() && #[trigger] stands_at(text, needle, i)
}

/// Whether a word starts at position `i`: a character that is not white
/// space, at the start of the text or behind white space.
pub open spec fn word_starts(text: Seq<char>, i: int) -> bool {
    &&& 0 <= i < text.len()
    &&& !is_white(text[i])
    &&& (i == 0 || is_white(text[i - 1]))
}

/// Whether one of the words that bring a description out stands at
/// position `i`.
pub open spec fn keyword_at(text: Seq<char>, i: int) -> bool {
    ||| stands_at(text, "bitmap"@, i)
    ||| stands_at(text, "jpeg"@, i)
    ||| stands_at(text, "pdf"@, i)
    ||| stands_at(text, "zip"@, i)
    ||| stands_at(text, "rar"@, i)
    ||| stands_at(text, "7z"@, i)
    ||| stands_at(text, "7-z"@, i)
}

/// Whether some word of the text starts with a keyword.
pub open spec fn has_keyword(text: Seq<char>) -> bool {
    exists|i: int| #[trigger] word_starts(text, i) && keyword_at(text, i)
}

/// The tone of a text run: brought out if it starts the data or reads as
/// prose.
pub open spec fn run_tone(text: Seq<char>, offset: nat) -> Tone {
    if offset == 0 || reads_as_prose(text) {
        Tone::Red
    } else {
        Tone::Plain
    }
}

/// The tail of the zlib line: the dots behind a preview that is cut, the
/// offset and the size.
pub open spec fn zlib_tail(data: Seq<u8>, offset: nat) -> Seq<char> {
    (if data.len() > 100 {
        "..."@
    } else {
        Seq::empty()
    }) + ", offset="@ + decimal(offset) + ", size="@ + decimal(data.len())
}

/// The line that describes a finding, in pieces with their tones.
pub open spec fn spec_segments(r: DetectResultView) -> Seq<SegmentView> {
    match r {
        DetectResultView::OneChar { .. } => seq![
            SegmentView { tone: Tone::Gray, text: spec_summary(r) },
        ],
        DetectResultView::WholeText(s) => seq![
            SegmentView { tone: Tone::Gray, text: "text: "@ },
            SegmentView { tone: Tone::Red, text: debug_text(s) },
        ],
        DetectResultView::PartialText { text, offset } => seq![
            SegmentView { tone: Tone::Gray, text: "text: "@ },
            SegmentView { tone: run_tone(text, offset), text: debug_text(text) },
        ],
        DetectResultView::Zlib { data, offset, size } => seq![
            SegmentView { tone: Tone::Plain, text: "zlib: data="@ },
            SegmentView { tone: Tone::Red, text: ascii_chars(escaped(zlib_preview(data))) },
            SegmentView { tone: Tone::Plain, text: zlib_tail(data, offset) },
        ],
        DetectResultView::OpenStego { .. } => seq![
            SegmentView { tone: Tone::Red, text: spec_summary(r) },
        ],
        DetectResultView::WBStego { ext, enc, .. } => seq![
            SegmentView {
                tone: if ext is Some && enc is None {
                    Tone::Red
                } else {
                    Tone::Gray
                },
                text: spec_summary(r),
            },
        ],
        DetectResultView::FileType(desc) => if mentions(lowercased(desc), "dbase 3 data"@) {
            seq![SegmentView { tone: Tone::Gray, text: spec_summary(r) }]
        } else {
            seq![
                SegmentView { tone: Tone::Plain, text: "file: "@ },
                SegmentView {
                    tone: if has_keyword(lowercased(desc)) {
                        Tone::Red
                    } else {
                        Tone::Yellow
                    },
                    text: desc,
                },
            ]
        },
    }
}

/// The texts of a list of segments, one behind the other.
pub open spec fn spelled(parts: Seq<SegmentView>) -> Seq<char>
    decreases parts.len(),
{
    if parts.len() == 0 {
        Seq::empty()
    } else {
        spelled(parts.drop_last()) + parts.last().text
    }
}

proof fn lemma_spelled_one(a: SegmentView)
    ensures
        spelled(seq![a]) == a.text,
{
    let parts = seq![a];
    assert(parts.drop_last() =~= Seq::<SegmentView>::empty());
    assert(spelled(Seq::<SegmentView>::empty()) == Seq::<char>::empty());
    assert(parts.last() == a);
    assert(Seq::<char>::empty() + a.text =~= a.text);
}

proof fn lemma_spelled_two(a: SegmentView, b: SegmentView)
    ensures
        spelled(seq![a, b]) == a.text + b.text,
{
    let parts = seq![a, b];
    assert(parts.drop_last() =~= seq![a]);
    assert(parts.last() == b);
    lemma_spelled_one(a);
}

proof fn lemma_spelled_three(a: SegmentView, b: SegmentView, c: SegmentView)
    ensures
        spelled(seq![a, b, c]) == a.text + b.text + c.text,
{
    let parts = seq![a, b, c];
    assert(parts.drop_last() =~= seq![a, b]);
    assert(parts.last() == c);
    lemma_spelled_two(a, b);
}

/// The pieces of a line spell the line.
pub proof fn lemma_segments_spell_summary(r: DetectResultView)
    ensures
        spelled(spec_segments(r)) == spec_summary(r),
{
    let parts = spec_segments(r);
    if parts.len() == 1 {
        assert(parts =~= seq![parts[0]]);
        lemma_spelled_one(parts[0]);
    } else if parts.len() == 2 {
        assert(parts =~= seq![parts[0], parts[1]]);
        lemma_spelled_two(parts[0], parts[1]);
    } else {
        assert(parts =~= seq![parts[0], parts[1], parts[2]]);
        lemma_spelled_three(parts[0], parts[1], parts[2]);
        match r {
            DetectResultView::Zlib { data, offset, size } => {
                let a = "zlib: data="@;
                let b = ascii_chars(escaped(zlib_preview(data)));
                let dots = if data.len() > 100 {
                    "..."@
                } else {
                    Seq::<char>::empty()
                };
                assert(a + b + (dots + ", offset="@ + decimal(offset) + ", size="@ + decimal(
                    data.len(),
                )) =~= a + b + dots + ", offset="@ + decimal(offset) + ", size="@ + decimal(
                    data.len(),
                ));
            },
            _ => {},
        }
    }
}

fn prose(chars: &Vec<char>) -> (r: bool)
    ensures
        r == reads_as_prose(chars@),
{
    if chars.len() <= 10 {
        return false;
    }
    let mut spaced = false;
    let mut i: usize = 0;
    while i < chars.len()
        invariant
            i <= chars.len(),
            spaced == chars@.take(i as int).contains(' '),
            forall|k: int| 0 <= k < i ==> is_prose_char(#[trigger] chars@[k]),
        decreases chars.len() - i,
    {
        let c = chars[i];
        let plain = ('a' <= c && c <= 'z') || ('A' <= c && c <= 'Z') || ('0' <= c && c <= '9') || c
            == ' ' || c == '.' || c == ',' || c == ':' || c == '!' || c == '_' || c == '-' || c
            == '\r' || c == '\n' || c == '\t';
        if !plain {
            return false;
        }
        proof {
            let before = chars@.take(i as int);
            let after = chars@.take(i + 1);
            assert(after =~= before.push(c));
            if c == ' ' {
                assert(after[i as int] == ' ');
            } else if after.contains(' ') {
                let k = choose|k: int| 0 <= k < after.len() && after[k] == ' ';
                assert(before[k] == ' ');
            } else if before.contains(' ') {
                let k = choose|k: int| 0 <= k < before.len() && before[k] == ' ';
                assert(after[k] == ' ');
            }
        }
        if c == ' ' {
            spaced = true;
        }
        i = i + 1;
    }
    assert(chars@.take(chars.len() as int) =~= chars@);
    spaced
}

fn mentions_word(chars: &Vec<char>, word: &str) -> (r: bool)
    ensures
        r == mentions(chars@, word@),
{
    let mut i: usize = 0;
    while i < chars.len()
        invariant
            i <= chars.len(),
            forall|k: int| 0 <= k < i ==> !#[trigger] stands_at(chars@, word@, k),
        decreases chars.len() - i,
    {
        if word_at(chars, word, i) {
            return true;
        }
        i = i + 1;
    }
    word_at(chars, word, i)
}

fn keyword_here(chars: &Vec<char>, i: usize) -> (r: bool)
    requires
        i <= chars.len(),
    ensures
        r == keyword_at(chars@, i as int),
{
    word_at(chars, "bitmap", i) || word_at(chars, "jpeg", i) || word_at(chars, "pdf", i)
        || word_at(chars, "zip", i) || word_at(chars, "rar", i) || word_at(chars, "7z", i)
        || word_at(chars, "7-z", i)
}

fn keyword_word(chars: &Vec<char>) -> (r: bool)
    ensures
        r == has_keyword(chars@),
{
    let mut i: usize = 0;
    let mut after_space = true;
    while i < chars.len()
        invariant
            i <= chars.len(),
            after_space == (i == 0 || is_white(chars@[i - 1])),
            forall|k: int| 0 <= k < i ==> !(#[trigger] word_starts(chars@, k) && keyword_at(
                chars@,
                k,
            )),
        decreases chars.len() - i,
    {
        let space = white(chars[i]);
        if after_space && !space && keyword_here(chars, i) {
            assert(word_starts(chars@, i as int));
            return true;
        }
        after_space = space;
        i = i + 1;
    }
    false
}

fn segment(tone: Tone, text: String) -> (p: Segment)
    ensures
        p@ == (SegmentView { tone, text: text@ }),
{
    Segment { tone, text }
}

impl DetectResult {
    /// The line that describes the finding, in pieces with their tones.
    pub fn segments(&self) -> (parts: Vec<Segment>)
        ensures
            segments_view(parts@) == spec_segments(self@),
    {
        let parts = match self {
            DetectResult::OneChar { .. } => vec![segment(Tone::Gray, self.summary())],
            DetectResult::WholeText(text) => vec![
                segment(Tone::Gray, String::from_str("text: ")),
                segment(Tone::Red, debug_string(text.as_str())),
            ],
            DetectResult::PartialText { text, offset } => {
                let tone = if *offset == 0 || prose(&str_chars(text.as_str())) {
                    Tone::Red
                } else {
                    Tone::Plain
                };
                vec![
                    segment(Tone::Gray, String::from_str("text: ")),
                    segment(tone, debug_string(text.as_str())),
                ]
            },
            DetectResult::Zlib { data, offset, size } => {
                let shown = if data.len() > 100 {
                    slice_subrange(data.as_slice(), 0, 100)
                } else {
                    data.as_slice()
                };
                assert(shown@ =~= zlib_preview(data@));
                let mut tail = String::new();
                if data.len() > 100 {
                    tail.append("...");
                }
                tail.append(", offset=");
                push_decimal(&mut tail, *offset as u64);
                tail.append(", size=");
                push_decimal(&mut tail, data.len() as u64);
                assert(tail@ =~= zlib_tail(data@, *offset as nat)) by {
                    assert(Seq::<char>::empty() + "..."@ =~= "..."@);
                }
                vec![
                    segment(Tone::Plain, String::from_str("zlib: data=")),
                    segment(Tone::Red, escape_bytes_to_string(shown)),
                    segment(Tone::Plain, tail),
                ]
            },
            DetectResult::OpenStego { .. } => vec![segment(Tone::Red, self.summary())],
            DetectResult::WBStego { ext, enc, .. } => {
                let tone = if ext.is_some() && enc.is_none() {
                    Tone::Red
                } else {
                    Tone::Gray
                };
                vec![segment(tone, self.summary())]
            },
            DetectResult::FileType(desc) => {
                let low = str_chars(lowercase_string(desc.as_str()).as_str());
                if mentions_word(&low, "dbase 3 data") {
                    vec![segment(Tone::Gray, self.summary())]
                } else {
                    let tone = if keyword_word(&low) {
                        Tone::Red
                    } else {
                        Tone::Yellow
                    };
                    vec![
                        segment(Tone::Plain, String::from_str("file: ")),
                        segment(tone, desc.clone()),
                    ]
                }
            },
        };
        assert(segments_view(parts@) =~= spec_segments(self@));
        parts
    }
}

} // verus!
