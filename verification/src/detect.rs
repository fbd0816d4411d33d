//! The detector chain: an ordered list of rules, each of which looks at a
//! byte sequence and either names what it is or passes.

use vstd::prelude::*;
use vstd::slice::{slice_subrange, slice_to_vec};
use vstd::string::StringExecFns;
use crate::opts::{BitOrder, Options};
use crate::result::{opt_view, DetectResult, DetectResultView};
use crate::text::{ascii_chars, decimal, lossy_string, lossy_text, push_decimal, text_of};
use crate::zlib::{inflate, opt_bytes, zlib_inflated};

verus! {

// ---------------------------------------------------------------------------
// Rule: one repeated byte
// ---------------------------------------------------------------------------
/// A non-empty sequence of one repeated byte is `OneChar`.
pub open spec fn spec_one_char(data: Seq<u8>) -> Option<DetectResultView> {
    if data.len() > 0 && (forall|i: int| 0 <= i < data.len() ==> #[trigger] data[i] == data[0]) {
        Some(DetectResultView::OneChar { ch: data[0], size: data.len() })
    } else {
        None
    }
}

/// Whether every byte equals the first.
pub fn one_char(data: &[u8]) -> (r: Option<DetectResult>)
    ensures
        opt_view(r) == spec_one_char(data@),
{
    if data.len() == 0 {
        return None;
    }
    let first = data[0];
    let mut i: usize = 1;
    while i < data.len()
        invariant
            1 <= i <= data.len(),
            first == data@[0],
            forall|k: int| 0 <= k < i ==> data@[k] == first,
        decreases data.len() - i,
    {
        if data[i] != first {
            return None;
        }
        i = i + 1;
    }
    Some(DetectResult::OneChar { ch: first, size: data.len() })
}

// ---------------------------------------------------------------------------
// Rule: OpenStego header
// ---------------------------------------------------------------------------
/// The marker `OPENSTEGO`.
pub open spec fn openstego_marker() -> Seq<u8> {
    seq![0x4Fu8, 0x50u8, 0x45u8, 0x4Eu8, 0x53u8, 0x54u8, 0x45u8, 0x47u8, 0x4Fu8]
}

/// The marker stands at `pos`.
pub open spec fn marker_at(data: Seq<u8>, pos: int) -> bool {
    0 <= pos && pos + 9 <= data.len() && data.subrange(pos, pos + 9) == openstego_marker()
}

/// Where the marker first stands at or behind `from`; the length of the data
/// if nowhere.
pub open spec fn first_marker(data: Seq<u8>, from: int) -> int
    decreases data.len() - from,
{
    if from < 0 || from + 9 > data.len() {
        data.len() as int
    } else if marker_at(data, from) {
        from
    } else {
        first_marker(data, from + 1)
    }
}

/// Four bytes as a little-endian number.
pub open spec fn le32(b0: u8, b1: u8, b2: u8, b3: u8) -> u32 {
    (b0 + 256 * b1 + 65536 * b2 + 16777216 * b3) as u32
}

/// The header behind the first marker, if nine bytes or more follow it:
/// version, data length (4 bytes, little-endian), channel bits, length of the
/// file name, compression flag, encryption flag, then the file name. The
/// name is empty where its length is 0 or the data ends before the name
/// does; else it is the bytes of the name read as text, one character for
/// each byte where they are ASCII.
pub open spec fn spec_openstego(data: Seq<u8>) -> Option<DetectResultView> {
    let pos = first_marker(data, 0);
    let h = pos + 9;
    if pos < data.len() && h + 9 <= data.len() {
        let fname_len = data[h + 6];
        Some(
            DetectResultView::OpenStego {
                version: data[h],
                data_len: le32(data[h + 1], data[h + 2], data[h + 3], data[h + 4]),
                channel_bits: data[h + 5],
                fname_len,
                compress: data[h + 7],
                encrypt: data[h + 8],
                fname: if fname_len > 0 && h + 9 + fname_len <= data.len() {
                    lossy_text(data.subrange(h + 9, h + 9 + fname_len))
                } else {
                    Seq::empty()
                },
            },
        )
    } else {
        None
    }
}

fn marker_here(data: &[u8], pos: usize) -> (r: bool)
    requires
        pos + 9 <= data.len(),
    ensures
        r == marker_at(data@, pos as int),
{
    let r = data[pos] == 0x4F && data[pos + 1] == 0x50 && data[pos + 2] == 0x45 && data[pos + 3]
        == 0x4E && data[pos + 4] == 0x53 && data[pos + 5] == 0x54 && data[pos + 6] == 0x45
        && data[pos + 7] == 0x47 && data[pos + 8] == 0x4F;
    proof {
        let w = data@.subrange(pos as int, pos + 9);
        if r {
            assert(w =~= openstego_marker());
        } else {
            assert(w[0] == data@[pos as int]);
            assert(w[1] == data@[pos + 1]);
            assert(w[2] == data@[pos + 2]);
            assert(w[3] == data@[pos + 3]);
            assert(w[4] == data@[pos + 4]);
            assert(w[5] == data@[pos + 5]);
            assert(w[6] == data@[pos + 6]);
            assert(w[7] == data@[pos + 7]);
            assert(w[8] == data@[pos + 8]);
        }
    }
    r
}

/// Looks for the header that OpenStego writes.
pub fn check_openstego(data: &[u8]) -> (r: Option<DetectResult>)
    ensures
        opt_view(r) == spec_openstego(data@),
{
    let n = data.len();
    let mut pos: usize = 0;
    let mut found = false;
    while !found && n - pos >= 9
        invariant
            n == data@.len(),
            pos <= n,
            first_marker(data@, 0) == first_marker(data@, pos as int),
            found ==> marker_at(data@, pos as int),
        decreases n - pos + (if found { 0int } else { 1int }),
    {
        if marker_here(data, pos) {
            found = true;
        } else {
            pos = pos + 1;
        }
    }
    if !found {
        return None;
    }
    let h = pos + 9;
    if n - h < 9 {
        return None;
    }
    let version = data[h];
    let data_len: u32 = (data[h + 1] as u32) + 256 * (data[h + 2] as u32) + 65536 * (data[h
        + 3] as u32) + 16777216 * (data[h + 4] as u32);
    let channel_bits = data[h + 5];
    let fname_len = data[h + 6];
    let compress = data[h + 7];
    let encrypt = data[h + 8];
    let start = h + 9;
    let fname = if fname_len > 0 && n - start >= fname_len as usize {
        text_of(slice_subrange(data, start, start + fname_len as usize))
    } else {
        String::new()
    };
    Some(
        DetectResult::OpenStego {
            version,
            data_len,
            channel_bits,
            fname_len,
            compress,
            encrypt,
            fname,
        },
    )
}

// ---------------------------------------------------------------------------
// Rule: wbStego header
// ---------------------------------------------------------------------------
/// Number of zero bytes in a sequence.
pub open spec fn count_zeros(s: Seq<u8>) -> nat
    decreases s.len(),
{
    if s.len() == 0 {
        0
    } else {
        count_zeros(s.drop_last()) + (if s.last() == 0 {
            1nat
        } else {
            0nat
        })
    }
}

/// Name of the cipher that an encryption code of wbStego 4 stands for.
pub open spec fn cipher_name(code: u8) -> Seq<char> {
    if code == 1 {
        "Blowfish"@
    } else if code == 2 {
        "Twofish"@
    } else if code == 3 {
        "CAST128"@
    } else if code == 4 {
        "Rijndael"@
    } else {
        "unknown #"@ + decimal(code as nat)
    }
}

/// A byte that can stand in a file extension: printable 7-bit ASCII, and no
/// wildcard.
pub open spec fn is_ext_byte(b: u8) -> bool {
    0x20 <= b <= 0x7e && b != 0x2A && b != 0x3F
}

/// At most 30 bytes of the data from `start` on.
pub open spec fn preview(data: Seq<u8>, start: int) -> Seq<u8> {
    data.subrange(
        start,
        if start + 30 <= data.len() {
            start + 30
        } else {
            data.len() as int
        },
    )
}

/// The size that a wbStego header declares: its first three bytes,
/// little-endian.
pub open spec fn wb_size(data: Seq<u8>) -> u32 {
    le32(data[0], data[1], data[2], 0)
}

/// The header is plausible so far: at least 6 bytes, a declared size from 1
/// to 1,000,000, and behind the size not a wasteland of zeros (more than 10
/// zero bytes with fewer than 4 others).
pub open spec fn wb_plausible(data: Seq<u8>) -> bool {
    let zeros = count_zeros(data.skip(3));
    &&& data.len() >= 6
    &&& 1 <= wb_size(data) <= 1_000_000
    &&& !(zeros > 10 && data.len() - 3 - zeros < 4)
}

/// What the wbStego rule finds. Bytes 3 to 5 decide the form: `00 FF n` is
/// the encrypted header of wbStego 4, if more than `6 + n` bytes are there;
/// a first byte with one of its two top bits set is the control byte of
/// wbStego 2 and 3; three extension bytes are a file extension.
pub open spec fn spec_wbstego(data: Seq<u8>) -> Option<DetectResultView> {
    if !wb_plausible(data) {
        None
    } else if data[3] == 0x00 && data[4] == 0xff && data.len() > 6 + data[5] {
        Some(
            DetectResultView::WBStego {
                size: wb_size(data),
                ext: None,
                data_preview: preview(data, 6 + data[5]),
                enc: Some(
                    cipher_name(
                        if data[5] > 0 {
                            data[6]
                        } else {
                            0
                        },
                    ),
                ),
                even: false,
            },
        )
    } else if data[3] & 0xc0 != 0 {
        Some(
            DetectResultView::WBStego {
                size: wb_size(data),
                ext: None,
                data_preview: preview(data, 4),
                enc: if data[3] & 0x80 != 0 {
                    Some("wbStego 2.x/3.x"@)
                } else {
                    None
                },
                even: false,
            },
        )
    } else if is_ext_byte(data[3]) && is_ext_byte(data[4]) && is_ext_byte(data[5]) {
        Some(
            DetectResultView::WBStego {
                size: wb_size(data),
                ext: Some(ascii_chars(data.subrange(3, 6))),
                data_preview: preview(data, 6),
                enc: None,
                even: false,
            },
        )
    } else {
        None
    }
}

fn zeros_behind_size(data: &[u8]) -> (c: usize)
    requires
        data.len() >= 3,
    ensures
        c == count_zeros(data@.skip(3)),
        c <= data.len() - 3,
{
    let ghost rest = data@.skip(3);
    let mut c: usize = 0;
    let mut i: usize = 3;
    assert(rest.take(0) =~= Seq::<u8>::empty());
    while i < data.len()
        invariant
            3 <= i <= data.len(),
            rest == data@.skip(3),
            c == count_zeros(rest.take(i - 3)),
            c <= i - 3,
        decreases data.len() - i,
    {
        proof {
            let next = rest.take(i - 3 + 1);
            assert(next.drop_last() =~= rest.take(i - 3));
            assert(next.last() == data@[i as int]);
        }
        if data[i] == 0 {
            c = c + 1;
        }
        i = i + 1;
    }
    assert(rest.take(rest.len() as int) =~= rest);
    c
}

fn take_preview(data: &[u8], start: usize) -> (v: Vec<u8>)
    requires
        start <= data.len(),
    ensures
        v@ == preview(data@, start as int),
{
    let end = if data.len() - start >= 30 {
        start + 30
    } else {
        data.len()
    };
    slice_to_vec(slice_subrange(data, start, end))
}

fn cipher_label(code: u8) -> (s: String)
    ensures
        s@ == cipher_name(code),
{
    if code == 1 {
        String::from_str("Blowfish")
    } else if code == 2 {
        String::from_str("Twofish")
    } else if code == 3 {
        String::from_str("CAST128")
    } else if code == 4 {
        String::from_str("Rijndael")
    } else {
        let mut s = String::from_str("unknown #");
        push_decimal(&mut s, code as u64);
        s
    }
}

/// Looks for the header that wbStego writes. The second argument is kept for
/// callers that know the container; the rule does not depend on it.
pub fn check_wbstego(data: &[u8], _is_bmp: bool) -> (r: Option<DetectResult>)
    ensures
        opt_view(r) == spec_wbstego(data@),
{
    let n = data.len();
    if n < 4 {
        return None;
    }
    let size: u32 = (data[0] as u32) + 256 * (data[1] as u32) + 65536 * (data[2] as u32);
    if size == 0 || size > 1_000_000 {
        return None;
    }
    let zeros = zeros_behind_size(data);
    if zeros > 10 && n - 3 - zeros < 4 {
        return None;
    }
    if n < 6 {
        return None;
    }
    let e0 = data[3];
    let e1 = data[4];
    let e2 = data[5];
    if e0 == 0x00 && e1 == 0xff {
        let hdr_len = e2 as usize;
        if n - 6 > hdr_len {
            let code = if hdr_len > 0 {
                data[6]
            } else {
                0
            };
            return Some(
                DetectResult::WBStego {
                    size,
                    ext: None,
                    data_preview: take_preview(data, 6 + hdr_len),
                    enc: Some(cipher_label(code)),
                    even: false,
                },
            );
        }
    }
    if e0 & 0xc0 != 0 {
        let enc = if e0 & 0x80 != 0 {
            Some(String::from_str("wbStego 2.x/3.x"))
        } else {
            None
        };
        return Some(
            DetectResult::WBStego {
                size,
                ext: None,
                data_preview: take_preview(data, 4),
                enc,
                even: false,
            },
        );
    }
    let valid = 0x20 <= e0 && e0 <= 0x7e && e0 != 0x2A && e0 != 0x3F && 0x20 <= e1 && e1 <= 0x7e
        && e1 != 0x2A && e1 != 0x3F && 0x20 <= e2 && e2 <= 0x7e && e2 != 0x2A && e2 != 0x3F;
    if valid {
        let ext = lossy_string(slice_subrange(data, 3, 6));
        return Some(
            DetectResult::WBStego {
                size,
                ext: Some(ext),
                data_preview: take_preview(data, 6),
                enc: None,
                even: false,
            },
        );
    }
    None
}

// ---------------------------------------------------------------------------
// Rule: the whole buffer is text
// ---------------------------------------------------------------------------
/// Printable ASCII, or one of CR, LF and TAB.
pub open spec fn is_text_byte(b: u8) -> bool {
    (0x20 <= b <= 0x7e) || b == 0x0d || b == 0x0a || b == 0x09
}

/// Every byte of the sequence is a text byte.
pub open spec fn all_text(data: Seq<u8>) -> bool {
    forall|i: int| 0 <= i < data.len() ==> is_text_byte(#[trigger] data[i])
}

/// A buffer of at least `min_len` bytes, all of them text, is `WholeText`.
pub open spec fn spec_whole_text(data: Seq<u8>, min_len: nat) -> Option<DetectResultView> {
    if data.len() >= min_len && all_text(data) {
        Some(DetectResultView::WholeText(ascii_chars(data)))
    } else {
        None
    }
}

fn text_byte(b: u8) -> (r: bool)
    ensures
        r == is_text_byte(b),
{
    (0x20 <= b && b <= 0x7e) || b == 0x0d || b == 0x0a || b == 0x09
}

/// Whether the whole buffer is text of at least `min_wholetext_len` bytes.
pub fn whole_text_check(data: &[u8], min_wholetext_len: usize) -> (r: Option<DetectResult>)
    ensures
        opt_view(r) == spec_whole_text(data@, min_wholetext_len as nat),
{
    if data.len() < min_wholetext_len {
        return None;
    }
    let mut i: usize = 0;
    while i < data.len()
        invariant
            i <= data.len(),
            forall|k: int| 0 <= k < i ==> is_text_byte(#[trigger] data@[k]),
        decreases data.len() - i,
    {
        if !text_byte(data[i]) {
            return None;
        }
        i = i + 1;
    }
    Some(DetectResult::WholeText(lossy_string(data)))
}

// ---------------------------------------------------------------------------
// Rule: a zlib stream near the start
// ---------------------------------------------------------------------------
/// Number of offsets that are tried: every one below 256 that the data has.
pub open spec fn zlib_offsets(data: Seq<u8>) -> int {
    if data.len() < 256 {
        data.len() as int
    } else {
        256
    }
}

/// What one attempt yields: `Zlib` where the decoder succeeded and gave at
/// least one byte.
pub open spec fn spec_zlib_found(inflated: Option<Seq<u8>>, offset: nat, size: nat) -> Option<
    DetectResultView,
> {
    match inflated {
        Some(buf) => if buf.len() > 0 {
            Some(DetectResultView::Zlib { data: buf, offset, size })
        } else {
            None
        },
        None => None,
    }
}

/// What the attempt at `offset` yields.
pub open spec fn zlib_at(data: Seq<u8>, offset: int) -> Option<DetectResultView> {
    spec_zlib_found(
        zlib_inflated(data.skip(offset)),
        offset as nat,
        (data.len() - offset) as nat,
    )
}

/// The first successful attempt at or behind `from`.
pub open spec fn spec_zlib_from(data: Seq<u8>, from: int) -> Option<DetectResultView>
    decreases zlib_offsets(data) - from,
{
    if from < 0 || from >= zlib_offsets(data) {
        None
    } else if zlib_at(data, from) is Some {
        zlib_at(data, from)
    } else {
        spec_zlib_from(data, from + 1)
    }
}

/// The zlib rule: the earliest offset below 256 behind which the data
/// inflates to something.
pub open spec fn spec_zlib_try(data: Seq<u8>) -> Option<DetectResultView> {
    spec_zlib_from(data, 0)
}

/// Judges one inflation attempt: a finding if the decoder succeeded and
/// gave at least one byte.
pub fn zlib_found(inflated: Option<Vec<u8>>, offset: usize, size: usize) -> (r: Option<
    DetectResult,
>)
    ensures
        opt_view(r) == spec_zlib_found(opt_bytes(inflated), offset as nat, size as nat),
{
    match inflated {
        Some(buf) => {
            if buf.len() > 0 {
                Some(DetectResult::Zlib { data: buf, offset, size })
            } else {
                None
            }
        },
        None => None,
    }
}

/// Tries to inflate the data from each of its first 256 offsets on, and
/// stops at the first that works.
pub fn zlib_try(data: &[u8]) -> (r: Option<DetectResult>)
    ensures
        opt_view(r) == spec_zlib_try(data@),
{
    let n = data.len();
    let tries = if n < 256 {
        n
    } else {
        256
    };
    let mut offset: usize = 0;
    while offset < tries
        invariant
            n == data@.len(),
            tries == zlib_offsets(data@),
            offset <= tries,
            spec_zlib_try(data@) == spec_zlib_from(data@, offset as int),
        decreases tries - offset,
    {
        let rest = slice_subrange(data, offset, n);
        assert(rest@ =~= data@.skip(offset as int));
        let found = zlib_found(inflate(rest), offset, n - offset);
        if found.is_some() {
            return found;
        }
        offset = offset + 1;
    }
    None
}

// ---------------------------------------------------------------------------
// Rule: the first run of text
// ---------------------------------------------------------------------------
/// Where the run of text bytes that starts at `start` ends.
pub open spec fn run_end(data: Seq<u8>, start: int) -> int
    decreases data.len() - start,
{
    if 0 <= start < data.len() && is_text_byte(data[start]) {
        run_end(data, start + 1)
    } else {
        start
    }
}

/// The first maximal run of text bytes at or behind `from` that is at least
/// `min_len` long, as (start, end). `from` must not lie inside a run.
pub open spec fn first_run(data: Seq<u8>, min_len: nat, from: int) -> Option<(int, int)>
    decreases data.len() - from,
{
    if from < 0 || from >= data.len() {
        None
    } else if !is_text_byte(data[from]) {
        first_run(data, min_len, from + 1)
    } else {
        let end = run_end(data, from);
        if end - from >= min_len {
            Some((from, end))
        } else if from < end <= data.len() {
            first_run(data, min_len, end)
        } else {
            None
        }
    }
}

/// The text rule: the first maximal run of text bytes that is at least
/// `min_len` long, with its offset.
pub open spec fn spec_strings_first(data: Seq<u8>, min_len: nat) -> Option<DetectResultView> {
    match first_run(data, min_len, 0) {
        Some((start, end)) => Some(
            DetectResultView::PartialText {
                text: ascii_chars(data.subrange(start, end)),
                offset: start as nat,
            },
        ),
        None => None,
    }
}

proof fn lemma_run_end(data: Seq<u8>, start: int, i: int)
    requires
        0 <= start <= i <= data.len(),
        forall|k: int| start <= k < i ==> is_text_byte(#[trigger] data[k]),
    ensures
        run_end(data, start) == run_end(data, i),
        start <= run_end(data, start) <= data.len(),
        forall|k: int| start <= k < run_end(data, start) ==> is_text_byte(#[trigger] data[k]),
    decreases data.len() - start,
{
    if start < i {
        lemma_run_end(data, start + 1, i);
    } else {
        lemma_run_bounds(data, start);
    }
}

proof fn lemma_run_bounds(data: Seq<u8>, start: int)
    requires
        0 <= start <= data.len(),
    ensures
        start <= run_end(data, start) <= data.len(),
        forall|k: int| start <= k < run_end(data, start) ==> is_text_byte(#[trigger] data[k]),
    decreases data.len() - start,
{
    if start < data.len() && is_text_byte(data[start]) {
        lemma_run_bounds(data, start + 1);
    }
}

/// Finds the first run of text that is at least `min_len` bytes long.
pub fn strings_first(data: &[u8], min_len: usize) -> (r: Option<DetectResult>)
    ensures
        opt_view(r) == spec_strings_first(data@, min_len as nat),
{
    let n = data.len();
    let mut i: usize = 0;
    while i < n
        invariant
            n == data@.len(),
            i <= n,
            first_run(data@, min_len as nat, 0) == first_run(data@, min_len as nat, i as int),
        decreases n - i,
    {
        if !text_byte(data[i]) {
            i = i + 1;
        } else {
            let start = i;
            let mut end = i + 1;
            while end < n && text_byte(data[end])
                invariant
                    n == data@.len(),
                    start < end <= n,
                    forall|k: int| start <= k < end ==> is_text_byte(#[trigger] data@[k]),
                decreases n - end,
            {
                end = end + 1;
            }
            proof {
                lemma_run_end(data@, start as int, end as int);
                assert(run_end(data@, end as int) == end);
            }
            if end - start >= min_len {
                let run = slice_subrange(data, start, end);
                proof {
                    assert forall|k: int| 0 <= k < run@.len() implies run@[k] < 0x80 by {
                        assert(is_text_byte(data@[start + k]));
                    }
                }
                return Some(
                    DetectResult::PartialText { text: lossy_string(run), offset: start },
                );
            }
            i = end;
        }
    }
    None
}

// ---------------------------------------------------------------------------
// The chain
// ---------------------------------------------------------------------------
/// The first of two findings, if there is one.
pub open spec fn or_else(a: Option<DetectResultView>, b: Option<DetectResultView>) -> Option<
    DetectResultView,
> {
    if a is Some {
        a
    } else {
        b
    }
}

/// The rules that come before the file-type classifier, first match wins:
/// one repeated byte, the OpenStego header, the wbStego header (only when
/// `wb` is set), whole-buffer text of at least `min_str_len - 2` bytes.
pub open spec fn spec_head(data: Seq<u8>, wb: bool, min_str_len: nat) -> Option<DetectResultView> {
    or_else(
        spec_one_char(data),
        or_else(
            spec_openstego(data),
            or_else(
                if wb {
                    spec_wbstego(data)
                } else {
                    None
                },
                spec_whole_text(
                    data,
                    if min_str_len >= 2 {
                        (min_str_len - 2) as nat
                    } else {
                        0
                    },
                ),
            ),
        ),
    )
}

/// The rules that come behind the file-type classifier: a zlib stream, then
/// the first run of text.
pub open spec fn spec_tail(data: Seq<u8>, min_str_len: nat) -> Option<DetectResultView> {
    or_else(spec_zlib_try(data), spec_strings_first(data, min_str_len))
}

/// The whole chain, with the classifier's answer `file` in its place.
pub open spec fn spec_classify(
    data: Seq<u8>,
    wb: bool,
    min_str_len: nat,
    file: Option<DetectResultView>,
) -> Option<DetectResultView> {
    or_else(spec_head(data, wb, min_str_len), or_else(file, spec_tail(data, min_str_len)))
}

/// Whether the options ask for the wbStego rule: only under a pinned `Lsb`
/// bit order.
pub open spec fn wants_wbstego(options: Options) -> bool {
    options.bit_order == Some(BitOrder::Lsb)
}

/// Applies the rules that come before the file-type classifier.
pub fn classify_head(data: &[u8], options: &Options) -> (r: Option<DetectResult>)
    ensures
        opt_view(r) == spec_head(data@, wants_wbstego(*options), options.min_str_len as nat),
{
    let r = one_char(data);
    if r.is_some() {
        return r;
    }
    let r = check_openstego(data);
    if r.is_some() {
        return r;
    }
    let wb = match options.bit_order {
        Some(BitOrder::Lsb) => true,
        _ => false,
    };
    if wb {
        let r = check_wbstego(data, false);
        if r.is_some() {
            return r;
        }
    }
    let min_whole = if options.min_str_len >= 2 {
        options.min_str_len - 2
    } else {
        0
    };
    whole_text_check(data, min_whole)
}

/// Applies the rules that come behind the file-type classifier.
pub fn classify_tail(data: &[u8], options: &Options) -> (r: Option<DetectResult>)
    ensures
        opt_view(r) == spec_tail(data@, options.min_str_len as nat),
{
    let r = zlib_try(data);
    if r.is_some() {
        return r;
    }
    strings_first(data, options.min_str_len)
}

/// The finding that a description by the file-type classifier makes.
pub open spec fn file_finding(description: Option<Seq<char>>) -> Option<DetectResultView> {
    match description {
        Some(d) => Some(DetectResultView::FileType(d)),
        None => None,
    }
}

/// Classifies a byte sequence. `file_type` is the description that the
/// file-type classifier gave of it, if it was asked and had an answer; it
/// becomes a `FileType` finding, and counts only where the rules before it
/// pass.
pub fn data2result(data: &[u8], options: &Options, file_type: Option<String>) -> (r: Option<
    DetectResult,
>)
    ensures
        opt_view(r) == spec_classify(
            data@,
            wants_wbstego(*options),
            options.min_str_len as nat,
            file_finding(crate::result::opt_text(file_type)),
        ),
{
    let r = classify_head(data, options);
    if r.is_some() {
        return r;
    }
    match file_type {
        Some(description) => Some(DetectResult::FileType(description)),
        None => classify_tail(data, options),
    }
}

} // verus!
