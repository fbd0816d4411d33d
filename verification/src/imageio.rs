//! The image as the scan sees it, and the loader that takes PNG and BMP
//! containers apart.

use vstd::prelude::*;
use vstd::slice::{slice_subrange, slice_to_vec};
use crate::text::{is_word, lossy_text, lowercase_string, lowercased, str_chars, text_of};
use crate::zlib::{inflate, zlib_inflated};

verus! {

/// Container format of an image.
#[derive(Debug, Clone, Copy, PartialEq, Eq, Structural)]
pub enum ImgFormat {
    Png,
    Bmp,
    Unknown,
}

/// One chunk of a PNG container.
#[derive(Debug, Clone)]
pub struct PngChunk {
    pub ty: [u8; 4],
    pub data: Vec<u8>,
}

/// A decoded image together with the raw material of its container.
#[derive(Debug, Clone)]
pub struct Image {
    pub format: ImgFormat,
    pub width: u32,
    pub height: u32,
    /// Decoded pixels, four bytes (R, G, B, A) each, row by row.
    pub pixels: Vec<u8>,
    /// Raw scanlines: for PNG each row behind its filter byte, for BMP the
    /// padded pixel rows from top to bottom.
    pub imagedata: Vec<u8>,
    /// Text metadata as (key, value), each key once.
    pub metadata: Vec<(String, String)>,
    /// The container's chunks; empty for anything but PNG.
    pub chunks: Vec<PngChunk>,
    /// Data found behind the container's end marker.
    pub extradata: Vec<Vec<u8>>,
}

/// Bytes per row of the raw byte grid: for BMP three bytes per pixel, padded
/// to a multiple of 4; otherwise four bytes per pixel behind one filter byte.
pub open spec fn spec_row_stride(format: ImgFormat, width: u32) -> nat {
    if format == ImgFormat::Bmp {
        (((width * 3 + 3) / 4) * 4) as nat
    } else {
        (width * 4 + 1) as nat
    }
}

impl Image {
    /// Number of columns of the raw byte grid, at least 1.
    pub open spec fn grid_cols(&self) -> nat {
        let s = spec_row_stride(self.format, self.width);
        if s == 0 {
            1
        } else {
            s
        }
    }

    /// Number of rows of the raw byte grid, at least 1.
    pub open spec fn grid_rows(&self) -> nat {
        if self.height == 0 {
            1
        } else {
            self.height as nat
        }
    }

    /// The pixel buffer holds four bytes for every pixel, and the cells of
    /// the raw byte grid can be counted in 64 bits.
    pub open spec fn wf(&self) -> bool {
        &&& self.pixels@.len() == self.width * self.height * 4
        &&& self.grid_rows() * self.grid_cols() <= u64::MAX
    }

    /// Bytes per row of the raw byte grid.
    pub fn row_stride(&self) -> (s: u64)
        ensures
            s == spec_row_stride(self.format, self.width),
    {
        let w = self.width as u64;
        if self.format == ImgFormat::Bmp {
            ((w * 3 + 3) / 4) * 4
        } else {
            w * 4 + 1
        }
    }
}

// ---------------------------------------------------------------------------
// Views
// ---------------------------------------------------------------------------
/// Mathematical counterpart of [`PngChunk`].
pub struct ChunkView {
    pub ty: Seq<u8>,
    pub data: Seq<u8>,
}

impl View for PngChunk {
    type V = ChunkView;

    open spec fn view(&self) -> ChunkView {
        ChunkView { ty: self.ty@, data: self.data@ }
    }
}

/// The views of a list of chunks.
pub open spec fn chunks_view(s: Seq<PngChunk>) -> Seq<ChunkView> {
    s.map_values(|c: PngChunk| c@)
}

/// The views of a list of metadata entries.
pub open spec fn entries_view(s: Seq<(String, String)>) -> Seq<(Seq<char>, Seq<char>)> {
    s.map_values(|e: (String, String)| (e.0@, e.1@))
}

/// The views of a list of byte vectors.
pub open spec fn segments_view(s: Seq<Vec<u8>>) -> Seq<Seq<u8>> {
    s.map_values(|v: Vec<u8>| v@)
}

/// Mathematical counterpart of [`Image`].
pub struct ImageView {
    pub format: ImgFormat,
    pub width: u32,
    pub height: u32,
    pub pixels: Seq<u8>,
    pub imagedata: Seq<u8>,
    pub metadata: Seq<(Seq<char>, Seq<char>)>,
    pub chunks: Seq<ChunkView>,
    pub extradata: Seq<Seq<u8>>,
}

impl View for Image {
    type V = ImageView;

    open spec fn view(&self) -> ImageView {
        ImageView {
            format: self.format,
            width: self.width,
            height: self.height,
            pixels: self.pixels@,
            imagedata: self.imagedata@,
            metadata: entries_view(self.metadata@),
            chunks: chunks_view(self.chunks@),
            extradata: segments_view(self.extradata@),
        }
    }
}

/// Why an image could not be loaded.
#[derive(Debug, Clone, Copy, PartialEq, Eq, Structural)]
pub enum LoadError {
    /// The container does not start as a PNG does.
    Signature,
    /// The container ends before what it announces.
    Truncated,
    /// The pixels could not be decoded.
    Decode,
    /// The pixel data of a PNG does not inflate.
    Inflate,
    /// The container does not start as a BMP does.
    NotBmp,
    /// The dimensions do not go with the decoded pixels, or are beyond what
    /// can be addressed.
    Size,
}

// ---------------------------------------------------------------------------
// Decoding of pixels
// ---------------------------------------------------------------------------
/// What the `image` crate decodes out of a container that is read as the
/// given format: width, height and the pixels as RGBA, or `None` where it
/// reports an error.
pub uninterp spec fn decoded_rgba(data: Seq<u8>, format: ImgFormat) -> Option<(u32, u32, Seq<u8>)>;

/// Makes the error type of the `image` crate known; nothing is said of what
/// is in it.
#[verifier::external_type_specification]
#[verifier::external_body]
pub struct ExImageError(image::ImageError);

/// Calls `image::load_from_memory_with_format` and converts what it yields
/// to RGBA with 8 bits per channel.
///
/// Trusted: the contract only names the outcome. It claims that decoding
/// depends on the bytes of the container and on the format alone; with the
/// format given, the crate consults none of its registries of hooks.
/// `Unknown` has no counterpart among the crate's formats and is left out.
#[verifier::external_body]
pub(crate) fn decode_rgba(data: &[u8], format: ImgFormat) -> (r: Result<
    (u32, u32, Vec<u8>),
    image::ImageError,
>)
    requires
        format != ImgFormat::Unknown,
    ensures
        match r {
            Ok(p) => decoded_rgba(data@, format) == Some((p.0, p.1, p.2@)),
            Err(_) => decoded_rgba(data@, format) is None,
        },
{
    let format = match format {
        ImgFormat::Png => image::ImageFormat::Png,
        ImgFormat::Bmp | ImgFormat::Unknown => image::ImageFormat::Bmp,
    };
    let decoded = image::load_from_memory_with_format(data, format)?;
    let rgba = decoded.to_rgba8();
    let (width, height) = rgba.dimensions();
    Ok((width, height, rgba.into_raw()))
}

/// Whether decoded pixels can make an image: four bytes for every pixel,
/// and a raw byte grid whose cells can be counted in 64 bits.
pub open spec fn fits(format: ImgFormat, width: u32, height: u32, pixels: Seq<u8>) -> bool {
    &&& pixels.len() == width * height * 4
    &&& (if height == 0 {
        1nat
    } else {
        height as nat
    }) * (if spec_row_stride(format, width) == 0 {
        1nat
    } else {
        spec_row_stride(format, width)
    }) <= u64::MAX
}

/// Whether decoded pixels can make an image.
pub fn check_fit(format: ImgFormat, width: u32, height: u32, pixels: &Vec<u8>) -> (r: bool)
    ensures
        r == fits(format, width, height, pixels@),
{
    let w = width as u128;
    let h = height as u128;
    assert(w * h * 4 <= u128::MAX && 0 <= w * h) by (nonlinear_arith)
        requires
            0 <= w <= u32::MAX,
            0 <= h <= u32::MAX,
    ;
    if pixels.len() as u128 != w * h * 4 {
        return false;
    }
    let stride: u128 = if format == ImgFormat::Bmp {
        ((w * 3 + 3) / 4) * 4
    } else {
        w * 4 + 1
    };
    let cols: u128 = if stride == 0 {
        1
    } else {
        stride
    };
    let rows: u128 = if h == 0 {
        1
    } else {
        h
    };
    assert(rows * cols <= u128::MAX && 0 <= rows * cols) by (nonlinear_arith)
        requires
            0 <= rows <= 0x1_0000_0000,
            0 <= cols <= 0x8_0000_0000,
    ;
    rows * cols <= u64::MAX as u128
}

// ---------------------------------------------------------------------------
// PNG: chunks
// ---------------------------------------------------------------------------
/// The eight bytes that a PNG starts with.
pub open spec fn png_signature() -> Seq<u8> {
    seq![0x89u8, 0x50u8, 0x4Eu8, 0x47u8, 0x0Du8, 0x0Au8, 0x1Au8, 0x0Au8]
}

/// The type of the chunk that ends a PNG.
pub open spec fn iend() -> Seq<u8> {
    seq![0x49u8, 0x45u8, 0x4Eu8, 0x44u8]
}

/// The type of the chunks that hold the pixel data.
pub open spec fn idat_type() -> Seq<u8> {
    seq![0x49u8, 0x44u8, 0x41u8, 0x54u8]
}

/// The four bytes at `pos` as a big-endian number.
pub open spec fn be32(data: Seq<u8>, pos: int) -> nat {
    (data[pos] * 16777216 + data[pos + 1] * 65536 + data[pos + 2] * 256 + data[pos + 3]) as nat
}

/// The chunks of a container, where they stop, and whether they stop behind
/// an `IEND` chunk.
pub struct Chunked {
    pub chunks: Seq<ChunkView>,
    pub stop: int,
    pub ended: bool,
}

/// `first` in front of the chunks of `rest`.
pub open spec fn chunk_before(first: Seq<ChunkView>, rest: Option<Chunked>) -> Option<Chunked> {
    match rest {
        Some(c) => Some(Chunked { chunks: first + c.chunks, stop: c.stop, ended: c.ended }),
        None => None,
    }
}

/// The chunks from `pos` on. A chunk is four bytes of length, four of type,
/// the data, and four bytes of checksum, which are not looked at. The list
/// ends behind an `IEND` chunk, or where fewer than four bytes are left.
/// `None` where a chunk is cut short.
pub open spec fn spec_chunks(data: Seq<u8>, pos: int) -> Option<Chunked>
    decreases data.len() - pos,
{
    if pos < 0 || data.len() - pos < 4 {
        Some(Chunked { chunks: Seq::empty(), stop: pos, ended: false })
    } else {
        let len = be32(data, pos);
        if data.len() - pos < 12 + len {
            None
        } else {
            let chunk = ChunkView {
                ty: data.subrange(pos + 4, pos + 8),
                data: data.subrange(pos + 8, pos + 8 + len),
            };
            if chunk.ty == iend() {
                Some(Chunked { chunks: seq![chunk], stop: pos + 12 + len, ended: true })
            } else {
                chunk_before(seq![chunk], spec_chunks(data, pos + 12 + len))
            }
        }
    }
}

proof fn lemma_chunk_before(a: Seq<ChunkView>, b: Seq<ChunkView>, rest: Option<Chunked>)
    ensures
        chunk_before(a, chunk_before(b, rest)) == chunk_before(a + b, rest),
        chunk_before(Seq::empty(), rest) == rest,
{
    match rest {
        Some(c) => {
            assert(a + (b + c.chunks) =~= (a + b) + c.chunks);
            assert(Seq::<ChunkView>::empty() + c.chunks =~= c.chunks);
        },
        None => {},
    }
}

fn type_is(ty: &[u8; 4], a: u8, b: u8, c: u8, d: u8) -> (r: bool)
    ensures
        r == (ty@ == seq![a, b, c, d]),
{
    let r = ty[0] == a && ty[1] == b && ty[2] == c && ty[3] == d;
    proof {
        let want = seq![a, b, c, d];
        if r {
            assert(ty@ =~= want);
        } else {
            assert(want[0] == a && want[1] == b && want[2] == c && want[3] == d);
        }
    }
    r
}

/// Takes a PNG apart into its chunks, from behind the signature on.
#[verifier::loop_isolation(false)]
pub fn read_chunks(data: &[u8]) -> (r: Option<(Vec<PngChunk>, usize, bool)>)
    requires
        data.len() >= 8,
    ensures
        match r {
            Some(c) => spec_chunks(data@, 8) == Some(
                Chunked { chunks: chunks_view(c.0@), stop: c.1 as int, ended: c.2 },
            ) && 8 <= c.1 <= data.len(),
            None => spec_chunks(data@, 8) is None,
        },
{
    let n = data.len();
    let mut chunks: Vec<PngChunk> = Vec::new();
    let mut pos: usize = 8;
    proof {
        lemma_chunk_before(Seq::empty(), Seq::empty(), spec_chunks(data@, 8));
        assert(chunks_view(chunks@) =~= Seq::<ChunkView>::empty());
    }
    while n - pos >= 4
        invariant
            8 <= pos <= n,
            spec_chunks(data@, 8) == chunk_before(
                chunks_view(chunks@),
                spec_chunks(data@, pos as int),
            ),
        decreases n - pos,
    {
        let len: u64 = (data[pos] as u64) * 16777216 + (data[pos + 1] as u64) * 65536 + (data[pos
            + 2] as u64) * 256 + (data[pos + 3] as u64);
        if ((n - pos) as u64) < 12 + len {
            return None;
        }
        let size = len as usize;
        let ty: [u8; 4] = [data[pos + 4], data[pos + 5], data[pos + 6], data[pos + 7]];
        assert(ty@ =~= data@.subrange(pos + 4, pos + 8));
        let body = slice_to_vec(slice_subrange(data, pos + 8, pos + 8 + size));
        let ended = type_is(&ty, 0x49, 0x45, 0x4E, 0x44);
        let chunk = PngChunk { ty, data: body };
        let ghost before = chunks@;
        let ghost rest = spec_chunks(data@, pos + 12 + size);
        chunks.push(chunk);
        assert(chunks_view(chunks@) =~= chunks_view(before) + seq![chunk@]);
        pos = pos + 12 + size;
        if ended {
            return Some((chunks, pos, true));
        }
        proof {
            lemma_chunk_before(chunks_view(before), seq![chunk@], rest);
        }
    }
    proof {
        assert(chunks_view(chunks@) + Seq::<ChunkView>::empty() =~= chunks_view(chunks@));
    }
    Some((chunks, pos, false))
}

// ---------------------------------------------------------------------------
// PNG: text metadata
// ---------------------------------------------------------------------------
/// Where a zero byte first stands at or behind `from`; the length of the
/// data if nowhere.
pub open spec fn find_zero(data: Seq<u8>, from: int) -> int
    decreases data.len() - from,
{
    if from < 0 || from >= data.len() {
        data.len() as int
    } else if data[from] == 0 {
        from
    } else {
        find_zero(data, from + 1)
    }
}

/// The entry of a `tEXt` chunk: the key up to the first zero byte, the
/// value behind it. None without a zero byte.
pub open spec fn text_entry(data: Seq<u8>) -> Option<(Seq<char>, Seq<char>)> {
    let p = find_zero(data, 0);
    if p < data.len() {
        Some((lossy_text(data.take(p)), lossy_text(data.skip(p + 1))))
    } else {
        None
    }
}

/// The entry of an `iTXt` chunk, read as five fields that zero bytes
/// separate: the key is the first field and the value the fifth. None with
/// fewer than four fields; an empty value with just four.
pub open spec fn itxt_entry(data: Seq<u8>) -> Option<(Seq<char>, Seq<char>)> {
    let z1 = find_zero(data, 0);
    let z2 = find_zero(data, z1 + 1);
    let z3 = find_zero(data, z2 + 1);
    let z4 = find_zero(data, z3 + 1);
    let z5 = find_zero(data, z4 + 1);
    if z3 < data.len() {
        Some(
            (
                lossy_text(data.take(z1)),
                if z4 < data.len() {
                    lossy_text(data.subrange(z4 + 1, z5))
                } else {
                    lossy_text(Seq::empty())
                },
            ),
        )
    } else {
        None
    }
}

/// The entry of a `zTXt` chunk: the key up to the first zero byte, then a
/// byte for the method, then the value as a zlib stream. None without a
/// zero byte, without the method byte, or where the stream does not
/// inflate.
pub open spec fn ztxt_entry(data: Seq<u8>) -> Option<(Seq<char>, Seq<char>)> {
    let p = find_zero(data, 0);
    if p < data.len() && p + 2 <= data.len() {
        match zlib_inflated(data.skip(p + 2)) {
            Some(text) => Some((lossy_text(data.take(p)), lossy_text(text))),
            None => None,
        }
    } else {
        None
    }
}

fn zero_from(data: &[u8], from: usize) -> (pos: usize)
    ensures
        pos == find_zero(data@, from as int),
        pos <= data.len(),
        from <= data.len() ==> from <= pos,
{
    if from >= data.len() {
        return data.len();
    }
    let mut pos = from;
    while pos < data.len()
        invariant
            from <= pos <= data.len(),
            find_zero(data@, from as int) == find_zero(data@, pos as int),
        decreases data.len() - pos,
    {
        if data[pos] == 0 {
            return pos;
        }
        pos = pos + 1;
    }
    pos
}

/// Reads the entry of a `tEXt` chunk.
pub fn parse_png_text(data: &[u8]) -> (r: Option<(String, String)>)
    ensures
        match r {
            Some(e) => text_entry(data@) == Some((e.0@, e.1@)),
            None => text_entry(data@) is None,
        },
{
    let p = zero_from(data, 0);
    if p >= data.len() {
        return None;
    }
    let key = slice_subrange(data, 0, p);
    let value = slice_subrange(data, p + 1, data.len());
    assert(key@ =~= data@.take(p as int));
    assert(value@ =~= data@.skip(p + 1));
    Some((text_of(key), text_of(value)))
}

/// Reads the entry of an `iTXt` chunk.
pub fn parse_png_itxt(data: &[u8]) -> (r: Option<(String, String)>)
    ensures
        match r {
            Some(e) => itxt_entry(data@) == Some((e.0@, e.1@)),
            None => itxt_entry(data@) is None,
        },
{
    let n = data.len();
    let z1 = zero_from(data, 0);
    if z1 >= n {
        return None;
    }
    let z2 = zero_from(data, z1 + 1);
    if z2 >= n {
        return None;
    }
    let z3 = zero_from(data, z2 + 1);
    if z3 >= n {
        return None;
    }
    let z4 = zero_from(data, z3 + 1);
    let key = slice_subrange(data, 0, z1);
    assert(key@ =~= data@.take(z1 as int));
    let value = if z4 < n {
        let z5 = zero_from(data, z4 + 1);
        slice_subrange(data, z4 + 1, z5)
    } else {
        let empty = slice_subrange(data, 0, 0);
        assert(empty@ =~= Seq::<u8>::empty());
        empty
    };
    Some((text_of(key), text_of(value)))
}

/// Reads the entry of a `zTXt` chunk.
pub fn parse_png_ztxt(data: &[u8]) -> (r: Option<(String, String)>)
    ensures
        match r {
            Some(e) => ztxt_entry(data@) == Some((e.0@, e.1@)),
            None => ztxt_entry(data@) is None,
        },
{
    let n = data.len();
    let p = zero_from(data, 0);
    if p >= n || n - p < 2 {
        return None;
    }
    let key = slice_subrange(data, 0, p);
    let packed = slice_subrange(data, p + 2, n);
    assert(key@ =~= data@.take(p as int));
    assert(packed@ =~= data@.skip(p + 2));
    match inflate(packed) {
        Some(text) => Some((text_of(key), text_of(text.as_slice()))),
        None => None,
    }
}

/// The entry that a chunk holds, if it is one of the three text chunks.
pub open spec fn chunk_entry(c: ChunkView) -> Option<(Seq<char>, Seq<char>)> {
    if c.ty == seq![0x74u8, 0x45u8, 0x58u8, 0x74u8] {
        text_entry(c.data)
    } else if c.ty == seq![0x69u8, 0x54u8, 0x58u8, 0x74u8] {
        itxt_entry(c.data)
    } else if c.ty == seq![0x7Au8, 0x54u8, 0x58u8, 0x74u8] {
        ztxt_entry(c.data)
    } else {
        None
    }
}

/// Where the key first stands among the first `n` entries; `n` if nowhere.
pub open spec fn key_index(m: Seq<(Seq<char>, Seq<char>)>, key: Seq<char>, n: int) -> int
    decreases n,
{
    if n <= 0 {
        0
    } else {
        let before = key_index(m, key, n - 1);
        if before < n - 1 {
            before
        } else if m[n - 1].0 == key {
            n - 1
        } else {
            n
        }
    }
}

/// The entries with `key` set to `value`: in the place of the entry that has
/// the key, or at the end if there is none.
pub open spec fn put(m: Seq<(Seq<char>, Seq<char>)>, key: Seq<char>, value: Seq<char>) -> Seq<
    (Seq<char>, Seq<char>),
> {
    let i = key_index(m, key, m.len() as int);
    if i < m.len() {
        m.update(i, (key, value))
    } else {
        m.push((key, value))
    }
}

/// The metadata of the first `n` chunks: what the text chunks hold, a later
/// entry taking the place of an earlier one with the same key.
pub open spec fn metadata_of(chunks: Seq<ChunkView>, n: nat) -> Seq<(Seq<char>, Seq<char>)>
    decreases n,
{
    if n == 0 {
        Seq::empty()
    } else {
        let m = metadata_of(chunks, (n - 1) as nat);
        match chunk_entry(chunks[n - 1]) {
            Some(e) => put(m, e.0, e.1),
            None => m,
        }
    }
}

/// No key stands twice among the entries.
pub open spec fn keys_distinct(m: Seq<(Seq<char>, Seq<char>)>) -> bool {
    forall|i: int, j: int| 0 <= i < j < m.len() ==> (#[trigger] m[i]).0 != (#[trigger] m[j]).0
}

/// What `key_index` finds is the first entry with the key, and it finds
/// none only if there is none.
pub proof fn lemma_key_index(m: Seq<(Seq<char>, Seq<char>)>, key: Seq<char>, n: int)
    requires
        0 <= n <= m.len(),
    ensures
        0 <= key_index(m, key, n) <= n,
        key_index(m, key, n) < n ==> m[key_index(m, key, n)].0 == key,
        forall|i: int| 0 <= i < key_index(m, key, n) ==> (#[trigger] m[i]).0 != key,
    decreases n,
{
    if n > 0 {
        lemma_key_index(m, key, n - 1);
    }
}

/// Setting a key keeps the keys distinct.
pub proof fn lemma_put_keeps_keys(m: Seq<(Seq<char>, Seq<char>)>, key: Seq<char>, value: Seq<char>)
    requires
        keys_distinct(m),
    ensures
        keys_distinct(put(m, key, value)),
{
    lemma_key_index(m, key, m.len() as int);
    let i = key_index(m, key, m.len() as int);
    let after = put(m, key, value);
    assert forall|a: int, b: int| 0 <= a < b < after.len() implies (#[trigger] after[a]).0 != (
    #[trigger] after[b]).0 by {
        if i < m.len() {
            assert(after[a].0 == m[a].0);
            assert(after[b].0 == m[b].0);
        } else {
            if b < m.len() {
                assert(after[a] == m[a]);
                assert(after[b] == m[b]);
            } else {
                assert(after[a] == m[a]);
                assert(m[a].0 != key);
            }
        }
    }
}

/// In the metadata of a PNG every key stands once.
pub proof fn lemma_metadata_keys(chunks: Seq<ChunkView>, n: nat)
    ensures
        keys_distinct(metadata_of(chunks, n)),
    decreases n,
{
    if n > 0 {
        lemma_metadata_keys(chunks, (n - 1) as nat);
        match chunk_entry(chunks[n - 1]) {
            Some(e) => {
                lemma_put_keeps_keys(metadata_of(chunks, (n - 1) as nat), e.0, e.1);
            },
            None => {},
        }
    }
}

/// The data of the pixel-data chunks among the first `n` chunks, one behind
/// the other.
pub open spec fn idat_of(chunks: Seq<ChunkView>, n: nat) -> Seq<u8>
    decreases n,
{
    if n == 0 {
        Seq::empty()
    } else {
        idat_of(chunks, (n - 1) as nat) + (if chunks[n - 1].ty == idat_type() {
            chunks[n - 1].data
        } else {
            Seq::empty()
        })
    }
}

#[verifier::loop_isolation(false)]
fn put_entry(m: &mut Vec<(String, String)>, key: String, value: String)
    ensures
        entries_view(final(m)@) == put(entries_view(old(m)@), key@, value@),
{
    let ghost view = entries_view(m@);
    let mut i: usize = 0;
    while i < m.len()
        invariant
            i <= m.len(),
            m@ == old(m)@,
            key_index(view, key@, i as int) == i,
        decreases m.len() - i,
    {
        if m[i].0 == key {
            proof {
                lemma_key_found(view, key@, i as int, m.len() as int);
            }
            m.set(i, (key, value));
            assert(entries_view(m@) =~= view.update(i as int, (key@, value@)));
            return ;
        }
        i = i + 1;
    }
    m.push((key, value));
    assert(entries_view(m@) =~= view.push((key@, value@)));
}

proof fn lemma_key_found(m: Seq<(Seq<char>, Seq<char>)>, key: Seq<char>, i: int, n: int)
    requires
        0 <= i < n <= m.len(),
        key_index(m, key, i) == i,
        m[i].0 == key,
    ensures
        key_index(m, key, n) == i,
    decreases n - i,
{
    if n > i + 1 {
        lemma_key_found(m, key, i, n - 1);
    }
}

fn append_bytes(out: &mut Vec<u8>, data: &[u8], from: usize, to: usize)
    requires
        from <= to <= data.len(),
    ensures
        final(out)@ == old(out)@ + data@.subrange(from as int, to as int),
{
    let mut i = from;
    assert(old(out)@ + data@.subrange(from as int, from as int) =~= old(out)@);
    while i < to
        invariant
            from <= i <= to <= data.len(),
            out@ == old(out)@ + data@.subrange(from as int, i as int),
        decreases to - i,
    {
        out.push(data[i]);
        i = i + 1;
        assert(out@ =~= old(out)@ + data@.subrange(from as int, i as int));
    }
}

fn collect_metadata(chunks: &Vec<PngChunk>) -> (m: Vec<(String, String)>)
    ensures
        entries_view(m@) == metadata_of(chunks_view(chunks@), chunks@.len()),
{
    let mut m: Vec<(String, String)> = Vec::new();
    let mut i: usize = 0;
    assert(entries_view(m@) =~= Seq::<(Seq<char>, Seq<char>)>::empty());
    while i < chunks.len()
        invariant
            i <= chunks.len(),
            entries_view(m@) == metadata_of(chunks_view(chunks@), i as nat),
        decreases chunks.len() - i,
    {
        let c = &chunks[i];
        assert(chunks_view(chunks@)[i as int] == c@);
        let entry = if type_is(&c.ty, 0x74, 0x45, 0x58, 0x74) {
            parse_png_text(c.data.as_slice())
        } else if type_is(&c.ty, 0x69, 0x54, 0x58, 0x74) {
            parse_png_itxt(c.data.as_slice())
        } else if type_is(&c.ty, 0x7A, 0x54, 0x58, 0x74) {
            parse_png_ztxt(c.data.as_slice())
        } else {
            None
        };
        match entry {
            Some((k, v)) => {
                put_entry(&mut m, k, v);
            },
            None => {},
        }
        i = i + 1;
    }
    m
}

fn collect_idat(chunks: &Vec<PngChunk>) -> (out: Vec<u8>)
    ensures
        out@ == idat_of(chunks_view(chunks@), chunks@.len()),
{
    let mut out: Vec<u8> = Vec::new();
    let mut i: usize = 0;
    while i < chunks.len()
        invariant
            i <= chunks.len(),
            out@ == idat_of(chunks_view(chunks@), i as nat),
        decreases chunks.len() - i,
    {
        let c = &chunks[i];
        assert(chunks_view(chunks@)[i as int] == c@);
        let ghost before = out@;
        if type_is(&c.ty, 0x49, 0x44, 0x41, 0x54) {
            append_bytes(&mut out, c.data.as_slice(), 0, c.data.len());
            assert(c.data@.subrange(0, c.data@.len() as int) =~= c.data@);
        } else {
            assert(before + Seq::<u8>::empty() =~= before);
        }
        i = i + 1;
    }
    out
}

// ---------------------------------------------------------------------------
// PNG
// ---------------------------------------------------------------------------
/// Whether the data starts as a PNG does.
pub open spec fn has_png_signature(data: Seq<u8>) -> bool {
    data.len() >= 8 && data.take(8) == png_signature()
}

/// What is found behind the end of a PNG: one segment with everything
/// behind the `IEND` chunk, if there is anything.
pub open spec fn trailing(data: Seq<u8>, c: Chunked) -> Seq<Seq<u8>> {
    if c.ended && c.stop < data.len() {
        seq![data.skip(c.stop)]
    } else {
        Seq::empty()
    }
}

/// What a PNG is loaded to. The steps, each with the error that it ends
/// in: eight bytes of signature (`Truncated`, `Signature`), the chunks
/// (`Truncated`), the pixels (`Decode`, `Size`), the raw scanlines out of the
/// pixel-data chunks (`Inflate`).
pub open spec fn spec_load_png(data: Seq<u8>) -> Result<ImageView, LoadError> {
    if data.len() < 8 {
        Err(LoadError::Truncated)
    } else if !has_png_signature(data) {
        Err(LoadError::Signature)
    } else {
        match spec_chunks(data, 8) {
            None => Err(LoadError::Truncated),
            Some(c) => match decoded_rgba(data, ImgFormat::Png) {
                None => Err(LoadError::Decode),
                Some((width, height, pixels)) => if !fits(ImgFormat::Png, width, height, pixels) {
                    Err(LoadError::Size)
                } else {
                    match zlib_inflated(idat_of(c.chunks, c.chunks.len())) {
                        None => Err(LoadError::Inflate),
                        Some(raw) => Ok(
                            ImageView {
                                format: ImgFormat::Png,
                                width,
                                height,
                                pixels,
                                imagedata: raw,
                                metadata: metadata_of(c.chunks, c.chunks.len()),
                                chunks: c.chunks,
                                extradata: trailing(data, c),
                            },
                        ),
                    }
                },
            },
        }
    }
}

fn png_signed(data: &[u8]) -> (r: bool)
    requires
        data.len() >= 8,
    ensures
        r == has_png_signature(data@),
{
    let r = data[0] == 0x89 && data[1] == 0x50 && data[2] == 0x4E && data[3] == 0x47 && data[4]
        == 0x0D && data[5] == 0x0A && data[6] == 0x1A && data[7] == 0x0A;
    proof {
        let head = data@.take(8);
        let want = png_signature();
        if r {
            assert(head =~= want);
        } else {
            assert(head[0] == data@[0] && head[1] == data@[1] && head[2] == data@[2] && head[3]
                == data@[3] && head[4] == data@[4] && head[5] == data@[5] && head[6] == data@[6]
                && head[7] == data@[7]);
            assert(want[0] == 0x89u8 && want[1] == 0x50u8 && want[2] == 0x4Eu8 && want[3] == 0x47u8
                && want[4] == 0x0Du8 && want[5] == 0x0Au8 && want[6] == 0x1Au8 && want[7]
                == 0x0Au8);
        }
    }
    r
}

// ---------------------------------------------------------------------------
// BMP
// ---------------------------------------------------------------------------
/// The two bytes at `pos` as a little-endian number.
pub open spec fn le16(data: Seq<u8>, pos: int) -> nat {
    (data[pos] + data[pos + 1] * 256) as nat
}

/// The four bytes at `pos` as a little-endian number.
pub open spec fn le32_at(data: Seq<u8>, pos: int) -> nat {
    (data[pos] + data[pos + 1] * 256 + data[pos + 2] * 65536 + data[pos + 3] * 16777216) as nat
}

/// Bytes per stored row of a BMP: whole bytes per pixel as the header says,
/// padded to a multiple of 4.
pub open spec fn bmp_row_size(data: Seq<u8>, width: u32) -> nat {
    (((width * (le16(data, 28) / 8) + 3) / 4) * 4) as nat
}

/// Whether the rows are stored bottom-up: the height in the header, read as
/// a signed number, is above zero.
pub open spec fn bmp_bottom_up(data: Seq<u8>) -> bool {
    0 < le32_at(data, 22) < 0x8000_0000
}

/// The first `k` rows of the stored rows in opposite order.
pub open spec fn rows_flipped(raw: Seq<u8>, row: nat, height: nat, k: nat) -> Seq<u8>
    decreases k,
{
    if k == 0 {
        Seq::empty()
    } else {
        rows_flipped(raw, row, height, (k - 1) as nat) + raw.subrange(
            (height - k) * row,
            (height - k + 1) * row,
        )
    }
}

/// The pixel rows of a BMP from top to bottom: `height` rows from the
/// offset that the header names, turned round if they are stored
/// bottom-up. `None` where the header or the rows are cut short.
pub open spec fn spec_bmp_rows(data: Seq<u8>, width: u32, height: u32) -> Option<Seq<u8>> {
    if data.len() < 54 {
        None
    } else {
        let offset = le32_at(data, 10);
        let row = bmp_row_size(data, width);
        let total = row * height;
        if offset + total > data.len() {
            None
        } else {
            let raw = data.subrange(offset as int, offset + total);
            if bmp_bottom_up(data) {
                Some(rows_flipped(raw, row, height as nat, height as nat))
            } else {
                Some(raw)
            }
        }
    }
}

/// Whether the data starts as a BMP does.
pub open spec fn has_bmp_signature(data: Seq<u8>) -> bool {
    data.len() >= 2 && data[0] == 0x42 && data[1] == 0x4D
}

/// What a BMP is loaded to. The steps, each with the error that it ends in:
/// the signature (`NotBmp`), the pixels (`Decode`, `Size`), the stored rows
/// (`Truncated`).
pub open spec fn spec_load_bmp(data: Seq<u8>) -> Result<ImageView, LoadError> {
    if !has_bmp_signature(data) {
        Err(LoadError::NotBmp)
    } else {
        match decoded_rgba(data, ImgFormat::Bmp) {
            None => Err(LoadError::Decode),
            Some((width, height, pixels)) => if !fits(ImgFormat::Bmp, width, height, pixels) {
                Err(LoadError::Size)
            } else {
                match spec_bmp_rows(data, width, height) {
                    None => Err(LoadError::Truncated),
                    Some(rows) => Ok(
                        ImageView {
                            format: ImgFormat::Bmp,
                            width,
                            height,
                            pixels,
                            imagedata: rows,
                            metadata: Seq::empty(),
                            chunks: Seq::empty(),
                            extradata: Seq::empty(),
                        },
                    ),
                }
            },
        }
    }
}

/// Reads the stored pixel rows of a BMP, from top to bottom.
pub fn read_bmp_pixel_data(data: &[u8], width: u32, height: u32) -> (r: Option<Vec<u8>>)
    ensures
        crate::zlib::opt_bytes(r) == spec_bmp_rows(data@, width, height),
{
    let n = data.len();
    if n < 54 {
        return None;
    }
    let offset: u64 = (data[10] as u64) + (data[11] as u64) * 256 + (data[12] as u64) * 65536 + (
    data[13] as u64) * 16777216;
    let depth: u64 = (data[28] as u64) + (data[29] as u64) * 256;
    let signed_height: u64 = (data[22] as u64) + (data[23] as u64) * 256 + (data[24] as u64)
        * 65536 + (data[25] as u64) * 16777216;
    let bottom_up = 0 < signed_height && signed_height < 0x8000_0000;
    let per_pixel: u64 = depth / 8;
    assert(width * per_pixel <= 0xFFFF_FFFF * 8191 && 0 <= width * per_pixel) by (nonlinear_arith)
        requires
            0 <= width <= 0xFFFF_FFFF,
            0 <= per_pixel <= 8191,
    ;
    let row: u64 = ((width as u64 * per_pixel + 3) / 4) * 4;
    assert(row * height <= 0x2000_0000_0000 * 0xFFFF_FFFF && 0 <= row * height) by (nonlinear_arith)
        requires
            0 <= row <= 0x2000_0000_0000,
            0 <= height <= 0xFFFF_FFFF,
    ;
    let total: u128 = (row as u128) * (height as u128);
    if offset as u128 + total > n as u128 {
        return None;
    }
    if height == 0 {
        let none: Vec<u8> = Vec::new();
        assert(row * height == 0) by (nonlinear_arith)
            requires
                height == 0,
        ;
        assert(data@.subrange(offset as int, offset as int + 0) =~= none@);
        return Some(none);
    }
    assert(row <= row * height) by (nonlinear_arith)
        requires
            0 <= row,
            1 <= height,
    ;
    let start = offset as usize;
    let size = total as usize;
    let row_size = row as usize;
    let rows = height as usize;
    if !bottom_up {
        return Some(slice_to_vec(slice_subrange(data, start, start + size)));
    }
    let ghost raw = data@.subrange(start as int, start + size);
    let mut out: Vec<u8> = Vec::new();
    let mut k: usize = 0;
    while k < rows
        invariant
            k <= rows,
            rows == height,
            row_size == row,
            size == row_size * rows,
            start + size <= data.len(),
            raw == data@.subrange(start as int, start + size),
            out@ == rows_flipped(raw, row_size as nat, rows as nat, k as nat),
        decreases rows - k,
    {
        k = k + 1;
        let source = rows - k;
        assert(0 <= source * row_size && (source + 1) * row_size <= row_size * rows && (source
            + 1) * row_size == source * row_size + row_size) by (nonlinear_arith)
            requires
                0 <= source < rows,
                0 <= row_size,
        ;
        let from = start + source * row_size;
        append_bytes(&mut out, data, from, from + row_size);
        assert(data@.subrange(from as int, from + row_size) =~= raw.subrange(
            source * row_size,
            (source + 1) * row_size,
        ));
    }
    Some(out)
}

// ---------------------------------------------------------------------------
// Loading
// ---------------------------------------------------------------------------
/// What a container is loaded to when nothing is known of its format: a PNG
/// if it starts as one, else a BMP.
pub open spec fn spec_load_auto(data: Seq<u8>) -> Result<ImageView, LoadError> {
    if has_png_signature(data) {
        spec_load_png(data)
    } else {
        spec_load_bmp(data)
    }
}

/// What a container is loaded to. The extension of its file name decides
/// the format, in any case: `png`, `bmp`, or anything else for a guess from
/// the content.
pub open spec fn spec_load(extension: Seq<char>, data: Seq<u8>) -> Result<ImageView, LoadError> {
    if lowercased(extension) == "png"@ {
        spec_load_png(data)
    } else if lowercased(extension) == "bmp"@ {
        spec_load_bmp(data)
    } else {
        spec_load_auto(data)
    }
}

impl Image {
    /// Whether the image is one that scan and extraction take: its pixels
    /// fit its dimensions.
    pub fn well_formed(&self) -> (ok: bool)
        ensures
            ok == self.wf(),
    {
        check_fit(self.format, self.width, self.height, &self.pixels)
    }

    /// Loads an image from the bytes of its file. `extension` is the
    /// extension of the file's name, without the dot.
    pub fn load(extension: &str, data: &[u8]) -> (r: Result<Image, LoadError>)
        ensures
            match r {
                Ok(image) => spec_load(extension@, data@) == Ok::<ImageView, LoadError>(image@)
                    && image.wf() && keys_distinct(image@.metadata),
                Err(e) => spec_load(extension@, data@) == Err::<ImageView, LoadError>(e),
            },
    {
        let low = lowercase_string(extension);
        let chars = str_chars(low.as_str());
        if is_word(&chars, "png") {
            Image::load_png(data)
        } else if is_word(&chars, "bmp") {
            Image::load_bmp(data)
        } else {
            Image::load_auto(data)
        }
    }

    /// Loads a container of unknown format.
    pub fn load_auto(data: &[u8]) -> (r: Result<Image, LoadError>)
        ensures
            match r {
                Ok(image) => spec_load_auto(data@) == Ok::<ImageView, LoadError>(image@)
                    && image.wf() && keys_distinct(image@.metadata),
                Err(e) => spec_load_auto(data@) == Err::<ImageView, LoadError>(e),
            },
    {
        if data.len() >= 8 && png_signed(data) {
            Image::load_png(data)
        } else {
            Image::load_bmp(data)
        }
    }

    /// Loads a BMP.
    pub fn load_bmp(data: &[u8]) -> (r: Result<Image, LoadError>)
        ensures
            match r {
                Ok(image) => spec_load_bmp(data@) == Ok::<ImageView, LoadError>(image@)
                    && image.wf() && keys_distinct(image@.metadata),
                Err(e) => spec_load_bmp(data@) == Err::<ImageView, LoadError>(e),
            },
    {
        if data.len() < 2 || data[0] != 0x42 || data[1] != 0x4D {
            return Err(LoadError::NotBmp);
        }
        let (width, height, pixels) = match decode_rgba(data, ImgFormat::Bmp) {
            Ok(p) => p,
            Err(_) => {
                return Err(LoadError::Decode);
            },
        };
        if !check_fit(ImgFormat::Bmp, width, height, &pixels) {
            return Err(LoadError::Size);
        }
        let imagedata = match read_bmp_pixel_data(data, width, height) {
            Some(rows) => rows,
            None => {
                return Err(LoadError::Truncated);
            },
        };
        let image = Image {
            format: ImgFormat::Bmp,
            width,
            height,
            pixels,
            imagedata,
            metadata: Vec::new(),
            chunks: Vec::new(),
            extradata: Vec::new(),
        };
        assert(image@.metadata =~= Seq::<(Seq<char>, Seq<char>)>::empty());
        assert(image@.chunks =~= Seq::<ChunkView>::empty());
        assert(image@.extradata =~= Seq::<Seq<u8>>::empty());
        Ok(image)
    }

    /// Loads a PNG.
    pub fn load_png(data: &[u8]) -> (r: Result<Image, LoadError>)
        ensures
            match r {
                Ok(image) => spec_load_png(data@) == Ok::<ImageView, LoadError>(image@)
                    && image.wf() && keys_distinct(image@.metadata),
                Err(e) => spec_load_png(data@) == Err::<ImageView, LoadError>(e),
            },
    {
        if data.len() < 8 {
            return Err(LoadError::Truncated);
        }
        if !png_signed(data) {
            return Err(LoadError::Signature);
        }
        let (chunks, stop, ended) = match read_chunks(data) {
            Some(c) => c,
            None => {
                return Err(LoadError::Truncated);
            },
        };
        let ghost c = Chunked { chunks: chunks_view(chunks@), stop: stop as int, ended };
        let mut extradata: Vec<Vec<u8>> = Vec::new();
        if ended && stop < data.len() {
            let rest = slice_to_vec(slice_subrange(data, stop, data.len()));
            assert(rest@ =~= data@.skip(stop as int));
            extradata.push(rest);
        }
        assert(segments_view(extradata@) =~= trailing(data@, c));
        let (width, height, pixels) = match decode_rgba(data, ImgFormat::Png) {
            Ok(p) => p,
            Err(_) => {
                return Err(LoadError::Decode);
            },
        };
        if !check_fit(ImgFormat::Png, width, height, &pixels) {
            return Err(LoadError::Size);
        }
        let metadata = collect_metadata(&chunks);
        proof {
            lemma_metadata_keys(chunks_view(chunks@), chunks@.len());
        }
        let idat = collect_idat(&chunks);
        let imagedata = match inflate(idat.as_slice()) {
            Some(raw) => raw,
            None => {
                return Err(LoadError::Inflate);
            },
        };
        Ok(
            Image {
                format: ImgFormat::Png,
                width,
                height,
                pixels,
                imagedata,
                metadata,
                chunks,
                extradata,
            },
        )
    }
}

} // verus!
