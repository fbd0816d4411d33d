//! The extractor: walks an image in a configured order, feeds sample bits to
//! the bit packer, and post-processes the bytes that come out.

use vstd::prelude::*;
use vstd::string::StringExecFns;
use crate::bitpack::{
    clamp_width, pack, push_bits, push_nbits, sample_bits, widths_bits, BitPacker,
};
use crate::imageio::Image;
use crate::opts::{BitOrder, Options, OrderSpec, PrimeSpec};
use crate::postproc::{invert_bytes, invert_seq, shift_bytes, shift_prepend_zero_bits};
use crate::prime::{is_prime, is_prime_spec};
use crate::text::{decimal, push_decimal, str_chars};

verus! {

// ---------------------------------------------------------------------------
// Order tokens
// ---------------------------------------------------------------------------
/// A token asks for byte granularity when it holds the letter `b` in either
/// case.
pub open spec fn is_byte_token(token: Seq<char>) -> bool {
    token.contains('b') || token.contains('B')
}

/// A token asks for column-major pixel order when it reads `yx`, in any case.
pub open spec fn is_column_token(token: Seq<char>) -> bool {
    &&& token.len() == 2
    &&& (token[0] == 'y' || token[0] == 'Y')
    &&& (token[1] == 'x' || token[1] == 'X')
}

/// Index of the first byte token at or behind `from`; the number of tokens
/// if there is none.
pub open spec fn find_byte_token(tokens: Seq<String>, from: int) -> int
    decreases tokens.len() - from,
{
    if from < 0 || from >= tokens.len() {
        tokens.len() as int
    } else if is_byte_token(tokens[from]@) {
        from
    } else {
        find_byte_token(tokens, from + 1)
    }
}

/// Whether some token asks for column-major order.
pub open spec fn has_column_token(tokens: Seq<String>) -> bool {
    exists|i: int| 0 <= i < tokens.len() && is_column_token(#[trigger] tokens[i]@)
}

/// Direction of the byte axis: the last `b` or `B` of the token decides, and
/// the capital letter means high to low.
pub open spec fn x_reversed(order: Seq<char>) -> bool
    decreases order.len(),
{
    if order.len() == 0 {
        false
    } else if order.last() == 'B' {
        true
    } else if order.last() == 'b' {
        false
    } else {
        x_reversed(order.drop_last())
    }
}

/// Direction of the row axis: the last `y` or `Y` of the token decides.
pub open spec fn y_reversed(order: Seq<char>) -> bool
    decreases order.len(),
{
    if order.len() == 0 {
        false
    } else if order.last() == 'Y' {
        true
    } else if order.last() == 'y' {
        false
    } else {
        y_reversed(order.drop_last())
    }
}

/// Rows are the outer loop when the token starts with the byte letter.
pub open spec fn row_first(order: Seq<char>) -> bool {
    order.len() == 0 || order[0] == 'b' || order[0] == 'B'
}

fn has_byte_marker(chars: &Vec<char>) -> (r: bool)
    ensures
        r == is_byte_token(chars@),
{
    let mut i: usize = 0;
    while i < chars.len()
        invariant
            i <= chars.len(),
            forall|k: int| 0 <= k < i ==> chars@[k] != 'b' && chars@[k] != 'B',
        decreases chars.len() - i,
    {
        if chars[i] == 'b' || chars[i] == 'B' {
            return true;
        }
        i = i + 1;
    }
    false
}

fn is_yx(chars: &Vec<char>) -> (r: bool)
    ensures
        r == is_column_token(chars@),
{
    chars.len() == 2 && (chars[0] == 'y' || chars[0] == 'Y') && (chars[1] == 'x' || chars[1]
        == 'X')
}

// ---------------------------------------------------------------------------
// Ranges
// ---------------------------------------------------------------------------
/// The positions `start`, `start ± step`, ... up to and including the last
/// one that does not pass `end`; downwards when `start` is above `end`.
#[derive(Debug, Clone, Copy, PartialEq, Eq)]
pub struct AxisRange {
    pub start: u64,
    pub end: u64,
    pub step: u64,
}

impl AxisRange {
    /// Distance between the two ends.
    pub open spec fn span(&self) -> nat {
        if self.start <= self.end {
            (self.end - self.start) as nat
        } else {
            (self.start - self.end) as nat
        }
    }

    /// Number of positions.
    pub open spec fn spec_count(&self) -> nat {
        self.span() / (self.step as nat) + 1
    }

    /// Position number `i`, counted from 0.
    pub open spec fn spec_at(&self, i: int) -> int {
        if self.start <= self.end {
            self.start + i * self.step
        } else {
            self.start - i * self.step
        }
    }

    /// Number of positions.
    pub fn count(&self) -> (n: u64)
        requires
            self.step > 0,
            self.spec_count() <= u64::MAX,
        ensures
            n == self.spec_count(),
    {
        let span = if self.start <= self.end {
            self.end - self.start
        } else {
            self.start - self.end
        };
        span / self.step + 1
    }

    /// Position number `i`.
    pub fn at(&self, i: u64) -> (v: u64)
        requires
            self.step > 0,
            i < self.spec_count(),
        ensures
            v == self.spec_at(i as int),
    {
        let ghost span = self.span();
        assert(i * self.step <= span) by (nonlinear_arith)
            requires
                i <= span / (self.step as nat),
                self.step > 0,
        ;
        if self.start <= self.end {
            self.start + i * self.step
        } else {
            self.start - i * self.step
        }
    }
}

/// The range from `start` to `end` in steps of `step`.
pub fn make_range(start: u64, end: u64, step: u64) -> (r: AxisRange)
    requires
        step > 0,
    ensures
        r.start == start,
        r.end == end,
        r.step == step,
{
    AxisRange { start, end, step }
}

/// Start, end and step of the byte axis, then of the row axis, as the order
/// token asks for them: `(x_start, x_end, x_step, y_start, y_end, y_step)`.
pub fn parse_byte_order(order: &str, image: &Image) -> (r: (u64, u64, u64, u64, u64, u64))
    ensures
        r.0 == if x_reversed(order@) {
            image.grid_cols() - 1
        } else {
            0
        },
        r.1 == if x_reversed(order@) {
            0
        } else {
            image.grid_cols() - 1
        },
        r.2 == 1,
        r.3 == if y_reversed(order@) {
            image.grid_rows() - 1
        } else {
            0
        },
        r.4 == if y_reversed(order@) {
            0
        } else {
            image.grid_rows() - 1
        },
        r.5 == 1,
{
    let stride = image.row_stride();
    let max_y: u64 = if image.height > 0 {
        (image.height - 1) as u64
    } else {
        0
    };
    let max_x: u64 = if stride > 0 {
        stride - 1
    } else {
        0
    };
    let chars = str_chars(order);
    let mut x_rev = false;
    let mut y_rev = false;
    let mut i: usize = 0;
    assert(chars@.take(0) =~= Seq::<char>::empty());
    while i < chars.len()
        invariant
            i <= chars.len(),
            x_rev == x_reversed(chars@.take(i as int)),
            y_rev == y_reversed(chars@.take(i as int)),
        decreases chars.len() - i,
    {
        let c = chars[i];
        proof {
            let next = chars@.take(i + 1);
            assert(next.drop_last() =~= chars@.take(i as int));
            assert(next.last() == c);
        }
        if c == 'b' {
            x_rev = false;
        } else if c == 'B' {
            x_rev = true;
        } else if c == 'y' {
            y_rev = false;
        } else if c == 'Y' {
            y_rev = true;
        }
        i = i + 1;
    }
    assert(chars@.take(chars.len() as int) =~= chars@);
    let (x_start, x_end) = if x_rev {
        (max_x, 0)
    } else {
        (0, max_x)
    };
    let (y_start, y_end) = if y_rev {
        (max_y, 0)
    } else {
        (0, max_y)
    };
    (x_start, x_end, 1, y_start, y_end, 1)
}

// ---------------------------------------------------------------------------
// Channels
// ---------------------------------------------------------------------------
/// One of the four channel letters.
pub open spec fn is_channel_letter(c: char) -> bool {
    c == 'r' || c == 'g' || c == 'b' || c == 'a'
}

/// A decimal digit.
pub open spec fn is_digit(c: char) -> bool {
    '0' <= c <= '9'
}

/// Pair number `k` of a pattern is a channel letter and a digit.
pub open spec fn is_tagged_pair(pattern: Seq<char>, k: int) -> bool {
    is_channel_letter(pattern[2 * k]) && is_digit(pattern[2 * k + 1])
}

/// A pattern is tagged when it is made of pairs of a channel letter and a
/// digit, such as `r3g2b3`.
pub open spec fn is_tagged(pattern: Seq<char>) -> bool {
    &&& pattern.len() % 2 == 0
    &&& forall|k: int| 0 <= k < pattern.len() / 2 ==> #[trigger] is_tagged_pair(pattern, k)
}

/// The channels that a pattern selects, in order.
pub open spec fn pattern_channels(pattern: Seq<char>) -> Seq<char> {
    if is_tagged(pattern) {
        Seq::new(pattern.len() / 2, |k: int| pattern[2 * k])
    } else {
        pattern
    }
}

/// The widths that a tagged pattern gives its channels; empty for a pattern
/// that is not tagged.
pub open spec fn pattern_widths(pattern: Seq<char>) -> Seq<u8> {
    if is_tagged(pattern) {
        Seq::new(pattern.len() / 2, |k: int| (pattern[2 * k + 1] as u8 - '0' as u8) as u8)
    } else {
        Seq::empty()
    }
}

fn chars_tagged(chars: &Vec<char>) -> (r: bool)
    ensures
        r == is_tagged(chars@),
{
    if chars.len() % 2 != 0 {
        return false;
    }
    let mut k: usize = 0;
    while k < chars.len() / 2
        invariant
            chars.len() % 2 == 0,
            k <= chars.len() / 2,
            forall|m: int| 0 <= m < k ==> #[trigger] is_tagged_pair(chars@, m),
        decreases chars.len() / 2 - k,
    {
        let c = chars[2 * k];
        let d = chars[2 * k + 1];
        let letter = c == 'r' || c == 'g' || c == 'b' || c == 'a';
        let digit = '0' <= d && d <= '9';
        if !(letter && digit) {
            assert(!is_tagged_pair(chars@, k as int));
            return false;
        }
        assert(is_tagged_pair(chars@, k as int));
        k = k + 1;
    }
    true
}

/// Splits the characters of a channel pattern into its channels and, for a
/// tagged pattern, the width of each.
pub fn split_pattern(chars: Vec<char>) -> (r: (Vec<char>, Vec<u8>))
    ensures
        r.0@ == pattern_channels(chars@),
        r.1@ == pattern_widths(chars@),
{
    if chars_tagged(&chars) {
        let mut chs: Vec<char> = Vec::new();
        let mut bits: Vec<u8> = Vec::new();
        let mut k: usize = 0;
        while k < chars.len() / 2
            invariant
                is_tagged(chars@),
                k <= chars.len() / 2,
                chs@.len() == k,
                bits@.len() == k,
                forall|m: int| 0 <= m < k ==> chs@[m] == chars@[2 * m],
                forall|m: int|
                    0 <= m < k ==> bits@[m] == (chars@[2 * m + 1] as u8 - '0' as u8) as u8,
            decreases chars.len() / 2 - k,
        {
            let c = chars[2 * k];
            let d = chars[2 * k + 1];
            assert(is_tagged_pair(chars@, k as int));
            chs.push(c);
            bits.push(d as u8 - '0' as u8);
            k = k + 1;
        }
        assert(chs@ =~= pattern_channels(chars@));
        assert(bits@ =~= pattern_widths(chars@));
        (chs, bits)
    } else {
        (chars, Vec::new())
    }
}

/// Splits a channel pattern into its channels and, for a tagged pattern such
/// as `r3g2b3`, the width of each.
pub fn parse_channels_pattern(p: &str) -> (r: (Vec<char>, Vec<u8>))
    ensures
        r.0@ == pattern_channels(p@),
        r.1@ == pattern_widths(p@),
{
    split_pattern(str_chars(p))
}

// ---------------------------------------------------------------------------
// Configuration
// ---------------------------------------------------------------------------
/// How the image is walked.
#[derive(Debug, Clone, PartialEq, Eq)]
pub enum Traversal {
    /// Over the raw byte grid, as the order token says.
    Bytes(String),
    /// Over the pixels, column by column.
    Columns,
    /// Over the pixels, row by row.
    Rows,
}

/// What one extraction does, with every choice made.
#[derive(Debug, Clone, PartialEq, Eq)]
pub struct ExtractionConfig {
    pub traversal: Traversal,
    /// Selected channels, in order.
    pub channels: Vec<char>,
    /// Width of each channel; empty when the bit-width list applies.
    pub per_channel: Vec<u8>,
    /// Requested bit widths or masks.
    pub widths: Vec<u16>,
    pub bit_order: BitOrder,
    /// Whether only prime positions contribute.
    pub prime_only: bool,
    /// Output length at which the walk stops; 0 is unlimited.
    pub limit: usize,
    /// Shift in bits, below 8.
    pub shift: u32,
    pub invert: bool,
}

/// Mathematical counterpart of [`Traversal`].
pub enum TraversalSpec {
    Bytes(Seq<char>),
    Columns,
    Rows,
}

/// Mathematical counterpart of [`ExtractionConfig`].
pub struct ConfigSpec {
    pub traversal: TraversalSpec,
    pub channels: Seq<char>,
    pub per_channel: Seq<u8>,
    pub widths: Seq<u16>,
    pub bit_order: BitOrder,
    pub prime_only: bool,
    pub limit: nat,
    pub shift: nat,
    pub invert: bool,
}

impl View for Traversal {
    type V = TraversalSpec;

    open spec fn view(&self) -> TraversalSpec {
        match self {
            Traversal::Bytes(token) => TraversalSpec::Bytes(token@),
            Traversal::Columns => TraversalSpec::Columns,
            Traversal::Rows => TraversalSpec::Rows,
        }
    }
}

impl View for ExtractionConfig {
    type V = ConfigSpec;

    open spec fn view(&self) -> ConfigSpec {
        ConfigSpec {
            traversal: self.traversal@,
            channels: self.channels@,
            per_channel: self.per_channel@,
            widths: self.widths@,
            bit_order: self.bit_order,
            prime_only: self.prime_only,
            limit: self.limit as nat,
            shift: self.shift as nat,
            invert: self.invert,
        }
    }
}

/// All strings of a list, one behind the other.
pub open spec fn concat_all(parts: Seq<String>) -> Seq<char>
    decreases parts.len(),
{
    if parts.len() == 0 {
        Seq::empty()
    } else {
        concat_all(parts.drop_last()) + parts.last()@
    }
}

/// The channel pattern in force: the selected patterns joined, or `rgb`.
pub open spec fn spec_pattern(channels: Option<Vec<String>>) -> Seq<char> {
    match channels {
        Some(v) => concat_all(v@),
        None => seq!['r', 'g', 'b'],
    }
}

/// The traversal that an order selection stands for: the first byte token if
/// there is one, else column-major if some token reads `yx`, else row-major.
pub open spec fn spec_traversal(order: OrderSpec) -> TraversalSpec {
    match order {
        OrderSpec::Explicit(v) => {
            let i = find_byte_token(v@, 0);
            if i < v@.len() {
                TraversalSpec::Bytes(v@[i]@)
            } else if has_column_token(v@) {
                TraversalSpec::Columns
            } else {
                TraversalSpec::Rows
            }
        },
        _ => TraversalSpec::Rows,
    }
}

/// The extraction that a set of options stands for. An unset bit order is
/// `Lsb`, unset channels are `rgb`, an unset width list is the single width 1.
pub open spec fn spec_config(opts: Options) -> ConfigSpec {
    let pattern = spec_pattern(opts.channels);
    ConfigSpec {
        traversal: spec_traversal(opts.order),
        channels: pattern_channels(pattern),
        per_channel: pattern_widths(pattern),
        widths: match opts.bits {
            Some(v) => v@,
            None => seq![1u16],
        },
        bit_order: match opts.bit_order {
            Some(o) => o,
            None => BitOrder::Lsb,
        },
        prime_only: opts.prime is Only,
        limit: opts.limit as nat,
        shift: match opts.shift {
            Some(n) => (n % 8) as nat,
            None => 0,
        },
        invert: opts.invert,
    }
}

// ---------------------------------------------------------------------------
// What one cell of a walk contributes
// ---------------------------------------------------------------------------
/// The sample of channel `ch` of the pixel that starts at `idx`; 0 for a
/// letter that names no channel.
pub open spec fn channel_value(pixels: Seq<u8>, idx: int, ch: char) -> u8 {
    if ch == 'r' {
        pixels[idx]
    } else if ch == 'g' {
        pixels[idx + 1]
    } else if ch == 'b' {
        pixels[idx + 2]
    } else if ch == 'a' {
        pixels[idx + 3]
    } else {
        0
    }
}

/// The width of channel number `i` under per-channel widths; 1 where the
/// list has none for it.
pub open spec fn channel_width(per_channel: Seq<u8>, i: int) -> u16 {
    if 0 <= i < per_channel.len() {
        per_channel[i] as u16
    } else {
        1
    }
}

/// The bits that one pixel contributes: for each selected channel in order,
/// its sample at its own width if per-channel widths are set, else at every
/// requested width in turn.
pub open spec fn pixel_bits(
    pixels: Seq<u8>,
    idx: int,
    channels: Seq<char>,
    per_channel: Seq<u8>,
    widths: Seq<u16>,
) -> Seq<bool>
    decreases channels.len(),
{
    if channels.len() == 0 {
        Seq::empty()
    } else {
        let i = channels.len() - 1;
        let v = channel_value(pixels, idx, channels[i]);
        pixel_bits(pixels, idx, channels.drop_last(), per_channel, widths) + (
        if per_channel.len() > 0 {
            sample_bits(v, clamp_width(channel_width(per_channel, i)))
        } else {
            widths_bits(v, widths)
        })
    }
}

/// Position in the raw byte stream of cell number `k` of a byte walk.
pub open spec fn byte_pos(img: Image, order: Seq<char>, k: int) -> int {
    let cols = img.grid_cols() as int;
    let rows = img.grid_rows() as int;
    let inner = if row_first(order) {
        cols
    } else {
        rows
    };
    let o = k / inner;
    let j = k % inner;
    let yi = if row_first(order) {
        o
    } else {
        j
    };
    let xi = if row_first(order) {
        j
    } else {
        o
    };
    let y = if y_reversed(order) {
        rows - 1 - yi
    } else {
        yi
    };
    let x = if x_reversed(order) {
        cols - 1 - xi
    } else {
        xi
    };
    y * crate::imageio::spec_row_stride(img.format, img.width) + x
}

/// Row and column of pixel number `k` of a pixel walk.
pub open spec fn pixel_coords(img: Image, column_major: bool, k: int) -> (int, int) {
    if column_major {
        (k % (img.height as int), k / (img.height as int))
    } else {
        (k / (img.width as int), k % (img.width as int))
    }
}

/// What cell number `k` of the walk contributes: `None` where a byte walk
/// leaves the raw byte stream, no bits where the prime filter leaves the cell
/// out. A byte walk tests the cell's number, a pixel walk the number
/// `y * 1_000_003 + x`.
pub open spec fn cell(img: Image, c: ConfigSpec, k: int) -> Option<Seq<bool>> {
    match c.traversal {
        TraversalSpec::Bytes(order) => {
            let pos = byte_pos(img, order, k);
            if pos >= img.imagedata@.len() {
                None
            } else if c.prime_only && !is_prime_spec(k as nat) {
                Some(Seq::empty())
            } else {
                Some(widths_bits(img.imagedata@[pos], c.widths))
            }
        },
        _ => {
            let (y, x) = pixel_coords(img, c.traversal is Columns, k);
            if c.prime_only && !is_prime_spec((y * 1_000_003 + x) as nat) {
                Some(Seq::empty())
            } else {
                Some(
                    pixel_bits(
                        img.pixels@,
                        (y * img.width + x) * 4,
                        c.channels,
                        c.per_channel,
                        c.widths,
                    ),
                )
            }
        },
    }
}

/// Number of cells of the walk.
pub open spec fn total_cells(img: Image, c: ConfigSpec) -> nat {
    match c.traversal {
        TraversalSpec::Bytes(_) => img.grid_rows() * img.grid_cols(),
        _ => (img.width * img.height) as nat,
    }
}

/// The bit stream at the end of a walk that stands before cell `from` with
/// the bits `acc`. The walk ends behind the last cell, before a cell that
/// lies outside the data, or as soon as the bits make up `limit` bytes
/// (`limit` 0: never).
pub open spec fn gather(img: Image, c: ConfigSpec, from: nat, acc: Seq<bool>) -> Seq<bool>
    decreases total_cells(img, c) - from,
{
    if from >= total_cells(img, c) {
        acc
    } else {
        match cell(img, c, from as int) {
            None => acc,
            Some(bits) => {
                let next = acc + bits;
                if c.limit > 0 && next.len() / 8 >= c.limit {
                    next
                } else {
                    gather(img, c, from + 1, next)
                }
            },
        }
    }
}

/// The bytes that an extraction yields: the gathered bits packed, then
/// shifted, then inverted if asked for.
pub open spec fn spec_extract(img: Image, c: ConfigSpec) -> Seq<u8> {
    let packed = pack(gather(img, c, 0, Seq::empty()), c.bit_order);
    let shifted = shift_bytes(packed, c.shift);
    if c.invert {
        invert_seq(shifted)
    } else {
        shifted
    }
}

/// Whether the byte with running number `byte_index` contributes.
pub fn use_prime(byte_index: u64, prime_only: bool) -> (r: bool)
    ensures
        r == (!prime_only || is_prime_spec(byte_index as nat)),
{
    if prime_only {
        is_prime(byte_index)
    } else {
        true
    }
}

/// Whether the pixel in row `y`, column `x` contributes.
pub fn use_prime_pixel(y: usize, x: usize, prime_only: bool) -> (r: bool)
    requires
        y <= u32::MAX,
        x <= u32::MAX,
    ensures
        r == (!prime_only || is_prime_spec((y * 1_000_003 + x) as nat)),
{
    if prime_only {
        is_prime((y as u64) * 1_000_003 + (x as u64))
    } else {
        true
    }
}

/// Feeds the selected channels of the pixel that starts at `idx` to the
/// packer, unless the pixel is left out.
pub fn process_pixel(
    idx: usize,
    pixels: &Vec<u8>,
    channels: &Vec<char>,
    per_channel_bits: &Vec<u8>,
    bits: &Vec<u16>,
    p: &mut BitPacker,
    use_it: bool,
)
    requires
        old(p).wf(),
        idx + 4 <= pixels.len(),
    ensures
        final(p).wf(),
        final(p).order() == old(p).order(),
        final(p).stream() == old(p).stream() + (if use_it {
            pixel_bits(pixels@, idx as int, channels@, per_channel_bits@, bits@)
        } else {
            Seq::empty()
        }),
{
    assert(old(p).stream() + Seq::<bool>::empty() =~= old(p).stream());
    if !use_it {
        return ;
    }
    let mut i: usize = 0;
    assert(channels@.take(0) =~= Seq::<char>::empty());
    while i < channels.len()
        invariant
            i <= channels.len(),
            idx + 4 <= pixels.len(),
            p.wf(),
            p.order() == old(p).order(),
            p.stream() == old(p).stream() + pixel_bits(
                pixels@,
                idx as int,
                channels@.take(i as int),
                per_channel_bits@,
                bits@,
            ),
        decreases channels.len() - i,
    {
        let ch = channels[i];
        let v: u8 = if ch == 'r' {
            pixels[idx]
        } else if ch == 'g' {
            pixels[idx + 1]
        } else if ch == 'b' {
            pixels[idx + 2]
        } else if ch == 'a' {
            pixels[idx + 3]
        } else {
            0
        };
        if per_channel_bits.len() > 0 {
            let nb: u16 = if i < per_channel_bits.len() {
                per_channel_bits[i] as u16
            } else {
                1
            };
            push_nbits(p, v, nb);
        } else {
            push_bits(p, v, bits);
        }
        proof {
            let next = channels@.take(i + 1);
            assert(next.drop_last() =~= channels@.take(i as int));
            assert(next.last() == ch);
            assert(p.stream() =~= old(p).stream() + pixel_bits(
                pixels@,
                idx as int,
                next,
                per_channel_bits@,
                bits@,
            ));
        }
        i = i + 1;
    }
    assert(channels@.take(channels.len() as int) =~= channels@);
}

// ---------------------------------------------------------------------------
// The walks
// ---------------------------------------------------------------------------
proof fn lemma_cell_index(o: int, j: int, n_outer: int, n_inner: int)
    requires
        0 <= o < n_outer,
        0 <= j < n_inner,
    ensures
        o * n_inner + j < n_outer * n_inner,
        (o * n_inner + j) / n_inner == o,
        (o * n_inner + j) % n_inner == j,
        (o + 1) * n_inner == o * n_inner + n_inner,
        n_outer * n_inner == n_inner * n_outer,
        0 <= o * n_inner,
{
    assert(o * n_inner + j < n_outer * n_inner) by (nonlinear_arith)
        requires
            0 <= o < n_outer,
            0 <= j < n_inner,
    ;
    vstd::arithmetic::div_mod::lemma_fundamental_div_mod_converse(o * n_inner + j, n_inner, o, j);
    assert((o + 1) * n_inner == o * n_inner + n_inner) by (nonlinear_arith);
    assert(n_outer * n_inner == n_inner * n_outer) by (nonlinear_arith);
    assert(0 <= o * n_inner) by (nonlinear_arith)
        requires
            0 <= o,
            0 <= n_inner,
    ;
}

/// Where the pixel in row `y`, column `x` starts in the pixel buffer.
fn pixel_index(y: usize, x: usize, w: usize, h: usize, Ghost(len): Ghost<nat>) -> (idx: usize)
    requires
        y < h,
        x < w,
        len == w * h * 4,
        len <= usize::MAX,
    ensures
        idx == (y * w + x) * 4,
        idx + 4 <= len,
{
    assert((y * w + x) * 4 + 4 <= w * h * 4 && 0 <= y * w) by (nonlinear_arith)
        requires
            0 <= y < h,
            0 <= x < w,
    ;
    (y * w + x) * 4
}

fn walk_pixels(image: &Image, cfg: &ExtractionConfig) -> (p: BitPacker)
    requires
        image.wf(),
        !(cfg@.traversal is Bytes),
    ensures
        p.wf(),
        p.order() == cfg.bit_order,
        p.stream() == gather(*image, cfg@, 0, Seq::empty()),
{
    let column_major = match cfg.traversal {
        Traversal::Columns => true,
        _ => false,
    };
    let w = image.width as usize;
    let h = image.height as usize;
    let n_outer = if column_major {
        w
    } else {
        h
    };
    let n_inner = if column_major {
        h
    } else {
        w
    };
    let plen = image.pixels.len();
    let mut p = BitPacker::new(cfg.bit_order);
    let ghost total = total_cells(*image, cfg@);
    proof {
        assert(w * h == h * w) by (nonlinear_arith);
        assert(total == n_outer * n_inner);
    }
    if n_inner == 0 || n_outer == 0 {
        assert(n_outer * n_inner == 0) by (nonlinear_arith)
            requires
                n_inner == 0 || n_outer == 0,
        ;
        return p;
    }
    let mut o: usize = 0;
    let mut j: usize = 0;
    let ghost mut k: int = 0;
    assert(0 * n_inner == 0) by (nonlinear_arith);
    while o < n_outer
        invariant
            image.wf(),
            !(cfg@.traversal is Bytes),
            column_major == (cfg@.traversal is Columns),
            w == image.width,
            h == image.height,
            plen == image.pixels@.len(),
            n_outer == if column_major {
                w
            } else {
                h
            },
            n_inner == if column_major {
                h
            } else {
                w
            },
            n_inner > 0,
            o <= n_outer,
            j < n_inner,
            o == n_outer ==> j == 0,
            k == o * n_inner + j,
            total == n_outer * n_inner,
            total == total_cells(*image, cfg@),
            p.wf(),
            p.order() == cfg.bit_order,
            gather(*image, cfg@, 0, Seq::empty()) == gather(*image, cfg@, k as nat, p.stream()),
        decreases n_outer - o, n_inner - j,
    {
        let y = if column_major {
            j
        } else {
            o
        };
        let x = if column_major {
            o
        } else {
            j
        };
        proof {
            lemma_cell_index(o as int, j as int, n_outer as int, n_inner as int);
            assert(y < h && x < w);
            assert(pixel_coords(*image, column_major, k) == (y as int, x as int));
        }
        let idx = pixel_index(y, x, w, h, Ghost(plen as nat));
        let use_it = use_prime_pixel(y, x, cfg.prime_only);
        let ghost before = p.stream();
        process_pixel(
            idx,
            &image.pixels,
            &cfg.channels,
            &cfg.per_channel,
            &cfg.widths,
            &mut p,
            use_it,
        );
        proof {
            assert(cell(*image, cfg@, k) == Some(p.stream().skip(before.len() as int))) by {
                assert(p.stream().skip(before.len() as int) =~= if use_it {
                    pixel_bits(
                        image.pixels@,
                        idx as int,
                        cfg.channels@,
                        cfg.per_channel@,
                        cfg.widths@,
                    )
                } else {
                    Seq::<bool>::empty()
                });
            }
            assert(before + p.stream().skip(before.len() as int) =~= p.stream());
        }
        if cfg.limit > 0 && p.len() >= cfg.limit {
            return p;
        }
        j = j + 1;
        if j == n_inner {
            j = 0;
            o = o + 1;
        }
        proof {
            k = k + 1;
        }
    }
    p
}

/// The two ranges are the axes of the image's byte grid, in the directions
/// that the token asks for.
spec fn axes_match(image: Image, token: Seq<char>, xr: AxisRange, yr: AxisRange) -> bool {
    &&& xr.step == 1
    &&& yr.step == 1
    &&& xr.start == if x_reversed(token) {
        image.grid_cols() - 1
    } else {
        0
    }
    &&& xr.end == if x_reversed(token) {
        0
    } else {
        image.grid_cols() - 1
    }
    &&& yr.start == if y_reversed(token) {
        image.grid_rows() - 1
    } else {
        0
    }
    &&& yr.end == if y_reversed(token) {
        0
    } else {
        image.grid_rows() - 1
    }
}

/// Position in the raw byte stream of the cell that the outer loop reaches
/// at its step `o` and the inner loop at its step `j`.
fn grid_pos(
    image: &Image,
    xr: &AxisRange,
    yr: &AxisRange,
    rf: bool,
    o: u64,
    j: u64,
    Ghost(token): Ghost<Seq<char>>,
) -> (pos: u128)
    requires
        axes_match(*image, token, *xr, *yr),
        rf == row_first(token),
        o < (if rf {
            image.grid_rows()
        } else {
            image.grid_cols()
        }),
        j < (if rf {
            image.grid_cols()
        } else {
            image.grid_rows()
        }),
    ensures
        pos == byte_pos(
            *image,
            token,
            o * (if rf {
                image.grid_cols()
            } else {
                image.grid_rows()
            }) + j,
        ),
{
    let ghost n_outer = if rf {
        image.grid_rows() as int
    } else {
        image.grid_cols() as int
    };
    let ghost n_inner = if rf {
        image.grid_cols() as int
    } else {
        image.grid_rows() as int
    };
    proof {
        lemma_cell_index(o as int, j as int, n_outer, n_inner);
    }
    let stride = image.row_stride();
    let yi = if rf {
        o
    } else {
        j
    };
    let xi = if rf {
        j
    } else {
        o
    };
    let y = yr.at(yi);
    let x = xr.at(xi);
    assert(y * stride + x <= u128::MAX && 0 <= y * stride) by (nonlinear_arith)
        requires
            0 <= y <= u64::MAX,
            0 <= stride <= u64::MAX,
            0 <= x <= u64::MAX,
    ;
    (y as u128) * (stride as u128) + (x as u128)
}

fn walk_bytes(image: &Image, cfg: &ExtractionConfig, token: &str) -> (p: BitPacker)
    requires
        image.wf(),
        cfg@.traversal == TraversalSpec::Bytes(token@),
    ensures
        p.wf(),
        p.order() == cfg.bit_order,
        p.stream() == gather(*image, cfg@, 0, Seq::empty()),
{
    let (xs, xe, xstep, ys, ye, ystep) = parse_byte_order(token, image);
    let xr = make_range(xs, xe, xstep);
    let yr = make_range(ys, ye, ystep);
    let chars = str_chars(token);
    let rf = chars.len() == 0 || chars[0] == 'b' || chars[0] == 'B';
    let cols = xr.count();
    let rows = yr.count();
    let n_outer = if rf {
        rows
    } else {
        cols
    };
    let n_inner = if rf {
        cols
    } else {
        rows
    };
    let dlen = image.imagedata.len();
    let mut p = BitPacker::new(cfg.bit_order);
    let ghost total = total_cells(*image, cfg@);
    proof {
        assert(rows * cols == cols * rows) by (nonlinear_arith);
        assert(total == n_outer * n_inner);
    }
    let mut o: u64 = 0;
    let mut j: u64 = 0;
    let mut k: u64 = 0;
    assert(0 * n_inner == 0) by (nonlinear_arith);
    while o < n_outer
        invariant
            cfg@.traversal == TraversalSpec::Bytes(token@),
            rf == row_first(token@),
            axes_match(*image, token@, xr, yr),
            dlen == image.imagedata@.len(),
            n_outer == if rf {
                image.grid_rows()
            } else {
                image.grid_cols()
            },
            n_inner == if rf {
                image.grid_cols()
            } else {
                image.grid_rows()
            },
            n_inner > 0,
            o <= n_outer,
            j < n_inner,
            o == n_outer ==> j == 0,
            k == o * n_inner + j,
            total == n_outer * n_inner,
            total == total_cells(*image, cfg@),
            total <= u64::MAX,
            p.wf(),
            p.order() == cfg.bit_order,
            gather(*image, cfg@, 0, Seq::empty()) == gather(*image, cfg@, k as nat, p.stream()),
        decreases n_outer - o, n_inner - j,
    {
        proof {
            lemma_cell_index(o as int, j as int, n_outer as int, n_inner as int);
        }
        let pos = grid_pos(image, &xr, &yr, rf, o, j, Ghost(token@));
        if pos >= dlen as u128 {
            return p;
        }
        let ghost before = p.stream();
        if use_prime(k, cfg.prime_only) {
            let value = image.imagedata[pos as usize];
            push_bits(&mut p, value, &cfg.widths);
        }
        proof {
            assert(before + Seq::<bool>::empty() =~= before);
        }
        if cfg.limit > 0 && p.len() >= cfg.limit {
            return p;
        }
        j = j + 1;
        if j == n_inner {
            j = 0;
            o = o + 1;
        }
        k = k + 1;
    }
    p
}

/// Runs one extraction.
pub fn extract_with(image: &Image, cfg: &ExtractionConfig) -> (out: Vec<u8>)
    requires
        image.wf(),
    ensures
        out@ == spec_extract(*image, cfg@),
{
    let p = match &cfg.traversal {
        Traversal::Bytes(token) => walk_bytes(image, cfg, token.as_str()),
        _ => walk_pixels(image, cfg),
    };
    let mut out = p.into_bytes();
    if cfg.shift > 0 {
        out = shift_prepend_zero_bits(out, cfg.shift);
    }
    if cfg.invert {
        out = invert_bytes(out);
    }
    out
}

// ---------------------------------------------------------------------------
// From options to an extraction
// ---------------------------------------------------------------------------
fn first_byte_token(v: &Vec<String>) -> (i: usize)
    ensures
        i == find_byte_token(v@, 0),
        i <= v.len(),
{
    let mut i: usize = 0;
    while i < v.len()
        invariant
            i <= v.len(),
            find_byte_token(v@, 0) == find_byte_token(v@, i as int),
        decreases v.len() - i,
    {
        let chars = str_chars(v[i].as_str());
        if has_byte_marker(&chars) {
            return i;
        }
        i = i + 1;
    }
    i
}

fn any_column_token(v: &Vec<String>) -> (r: bool)
    ensures
        r == has_column_token(v@),
{
    let mut i: usize = 0;
    while i < v.len()
        invariant
            i <= v.len(),
            forall|k: int| 0 <= k < i ==> !is_column_token(#[trigger] v@[k]@),
        decreases v.len() - i,
    {
        let chars = str_chars(v[i].as_str());
        if is_yx(&chars) {
            assert(is_column_token(v@[i as int]@));
            return true;
        }
        i = i + 1;
    }
    false
}

fn resolve_traversal(order: &OrderSpec) -> (t: Traversal)
    ensures
        t@ == spec_traversal(*order),
{
    match order {
        OrderSpec::Explicit(v) => {
            let i = first_byte_token(v);
            if i < v.len() {
                Traversal::Bytes(v[i].clone())
            } else if any_column_token(v) {
                Traversal::Columns
            } else {
                Traversal::Rows
            }
        },
        _ => Traversal::Rows,
    }
}

fn pattern_chars(channels: &Option<Vec<String>>) -> (r: Vec<char>)
    ensures
        r@ == spec_pattern(*channels),
{
    match channels {
        Some(v) => {
            let mut out: Vec<char> = Vec::new();
            let mut i: usize = 0;
            assert(v@.take(0) =~= Seq::<String>::empty());
            while i < v.len()
                invariant
                    i <= v.len(),
                    out@ == concat_all(v@.take(i as int)),
                decreases v.len() - i,
            {
                let mut piece = str_chars(v[i].as_str());
                out.append(&mut piece);
                proof {
                    let next = v@.take(i + 1);
                    assert(next.drop_last() =~= v@.take(i as int));
                    assert(next.last() == v@[i as int]);
                }
                i = i + 1;
            }
            assert(v@.take(v.len() as int) =~= v@);
            out
        },
        None => {
            let out = vec!['r', 'g', 'b'];
            assert(out@ =~= seq!['r', 'g', 'b']);
            out
        },
    }
}

fn copy_widths(bits: &Option<Vec<u16>>) -> (r: Vec<u16>)
    ensures
        r@ == (match *bits {
            Some(v) => v@,
            None => seq![1u16],
        }),
{
    match bits {
        Some(v) => {
            let mut out: Vec<u16> = Vec::new();
            let mut i: usize = 0;
            while i < v.len()
                invariant
                    i <= v.len(),
                    out@ == v@.take(i as int),
                decreases v.len() - i,
            {
                out.push(v[i]);
                assert(out@ =~= v@.take(i + 1));
                i = i + 1;
            }
            assert(v@.take(v.len() as int) =~= v@);
            out
        },
        None => {
            let out = vec![1u16];
            assert(out@ =~= seq![1u16]);
            out
        },
    }
}

impl ExtractionConfig {
    /// Makes every choice that the options leave open.
    pub fn from_options(opts: &Options) -> (cfg: Self)
        ensures
            cfg@ == spec_config(*opts),
    {
        let (channels, per_channel) = split_pattern(pattern_chars(&opts.channels));
        ExtractionConfig {
            traversal: resolve_traversal(&opts.order),
            channels,
            per_channel,
            widths: copy_widths(&opts.bits),
            bit_order: match opts.bit_order {
                Some(o) => o,
                None => BitOrder::Lsb,
            },
            prime_only: match opts.prime {
                PrimeSpec::Only => true,
                _ => false,
            },
            limit: opts.limit,
            shift: match opts.shift {
                Some(n) => (n % 8) as u32,
                None => 0,
            },
            invert: opts.invert,
        }
    }
}

// ---------------------------------------------------------------------------
// The label of an extraction
// ---------------------------------------------------------------------------
/// The requested widths as text, separated by `/`.
pub open spec fn join_slash(widths: Seq<u16>) -> Seq<char>
    decreases widths.len(),
{
    if widths.len() == 0 {
        Seq::empty()
    } else if widths.len() == 1 {
        decimal(widths[0] as nat)
    } else {
        join_slash(widths.drop_last()) + seq!['/'] + decimal(widths.last() as nat)
    }
}

/// The name of a bit order.
pub open spec fn order_name(o: BitOrder) -> Seq<char> {
    match o {
        BitOrder::Lsb => seq!['l', 's', 'b'],
        BitOrder::Msb => seq!['m', 's', 'b'],
    }
}

/// The order token that stands in a label: `auto`, `ALL`, or, for an explicit
/// list, `yx` if a token reads so, else its first byte token, else `xy`.
pub open spec fn spec_order_string(order: OrderSpec) -> Seq<char> {
    match order {
        OrderSpec::Auto => seq!['a', 'u', 't', 'o'],
        OrderSpec::All => seq!['A', 'L', 'L'],
        OrderSpec::Explicit(v) => {
            if has_column_token(v@) {
                seq!['y', 'x']
            } else if find_byte_token(v@, 0) < v@.len() {
                v@[find_byte_token(v@, 0)]@
            } else {
                seq!['x', 'y']
            }
        },
    }
}

/// The label of the extraction that the options stand for: `b`, the widths,
/// the channels, the bit order and the order token, separated by commas, and
/// `,prime` behind them under the prime filter.
pub open spec fn spec_title(opts: Options) -> Seq<char> {
    seq!['b'] + join_slash(spec_config(opts).widths) + seq![','] + spec_config(opts).channels
        + seq![','] + order_name(spec_config(opts).bit_order) + seq![','] + spec_order_string(
        opts.order,
    ) + (if spec_config(opts).prime_only {
        ",prime"@
    } else {
        Seq::empty()
    })
}

/// The order token that stands in a label.
pub fn order_string(opts: &Options) -> (r: String)
    ensures
        r@ == spec_order_string(opts.order),
{
    proof {
        reveal_strlit("auto");
        reveal_strlit("ALL");
        reveal_strlit("yx");
        reveal_strlit("xy");
        assert("auto"@ =~= seq!['a', 'u', 't', 'o']);
        assert("ALL"@ =~= seq!['A', 'L', 'L']);
        assert("yx"@ =~= seq!['y', 'x']);
        assert("xy"@ =~= seq!['x', 'y']);
    }
    match &opts.order {
        OrderSpec::Auto => String::from_str("auto"),
        OrderSpec::All => String::from_str("ALL"),
        OrderSpec::Explicit(v) => {
            if any_column_token(v) {
                String::from_str("yx")
            } else {
                let i = first_byte_token(v);
                if i < v.len() {
                    v[i].clone()
                } else {
                    String::from_str("xy")
                }
            }
        },
    }
}

fn push_widths(out: &mut String, widths: &Vec<u16>)
    ensures
        final(out)@ == old(out)@ + join_slash(widths@),
{
    let mut i: usize = 0;
    proof {
        reveal_strlit("/");
        assert("/"@ =~= seq!['/']);
        assert(widths@.take(0) =~= Seq::<u16>::empty());
        assert(old(out)@ + Seq::<char>::empty() =~= old(out)@);
    }
    while i < widths.len()
        invariant
            i <= widths.len(),
            "/"@ == seq!['/'],
            out@ == old(out)@ + join_slash(widths@.take(i as int)),
        decreases widths.len() - i,
    {
        if i > 0 {
            out.append("/");
        }
        push_decimal(out, widths[i] as u64);
        proof {
            let next = widths@.take(i + 1);
            assert(next.drop_last() =~= widths@.take(i as int));
            assert(next.last() == widths@[i as int]);
            assert(out@ =~= old(out)@ + join_slash(next));
        }
        i = i + 1;
    }
    assert(widths@.take(widths.len() as int) =~= widths@);
}

fn push_channels(out: &mut String, opts: &Options, cfg: &ExtractionConfig)
    requires
        cfg@ == spec_config(*opts),
    ensures
        final(out)@ == old(out)@ + cfg.channels@,
{
    let ghost pattern = spec_pattern(opts.channels);
    proof {
        reveal_strlit("rgb");
        reveal_strlit("r");
        reveal_strlit("g");
        reveal_strlit("b");
        reveal_strlit("a");
        assert("rgb"@ =~= seq!['r', 'g', 'b']);
        assert(old(out)@ + Seq::<char>::empty() =~= old(out)@);
    }
    if cfg.per_channel.len() == 0 {
        proof {
            if is_tagged(pattern) {
                assert(pattern.len() == 0);
                assert(cfg.channels@ =~= pattern);
            }
        }
        match &opts.channels {
            Some(v) => {
                let mut i: usize = 0;
                assert(v@.take(0) =~= Seq::<String>::empty());
                while i < v.len()
                    invariant
                        i <= v.len(),
                        out@ == old(out)@ + concat_all(v@.take(i as int)),
                    decreases v.len() - i,
                {
                    out.append(v[i].as_str());
                    proof {
                        let next = v@.take(i + 1);
                        assert(next.drop_last() =~= v@.take(i as int));
                        assert(next.last() == v@[i as int]);
                        assert(out@ =~= old(out)@ + concat_all(next));
                    }
                    i = i + 1;
                }
                assert(v@.take(v.len() as int) =~= v@);
            },
            None => {
                out.append("rgb");
            },
        }
    } else {
        let mut i: usize = 0;
        assert(cfg.channels@.take(0) =~= Seq::<char>::empty());
        while i < cfg.channels.len()
            invariant
                i <= cfg.channels.len(),
                is_tagged(pattern),
                cfg.channels@ == pattern_channels(pattern),
                "r"@.len() == 1 && "r"@[0] == 'r',
                "g"@.len() == 1 && "g"@[0] == 'g',
                "b"@.len() == 1 && "b"@[0] == 'b',
                "a"@.len() == 1 && "a"@[0] == 'a',
                out@ == old(out)@ + cfg.channels@.take(i as int),
            decreases cfg.channels.len() - i,
        {
            let c = cfg.channels[i];
            assert(is_tagged_pair(pattern, i as int));
            let ghost before = out@;
            if c == 'r' {
                out.append("r");
            } else if c == 'g' {
                out.append("g");
            } else if c == 'b' {
                out.append("b");
            } else {
                out.append("a");
            }
            assert(out@ =~= before.push(c));
            assert(cfg.channels@.take(i + 1) =~= cfg.channels@.take(i as int).push(c));
            i = i + 1;
        }
        assert(cfg.channels@.take(cfg.channels.len() as int) =~= cfg.channels@);
    }
}

/// Extracts the byte stream that the options stand for, and writes the
/// extraction's label to `title_out`.
pub fn extract(image: &Image, opts: &Options, title_out: &mut String) -> (out: Vec<u8>)
    requires
        image.wf(),
    ensures
        out@ == spec_extract(*image, spec_config(*opts)),
        final(title_out)@ == spec_title(*opts),
{
    let cfg = ExtractionConfig::from_options(opts);
    let mut title = String::from_str("b");
    proof {
        reveal_strlit("b");
        reveal_strlit(",");
        reveal_strlit("lsb");
        reveal_strlit("msb");
        assert("b"@ =~= seq!['b']);
        assert(","@ =~= seq![',']);
        assert("lsb"@ =~= seq!['l', 's', 'b']);
        assert("msb"@ =~= seq!['m', 's', 'b']);
    }
    push_widths(&mut title, &cfg.widths);
    title.append(",");
    push_channels(&mut title, opts, &cfg);
    title.append(",");
    match cfg.bit_order {
        BitOrder::Lsb => title.append("lsb"),
        BitOrder::Msb => title.append("msb"),
    }
    title.append(",");
    let order = order_string(opts);
    title.append(order.as_str());
    let ghost body = title@;
    if cfg.prime_only {
        title.append(",prime");
    } else {
        assert(body + Seq::<char>::empty() =~= body);
    }
    assert(title@ =~= spec_title(*opts));
    *title_out = title;
    extract_with(image, &cfg)
}

/// What is gathered does not depend on the shift nor on the inversion.
proof fn lemma_gather_before_post(img: Image, c: ConfigSpec, d: ConfigSpec, from: nat, acc: Seq<bool>)
    requires
        d == (ConfigSpec { shift: d.shift, invert: d.invert, ..c }),
    ensures
        gather(img, c, from, acc) == gather(img, d, from, acc),
    decreases total_cells(img, c) - from,
{
    assert(total_cells(img, c) == total_cells(img, d));
    if from < total_cells(img, c) {
        assert(cell(img, c, from as int) == cell(img, d, from as int));
        match cell(img, c, from as int) {
            Some(bits) => {
                lemma_gather_before_post(img, c, d, from + 1, acc + bits);
            },
            None => {},
        }
    }
}

/// A shift by a whole number of bytes is the same as no shift, and an
/// extraction with inversion is the inverse of the one without, so that
/// inverting it once more gives the plain extraction back.
pub proof fn lemma_extract_post(img: Image, o: Options, k: usize)
    requires
        8 * k <= usize::MAX,
    ensures
        spec_config(Options { shift: Some((8 * k) as usize), ..o }) == spec_config(
            Options { shift: None, ..o },
        ),
        spec_config(Options { shift: Some(0), ..o }) == spec_config(Options { shift: None, ..o }),
        spec_extract(img, spec_config(Options { invert: true, ..o })) == invert_seq(
            spec_extract(img, spec_config(Options { invert: false, ..o })),
        ),
        invert_seq(spec_extract(img, spec_config(Options { invert: true, ..o }))) == spec_extract(
            img,
            spec_config(Options { invert: false, ..o }),
        ),
{
    assert((8 * k) % 8 == 0);
    let plain = spec_config(Options { invert: false, ..o });
    let inverted = spec_config(Options { invert: true, ..o });
    lemma_gather_before_post(img, plain, inverted, 0, Seq::empty());
    crate::postproc::lemma_invert_twice(spec_extract(img, plain));
}

/// Extraction is a function of the image and the options: equal inputs give
/// equal streams and equal labels.
pub proof fn lemma_extract_deterministic(a: Image, b: Image, x: Options, y: Options)
    requires
        a == b,
        x == y,
    ensures
        spec_extract(a, spec_config(x)) == spec_extract(b, spec_config(y)),
        spec_title(x) == spec_title(y),
{
}

} // verus!
