//! Scan and extraction options.

use vstd::prelude::*;
use vstd::string::StrSliceExecFns;
use vstd::string::StringExecFns;
use crate::text::{
    is_word, lowercase_string, lowercased, str_chars, texts, trim_string, trimmed,
};

verus! {

/// Order in which extracted bits are accumulated into an output byte.
#[derive(Debug, Clone, Copy, PartialEq, Eq, Structural)]
pub enum BitOrder {
    Lsb,
    Msb,
}

/// How printable strings are searched for in extracted data.
#[derive(Debug, Clone, Copy, PartialEq, Eq, Structural)]
pub enum StringsMode {
    First,
    All,
    Longest,
    Off,
}

/// Tri-state of the prime-positions filter.
#[derive(Debug, Clone, Copy, PartialEq, Eq, Structural)]
pub enum PrimeSpec {
    Off,
    Only,
    All,
}

/// Tri-state of pixel alignment.
#[derive(Debug, Clone, Copy, PartialEq, Eq, Structural)]
pub enum PixelAlignSpec {
    Off,
    Only,
    All,
}

/// Which iteration orders a scan goes through.
#[derive(Debug, Clone, PartialEq, Eq)]
pub enum OrderSpec {
    Auto,
    All,
    Explicit(Vec<String>),
}

/// Everything a scan or an extraction can be told.
#[derive(Debug, Clone, PartialEq, Eq)]
pub struct Options {
    /// Verbosity: below zero is quiet, above zero verbose.
    pub verbose: i32,
    /// Output length limit in bytes; 0 is unlimited.
    pub limit: usize,
    pub order: OrderSpec,
    pub step: usize,
    pub ystep: usize,
    /// Channel patterns; `None` leaves the choice to the scan.
    pub channels: Option<Vec<String>>,
    /// Bit widths, or masks above 8; `None` leaves the choice to the scan.
    pub bits: Option<Vec<u16>>,
    pub bit_order: Option<BitOrder>,
    pub prime: PrimeSpec,
    pub pixel_align: PixelAlignSpec,
    /// Number of zero bits to prepend to the stream.
    pub shift: Option<usize>,
    /// Whether every output byte is XORed with 0xFF.
    pub invert: bool,
    /// Whether the file-type classifier is consulted.
    pub file_cmd: bool,
    pub strings: Option<StringsMode>,
    /// Minimum length of a printable run that counts as text.
    pub min_str_len: usize,
    pub extra_checks: bool,
    pub zlib_flag: bool,
}

impl Options {
    /// Whether these are the options that nothing has been changed in.
    pub open spec fn is_default(&self) -> bool {
        &&& self.verbose == 0
        &&& self.limit == 256
        &&& self.order is Auto
        &&& self.step == 1
        &&& self.ystep == 1
        &&& self.channels is None
        &&& self.bits is None
        &&& self.bit_order is None
        &&& self.prime is Off
        &&& self.pixel_align is Off
        &&& self.shift is None
        &&& !self.invert
        &&& self.file_cmd
        &&& self.strings is None
        &&& self.min_str_len == 8
        &&& self.extra_checks
        &&& !self.zlib_flag
    }
}

impl Default for Options {
    fn default() -> (o: Self)
        ensures
            o.is_default(),
    {
        Options {
            verbose: 0,
            limit: 256,
            order: OrderSpec::Auto,
            step: 1,
            ystep: 1,
            channels: None,
            bits: None,
            bit_order: None,
            prime: PrimeSpec::Off,
            pixel_align: PixelAlignSpec::Off,
            shift: None,
            invert: false,
            file_cmd: true,
            strings: None,
            min_str_len: 8,
            extra_checks: true,
            zlib_flag: false,
        }
    }
}

// ---------------------------------------------------------------------------
// Numerals
// ---------------------------------------------------------------------------
/// The value of a digit in the given radix (2, 10 or 16).
pub open spec fn digit_of(c: char, radix: nat) -> Option<nat> {
    if '0' <= c <= '9' && (c as nat) - ('0' as nat) < radix {
        Some(((c as nat) - ('0' as nat)) as nat)
    } else if radix == 16 && 'a' <= c <= 'f' {
        Some(((c as nat) - ('a' as nat) + 10) as nat)
    } else if radix == 16 && 'A' <= c <= 'F' {
        Some(((c as nat) - ('A' as nat) + 10) as nat)
    } else {
        None
    }
}

/// The value of a non-empty run of digits.
pub open spec fn numeral(s: Seq<char>, radix: nat) -> Option<nat>
    decreases s.len(),
{
    if s.len() == 0 {
        None
    } else if s.len() == 1 {
        digit_of(s[0], radix)
    } else {
        match (numeral(s.drop_last(), radix), digit_of(s.last(), radix)) {
            (Some(v), Some(d)) => Some(v * radix + d),
            _ => None,
        }
    }
}

/// The number that a text stands for: an optional `+`, then digits, with a
/// value of at most `max`.
pub open spec fn parse_bounded(s: Seq<char>, radix: nat, max: nat) -> Option<nat> {
    let digits = if s.len() > 0 && s[0] == '+' {
        s.skip(1)
    } else {
        s
    };
    match numeral(digits, radix) {
        Some(v) => if v <= max {
            Some(v)
        } else {
            None
        },
        None => None,
    }
}

/// The number of at most 16 bits that a text stands for.
pub open spec fn parse_u16(s: Seq<char>, radix: nat) -> Option<u16> {
    match parse_bounded(s, radix, 65535) {
        Some(v) => Some(v as u16),
        None => None,
    }
}

proof fn lemma_numeral_grows(s: Seq<char>, radix: nat, i: int)
    requires
        1 <= i <= s.len(),
        radix >= 2,
    ensures
        numeral(s, radix) matches Some(v) ==> (numeral(s.take(i), radix) matches Some(w) && w <= v),
        numeral(s.take(i), radix) is None ==> numeral(s, radix) is None,
    decreases s.len(),
{
    if i == s.len() {
        assert(s.take(i) =~= s);
    } else {
        assert(s.drop_last().take(i) =~= s.take(i));
        lemma_numeral_grows(s.drop_last(), radix, i);
        if numeral(s, radix) is Some {
            let v = numeral(s.drop_last(), radix)->0;
            let d = digit_of(s.last(), radix)->0;
            assert(v <= v * radix + d) by (nonlinear_arith)
                requires
                    radix >= 2,
                    v >= 0,
                    d >= 0,
            ;
        }
    }
}

fn digit_value(c: char, radix: u32) -> (r: Option<u32>)
    requires
        radix == 2 || radix == 10 || radix == 16,
    ensures
        r matches Some(d) ==> digit_of(c, radix as nat) == Some(d as nat) && d < radix,
        r is None ==> digit_of(c, radix as nat) is None,
{
    if '0' <= c && c <= '9' {
        let d = c as u32 - '0' as u32;
        if d < radix {
            Some(d)
        } else {
            None
        }
    } else if radix == 16 && 'a' <= c && c <= 'f' {
        Some(c as u32 - 'a' as u32 + 10)
    } else if radix == 16 && 'A' <= c && c <= 'F' {
        Some(c as u32 - 'A' as u32 + 10)
    } else {
        None
    }
}

proof fn lemma_numeral_step(s: Seq<char>, radix: nat, k: int)
    requires
        0 <= k < s.len(),
    ensures
        numeral(s.take(k + 1), radix) == (if k == 0 {
            digit_of(s[k], radix)
        } else {
            match (numeral(s.take(k), radix), digit_of(s[k], radix)) {
                (Some(v), Some(d)) => Some(v * radix + d),
                _ => None,
            }
        }),
{
    assert(s.take(k + 1).drop_last() =~= s.take(k));
    assert(s.take(k + 1).last() == s[k]);
}

/// Reads a number of at most `max` in the given radix.
pub fn read_bounded(s: &Vec<char>, radix: u32, max: u64) -> (r: Option<u64>)
    requires
        radix == 2 || radix == 10 || radix == 16,
    ensures
        match r {
            Some(v) => parse_bounded(s@, radix as nat, max as nat) == Some(v as nat),
            None => parse_bounded(s@, radix as nat, max as nat) is None,
        },
{
    let start: usize = if s.len() > 0 && s[0] == '+' {
        1
    } else {
        0
    };
    let ghost digits = s@.skip(start as int);
    assert(s@.skip(0) =~= s@);
    if start >= s.len() {
        return None;
    }
    let mut acc: u64 = 0;
    let mut i: usize = start;
    while i < s.len()
        invariant
            start <= i <= s.len(),
            start < s.len(),
            digits == s@.skip(start as int),
            radix == 2 || radix == 10 || radix == 16,
            acc <= max,
            i > start ==> numeral(digits.take(i - start), radix as nat) == Some(acc as nat),
            i == start ==> acc == 0,
            parse_bounded(s@, radix as nat, max as nat) == (match numeral(digits, radix as nat) {
                Some(v) => if v <= max {
                    Some(v)
                } else {
                    None
                },
                None => None,
            }),
        decreases s.len() - i,
    {
        let ghost k = i - start;
        proof {
            lemma_numeral_step(digits, radix as nat, k);
            lemma_numeral_grows(digits, radix as nat, k + 1);
            assert(digits[k] == s@[i as int]);
        }
        match digit_value(s[i], radix) {
            Some(d) => {
                assert(acc * radix + d <= 0xFFFF_FFFF_FFFF_FFFF * 16 + 15 && 0 <= acc * radix) by (nonlinear_arith)
                    requires
                        0 <= acc <= 0xFFFF_FFFF_FFFF_FFFF,
                        0 <= radix <= 16,
                        0 <= d <= 15,
                ;
                let next: u128 = (acc as u128) * (radix as u128) + (d as u128);
                if next > max as u128 {
                    return None;
                }
                acc = next as u64;
            },
            None => {
                return None;
            },
        }
        i = i + 1;
    }
    assert(digits.take(digits.len() as int) =~= digits);
    Some(acc)
}

/// Reads a number of at most 16 bits in the given radix.
pub fn read_u16(s: &Vec<char>, radix: u32) -> (r: Option<u16>)
    requires
        radix == 2 || radix == 10 || radix == 16,
    ensures
        r == parse_u16(s@, radix as nat),
{
    match read_bounded(s, radix, 65535) {
        Some(v) => Some(v as u16),
        None => None,
    }
}

// ---------------------------------------------------------------------------
// Bit widths
// ---------------------------------------------------------------------------
/// What went wrong with the options.
#[derive(Debug, Clone, PartialEq, Eq)]
pub enum OptionsError {
    /// A range of bit widths whose ends are not both from 1 to 8.
    InvalidBitsRange(String),
    /// A bit width that is no number and no mask.
    InvalidBitsValue(String),
    /// A word of the parameter string that means nothing.
    UnknownParam(String),
    /// A chunk to extract whose index is no number.
    InvalidChunkIndex(String),
}

/// The kind of an [`OptionsError`].
#[derive(Debug, Clone, Copy, PartialEq, Eq, Structural)]
pub enum ErrorKind {
    InvalidBitsRange,
    InvalidBitsValue,
    UnknownParam,
    InvalidChunkIndex,
}

impl OptionsError {
    /// The kind of the error.
    pub open spec fn kind(&self) -> ErrorKind {
        match self {
            OptionsError::InvalidBitsRange(_) => ErrorKind::InvalidBitsRange,
            OptionsError::InvalidBitsValue(_) => ErrorKind::InvalidBitsValue,
            OptionsError::UnknownParam(_) => ErrorKind::UnknownParam,
            OptionsError::InvalidChunkIndex(_) => ErrorKind::InvalidChunkIndex,
        }
    }

    /// The text that the error is about.
    pub open spec fn subject(&self) -> Seq<char> {
        match self {
            OptionsError::InvalidBitsRange(t) => t@,
            OptionsError::InvalidBitsValue(t) => t@,
            OptionsError::UnknownParam(t) => t@,
            OptionsError::InvalidChunkIndex(t) => t@,
        }
    }

    /// What to tell the user.
    pub fn message(&self) -> (m: String)
        ensures
            m@ == (match self.kind() {
                ErrorKind::InvalidBitsRange => "invalid bits range: "@,
                ErrorKind::InvalidBitsValue => "invalid bits value: "@,
                ErrorKind::UnknownParam => "unknown param "@,
                ErrorKind::InvalidChunkIndex => "invalid chunk index: "@,
            }) + self.subject(),
    {
        match self {
            OptionsError::InvalidBitsRange(t) => {
                let mut m = String::from_str("invalid bits range: ");
                m.append(t.as_str());
                m
            },
            OptionsError::InvalidBitsValue(t) => {
                let mut m = String::from_str("invalid bits value: ");
                m.append(t.as_str());
                m
            },
            OptionsError::UnknownParam(t) => {
                let mut m = String::from_str("unknown param ");
                m.append(t.as_str());
                m
            },
            OptionsError::InvalidChunkIndex(t) => {
                let mut m = String::from_str("invalid chunk index: ");
                m.append(t.as_str());
                m
            },
        }
    }
}

/// Every character is `0` or `1`.
pub open spec fn is_binary(x: Seq<char>) -> bool {
    forall|i: int| 0 <= i < x.len() ==> (#[trigger] x[i] == '0' || x[i] == '1')
}

/// A mask: bit 8 set to tell it from a width, and the low byte of `v`.
pub open spec fn mask_of(v: u16) -> u16 {
    (0x100 + v % 256) as u16
}

/// What one bit-width value stands for. `1` is the width 1. A text that
/// starts with `0x` or `0b`, or is made of the digits 0 and 1 alone, is a
/// mask in hexadecimal or binary. Any other number is itself.
pub open spec fn spec_bits_single(x: Seq<char>) -> Option<u16> {
    if x == seq!['1'] {
        Some(1u16)
    } else if x.len() >= 2 && x[0] == '0' && x[1] == 'x' {
        match parse_u16(x.skip(2), 16) {
            Some(v) => Some(mask_of(v)),
            None => None,
        }
    } else if x.len() >= 2 && x[0] == '0' && x[1] == 'b' {
        match parse_u16(x.skip(2), 2) {
            Some(v) => Some(mask_of(v)),
            None => None,
        }
    } else if is_binary(x) {
        match parse_u16(x, 2) {
            Some(v) => Some(mask_of(v)),
            None => None,
        }
    } else {
        parse_u16(x, 10)
    }
}

fn skip_chars(x: &Vec<char>, n: usize) -> (r: Vec<char>)
    requires
        n <= x.len(),
    ensures
        r@ == x@.skip(n as int),
{
    let mut r: Vec<char> = Vec::new();
    let mut i: usize = n;
    while i < x.len()
        invariant
            n <= i <= x.len(),
            r@ == x@.subrange(n as int, i as int),
        decreases x.len() - i,
    {
        r.push(x[i]);
        i = i + 1;
        assert(r@ =~= x@.subrange(n as int, i as int));
    }
    assert(x@.subrange(n as int, x.len() as int) =~= x@.skip(n as int));
    r
}

fn take_chars(x: &Vec<char>, n: usize) -> (r: Vec<char>)
    requires
        n <= x.len(),
    ensures
        r@ == x@.take(n as int),
{
    let mut r: Vec<char> = Vec::new();
    let mut i: usize = 0;
    while i < n
        invariant
            i <= n <= x.len(),
            r@ == x@.take(i as int),
        decreases n - i,
    {
        r.push(x[i]);
        i = i + 1;
        assert(r@ =~= x@.take(i as int));
    }
    r
}

fn all_binary(x: &Vec<char>) -> (r: bool)
    ensures
        r == is_binary(x@),
{
    let mut i: usize = 0;
    while i < x.len()
        invariant
            i <= x.len(),
            forall|k: int| 0 <= k < i ==> (#[trigger] x@[k] == '0' || x@[k] == '1'),
        decreases x.len() - i,
    {
        if !(x[i] == '0' || x[i] == '1') {
            return false;
        }
        i = i + 1;
    }
    true
}

fn to_mask(v: Option<u16>) -> (r: Option<u16>)
    ensures
        r == (match v {
            Some(n) => Some(mask_of(n)),
            None => None,
        }),
{
    match v {
        Some(n) => Some(0x100 + n % 256),
        None => None,
    }
}

/// Reads one bit-width value from its characters.
pub fn bits_single_chars(x: &Vec<char>) -> (r: Option<u16>)
    ensures
        r == spec_bits_single(x@),
{
    if x.len() == 1 && x[0] == '1' {
        assert(x@ =~= seq!['1']);
        return Some(1);
    }
    assert(x@ != seq!['1']) by {
        if x@ == seq!['1'] {
            assert(x@.len() == 1 && x@[0] == '1');
        }
    }
    if x.len() >= 2 && x[0] == '0' && x[1] == 'x' {
        to_mask(read_u16(&skip_chars(x, 2), 16))
    } else if x.len() >= 2 && x[0] == '0' && x[1] == 'b' {
        to_mask(read_u16(&skip_chars(x, 2), 2))
    } else if all_binary(x) {
        to_mask(read_u16(x, 2))
    } else {
        read_u16(x, 10)
    }
}

/// Reads one bit-width value.
pub fn parse_bits_single(x: &str) -> (r: Result<u16, OptionsError>)
    ensures
        match r {
            Ok(v) => spec_bits_single(x@) == Some(v),
            Err(e) => spec_bits_single(x@) is None && e.kind() == ErrorKind::InvalidBitsValue
                && e.subject() == x@,
        },
{
    match bits_single_chars(&str_chars(x)) {
        Some(v) => Ok(v),
        None => Err(OptionsError::InvalidBitsValue(String::from_str(x))),
    }
}

/// Where `c` first stands at or behind `from`; the length of the text if
/// nowhere.
pub open spec fn find_char(s: Seq<char>, c: char, from: int) -> int
    decreases s.len() - from,
{
    if from < 0 || from >= s.len() {
        s.len() as int
    } else if s[from] == c {
        from
    } else {
        find_char(s, c, from + 1)
    }
}

/// The word `all`, in any case.
pub open spec fn is_all_word(x: Seq<char>) -> bool {
    &&& x.len() == 3
    &&& (x[0] == 'a' || x[0] == 'A')
    &&& (x[1] == 'l' || x[1] == 'L')
    &&& (x[2] == 'l' || x[2] == 'L')
}

/// The numbers from `a` up to `b`.
pub open spec fn ascending(a: u16, b: u16) -> Seq<u16> {
    Seq::new((b - a + 1) as nat, |i: int| (a + i) as u16)
}

/// The widths that one item of a list stands for: `all` is 1 to 8; two
/// values around a `-` are a range, in ascending order whichever end comes
/// first, and both ends must be from 1 to 8; anything else is one value.
#[verifier::opaque]
pub open spec fn piece_values(x: Seq<char>) -> Result<Seq<u16>, ErrorKind> {
    if is_all_word(x) {
        Ok(ascending(1, 8))
    } else {
        let pos = find_char(x, '-', 0);
        if pos < x.len() {
            match (spec_bits_single(x.take(pos)), spec_bits_single(x.skip(pos + 1))) {
                (Some(a), Some(b)) => if a == 0 || b == 0 || a > 8 || b > 8 {
                    Err(ErrorKind::InvalidBitsRange)
                } else if a <= b {
                    Ok(ascending(a, b))
                } else {
                    Ok(ascending(b, a))
                },
                _ => Err(ErrorKind::InvalidBitsValue),
            }
        } else {
            match spec_bits_single(x) {
                Some(v) => Ok(seq![v]),
                None => Err(ErrorKind::InvalidBitsValue),
            }
        }
    }
}

/// The widths of the items of a comma-separated list from `from` on, each
/// item taken without the white space around it. The first item that is
/// wrong decides the error.
pub open spec fn pieces_values(s: Seq<char>, from: int) -> Result<Seq<u16>, ErrorKind>
    decreases s.len() - from,
{
    let end = find_char(s, ',', from);
    match piece_values(trimmed(s.subrange(from, end))) {
        Err(k) => Err(k),
        Ok(v) => if end >= s.len() || end < from {
            Ok(v)
        } else {
            match pieces_values(s, end + 1) {
                Ok(rest) => Ok(v + rest),
                Err(k) => Err(k),
            }
        },
    }
}

/// The sequence without the repetitions of an element right behind itself.
pub open spec fn dedup(s: Seq<u16>) -> Seq<u16>
    decreases s.len(),
{
    if s.len() == 0 {
        s
    } else {
        let d = dedup(s.drop_last());
        if d.len() > 0 && d.last() == s.last() {
            d
        } else {
            d.push(s.last())
        }
    }
}

/// Whether a list of widths ends, white space aside, with the `p` that asks
/// for pixel alignment.
pub open spec fn has_align_mark(s: Seq<char>) -> bool {
    trimmed(s).len() > 0 && trimmed(s).last() == 'p'
}

/// The list of widths without the white space around it and without the
/// alignment mark.
pub open spec fn bits_body(s: Seq<char>) -> Seq<char> {
    if has_align_mark(s) {
        trimmed(s).drop_last()
    } else {
        trimmed(s)
    }
}

/// The widths that a list stands for.
pub open spec fn spec_parse_bits(s: Seq<char>) -> Result<Seq<u16>, ErrorKind> {
    match pieces_values(bits_body(s), 0) {
        Ok(v) => Ok(dedup(v)),
        Err(k) => Err(k),
    }
}

fn find_in(x: &Vec<char>, c: char, from: usize, limit: usize) -> (pos: usize)
    requires
        from <= limit <= x.len(),
    ensures
        from <= pos <= limit,
        pos == find_char(x@.take(limit as int), c, from as int),
{
    let ghost body = x@.take(limit as int);
    let mut pos = from;
    while pos < limit
        invariant
            from <= pos <= limit <= x.len(),
            body == x@.take(limit as int),
            find_char(body, c, from as int) == find_char(body, c, pos as int),
        decreases limit - pos,
    {
        if x[pos] == c {
            return pos;
        }
        pos = pos + 1;
    }
    pos
}

fn push_ascending(out: &mut Vec<u16>, a: u16, b: u16)
    requires
        a <= b,
    ensures
        final(out)@ == old(out)@ + ascending(a, b),
{
    let ghost base = out@;
    let mut v = a;
    let mut more = true;
    assert(base + Seq::<u16>::empty() =~= base);
    while more
        invariant
            a <= v <= b,
            more ==> out@ == base + ascending(a, b).take(v - a),
            !more ==> out@ == base + ascending(a, b),
        decreases b - v + (if more { 1int } else { 0int }),
    {
        out.push(v);
        assert(out@ =~= base + ascending(a, b).take(v - a + 1));
        if v == b {
            more = false;
            assert(ascending(a, b).take(b - a + 1) =~= ascending(a, b));
        } else {
            v = v + 1;
        }
    }
}

fn is_all(x: &Vec<char>) -> (r: bool)
    ensures
        r == is_all_word(x@),
{
    x.len() == 3 && (x[0] == 'a' || x[0] == 'A') && (x[1] == 'l' || x[1] == 'L') && (x[2] == 'l'
        || x[2] == 'L')
}

/// Reads the widths of one item of a list. The item is taken as it stands;
/// white space around it is not allowed for.
pub fn piece_widths(piece: &str) -> (r: Result<Vec<u16>, OptionsError>)
    ensures
        match r {
            Ok(v) => piece_values(piece@) == Ok::<Seq<u16>, ErrorKind>(v@),
            Err(e) => piece_values(piece@) == Err::<Seq<u16>, ErrorKind>(e.kind()),
        },
{
    reveal(piece_values);
    let x = str_chars(piece);
    let mut out: Vec<u16> = Vec::new();
    if is_all(&x) {
        push_ascending(&mut out, 1, 8);
        assert(out@ =~= ascending(1, 8));
        return Ok(out);
    }
    let pos = find_in(&x, '-', 0, x.len());
    assert(x@.take(x.len() as int) =~= x@);
    if pos < x.len() {
        let left = take_chars(&x, pos);
        let right = skip_chars(&x, pos + 1);
        let a = match bits_single_chars(&left) {
            Some(a) => a,
            None => {
                return Err(
                    OptionsError::InvalidBitsValue(String::from_str(piece.substring_char(0, pos))),
                );
            },
        };
        let b = match bits_single_chars(&right) {
            Some(b) => b,
            None => {
                return Err(
                    OptionsError::InvalidBitsValue(
                        String::from_str(piece.substring_char(pos + 1, x.len())),
                    ),
                );
            },
        };
        if a == 0 || b == 0 || a > 8 || b > 8 {
            return Err(OptionsError::InvalidBitsRange(String::from_str(piece)));
        }
        if a <= b {
            push_ascending(&mut out, a, b);
            assert(out@ =~= ascending(a, b));
        } else {
            push_ascending(&mut out, b, a);
            assert(out@ =~= ascending(b, a));
        }
        Ok(out)
    } else {
        match bits_single_chars(&x) {
            Some(v) => {
                out.push(v);
                assert(out@ =~= seq![v]);
                Ok(out)
            },
            None => Err(OptionsError::InvalidBitsValue(String::from_str(piece))),
        }
    }
}

fn dedup_widths(v: &Vec<u16>) -> (r: Vec<u16>)
    ensures
        r@ == dedup(v@),
{
    let mut r: Vec<u16> = Vec::new();
    let mut i: usize = 0;
    assert(v@.take(0) =~= Seq::<u16>::empty());
    while i < v.len()
        invariant
            i <= v.len(),
            r@ == dedup(v@.take(i as int)),
        decreases v.len() - i,
    {
        proof {
            assert(v@.take(i + 1).drop_last() =~= v@.take(i as int));
        }
        let n = r.len();
        if !(n > 0 && r[n - 1] == v[i]) {
            r.push(v[i]);
        }
        i = i + 1;
    }
    assert(v@.take(v.len() as int) =~= v@);
    r
}

/// The result of a list with the widths `acc` in front of it.
pub open spec fn behind(acc: Seq<u16>, r: Result<Seq<u16>, ErrorKind>) -> Result<
    Seq<u16>,
    ErrorKind,
> {
    match r {
        Ok(v) => Ok(acc + v),
        Err(k) => Err(k),
    }
}

proof fn lemma_behind(acc: Seq<u16>, v: Seq<u16>, r: Result<Seq<u16>, ErrorKind>)
    ensures
        behind(acc, behind(v, r)) == behind(acc + v, r),
        behind(Seq::empty(), r) == r,
        behind(acc, Ok(v)) == Ok::<Seq<u16>, ErrorKind>(acc + v),
{
    match r {
        Ok(rest) => {
            assert(acc + (v + rest) =~= (acc + v) + rest);
            assert(Seq::<u16>::empty() + rest =~= rest);
        },
        Err(_) => {},
    }
}

fn push_pieces(out: &mut Vec<u16>, text: &String, chars: &Vec<char>, limit: usize) -> (r: Result<
    (),
    OptionsError,
>)
    requires
        chars@ == text@,
        limit <= chars.len(),
        old(out)@.len() == 0,
    ensures
        match r {
            Ok(_) => pieces_values(chars@.take(limit as int), 0) == Ok::<Seq<u16>, ErrorKind>(
                final(out)@,
            ),
            Err(e) => pieces_values(chars@.take(limit as int), 0) == Err::<Seq<u16>, ErrorKind>(
                e.kind(),
            ),
        },
{
    let ghost body = chars@.take(limit as int);
    let mut from: usize = 0;
    let mut done = false;
    proof {
        assert(out@ =~= Seq::<u16>::empty());
        lemma_behind(Seq::empty(), Seq::empty(), pieces_values(body, 0));
    }
    while !done
        invariant
            from <= limit <= chars.len(),
            chars@ == text@,
            body == chars@.take(limit as int),
            !done ==> pieces_values(body, 0) == behind(out@, pieces_values(body, from as int)),
            done ==> pieces_values(body, 0) == Ok::<Seq<u16>, ErrorKind>(out@),
        decreases limit - from + (if done { 0int } else { 1int }),
    {
        let end = find_in(chars, ',', from, limit);
        let piece = trim_string(text.as_str().substring_char(from, end));
        assert(text@.subrange(from as int, end as int) =~= body.subrange(from as int, end as int));
        let ghost before = out@;
        match piece_widths(piece.as_str()) {
            Ok(mut widths) => {
                out.append(&mut widths);
            },
            Err(e) => {
                return Err(e);
            },
        }
        proof {
            let v = piece_values(piece@)->Ok_0;
            assert(out@ == before + v);
            if end < limit {
                assert(pieces_values(body, from as int) == behind(
                    v,
                    pieces_values(body, end + 1),
                ));
                lemma_behind(before, v, pieces_values(body, end + 1));
            } else {
                assert(pieces_values(body, from as int) == Ok::<Seq<u16>, ErrorKind>(v));
                lemma_behind(before, v, Ok(v));
            }
        }
        if end >= limit {
            done = true;
        } else {
            from = end + 1;
        }
    }
    Ok(())
}

/// Reads a list of bit widths, such as `1,3,5`, `1-4`, `0x88` or `all`. A
/// `p` at the end of the list sets `pixel_align_out`.
pub fn parse_bits(s: &str, pixel_align_out: &mut bool) -> (r: Result<Vec<u16>, OptionsError>)
    ensures
        *final(pixel_align_out) == (*old(pixel_align_out) || has_align_mark(s@)),
        match r {
            Ok(v) => spec_parse_bits(s@) == Ok::<Seq<u16>, ErrorKind>(v@),
            Err(e) => spec_parse_bits(s@) == Err::<Seq<u16>, ErrorKind>(e.kind()),
        },
{
    let text = trim_string(s);
    let chars = str_chars(text.as_str());
    let mut limit = chars.len();
    if limit > 0 && chars[limit - 1] == 'p' {
        *pixel_align_out = true;
        limit = limit - 1;
    }
    assert(bits_body(s@) =~= chars@.take(limit as int));
    let mut out: Vec<u16> = Vec::new();
    match push_pieces(&mut out, &text, &chars, limit) {
        Ok(_) => Ok(dedup_widths(&out)),
        Err(e) => Err(e),
    }
}

// ---------------------------------------------------------------------------
// The parameter string
// ---------------------------------------------------------------------------
/// What a parameter string sets.
pub struct Params {
    pub bit_order: Option<BitOrder>,
    pub prime_only: bool,
    pub zlib_flag: bool,
    pub bits: Option<Seq<u16>>,
    /// The one order token.
    pub order: Option<Seq<char>>,
    /// The one channel pattern.
    pub channels: Option<Seq<char>>,
    pub extra_checks: bool,
    pub pixel_align: bool,
}

/// What the empty parameter string sets: nothing.
pub open spec fn no_params() -> Params {
    Params {
        bit_order: None,
        prime_only: false,
        zlib_flag: false,
        bits: None,
        order: None,
        channels: None,
        extra_checks: true,
        pixel_align: false,
    }
}

/// A word that sets the bit width with a `b` in front: `b1`, `b12`, `b2p`.
pub open spec fn is_bits_prefixed(x: Seq<char>) -> bool {
    &&& x.len() >= 2
    &&& x[0] == 'b'
    &&& forall|i: int| 1 <= i < x.len() ==> ('0' <= #[trigger] x[i] <= '9' || x[i] == 'p')
}

/// A word that sets the bit width with a `b` behind: `1b`, `12b`.
pub open spec fn is_bits_suffixed(x: Seq<char>) -> bool {
    &&& x.len() >= 2
    &&& x.last() == 'b'
    &&& forall|i: int| 0 <= i < x.len() - 1 ==> '0' <= #[trigger] x[i] <= '9'
}

/// One of the order tokens `xy`, `yx`, `yb`, `by`, in any case.
pub open spec fn is_order_word(x: Seq<char>) -> bool {
    &&& x.len() == 2
    &&& {
        let a = x[0];
        let b = x[1];
        ||| ((a == 'x' || a == 'X') && (b == 'y' || b == 'Y'))
        ||| ((a == 'y' || a == 'Y') && (b == 'x' || b == 'X'))
        ||| ((a == 'y' || a == 'Y') && (b == 'b' || b == 'B'))
        ||| ((a == 'b' || a == 'B') && (b == 'y' || b == 'Y'))
    }
}

/// A channel pattern: one or more of the letters `r`, `g`, `b`, `a`.
pub open spec fn is_channel_word(x: Seq<char>) -> bool {
    &&& x.len() > 0
    &&& forall|i: int|
        0 <= i < x.len() ==> (#[trigger] x[i] == 'r' || x[i] == 'g' || x[i] == 'b' || x[i] == 'a')
}

/// The widths of a word that sets them, and whether it asks for pixel
/// alignment.
pub open spec fn word_bits(x: Seq<char>) -> (Result<Seq<u16>, ErrorKind>, bool) {
    if is_bits_prefixed(x) {
        let cap = x.skip(1);
        if cap.last() == 'p' {
            (spec_parse_bits(cap.drop_last()), true)
        } else {
            (spec_parse_bits(cap), has_align_mark(cap))
        }
    } else {
        (spec_parse_bits(x.drop_last()), has_align_mark(x.drop_last()))
    }
}

/// What one word of a parameter string does to what is set so far.
#[verifier::opaque]
pub open spec fn apply_word(p: Params, x: Seq<char>) -> Result<Params, ErrorKind> {
    if x == "lsb"@ {
        Ok(Params { bit_order: Some(BitOrder::Lsb), ..p })
    } else if x == "msb"@ {
        Ok(Params { bit_order: Some(BitOrder::Msb), ..p })
    } else if x == "prime"@ {
        Ok(Params { prime_only: true, extra_checks: false, ..p })
    } else if x == "zlib"@ {
        Ok(Params { zlib_flag: true, ..p })
    } else if is_bits_prefixed(x) || is_bits_suffixed(x) {
        match word_bits(x).0 {
            Ok(v) => Ok(
                Params {
                    bits: Some(v),
                    extra_checks: false,
                    pixel_align: p.pixel_align || word_bits(x).1,
                    ..p
                },
            ),
            Err(k) => Err(k),
        }
    } else if is_order_word(x) {
        Ok(Params { order: Some(x), ..p })
    } else if is_channel_word(x) {
        Ok(Params { channels: Some(x), extra_checks: false, ..p })
    } else {
        Err(ErrorKind::UnknownParam)
    }
}

/// What the words of a comma-separated list from `from` on do to what is
/// set so far, each word taken without the white space around it.
pub open spec fn apply_words(s: Seq<char>, from: int, p: Params) -> Result<Params, ErrorKind>
    decreases s.len() - from,
{
    let end = find_char(s, ',', from);
    match apply_word(p, trimmed(s.subrange(from, end))) {
        Err(k) => Err(k),
        Ok(q) => if end >= s.len() || end < from {
            Ok(q)
        } else {
            apply_words(s, end + 1, q)
        },
    }
}

/// What a parameter string sets.
pub open spec fn spec_decode(s: Seq<char>) -> Result<Params, ErrorKind> {
    apply_words(s, 0, no_params())
}

/// The views of an optional list of strings that holds at most one.
pub open spec fn single_text(v: Option<Vec<String>>) -> Option<Seq<char>> {
    match v {
        Some(list) => if list@.len() == 1 {
            Some(list@[0]@)
        } else {
            None
        },
        None => None,
    }
}

/// The options are the defaults but for what the parameters set.
pub open spec fn options_of(o: Options, p: Params) -> bool {
    &&& o.verbose == 0
    &&& o.limit == 256
    &&& match p.order {
        Some(x) => o.order matches OrderSpec::Explicit(v) && v@.len() == 1 && v@[0]@ == x,
        None => o.order is Auto,
    }
    &&& o.step == 1
    &&& o.ystep == 1
    &&& (o.channels is Some <==> p.channels is Some)
    &&& single_text(o.channels) == p.channels
    &&& (match p.bits {
        Some(b) => o.bits matches Some(v) && v@ == b,
        None => o.bits is None,
    })
    &&& o.bit_order == p.bit_order
    &&& o.prime == (if p.prime_only {
        PrimeSpec::Only
    } else {
        PrimeSpec::Off
    })
    &&& o.pixel_align == (if p.pixel_align {
        PixelAlignSpec::Only
    } else {
        PixelAlignSpec::Off
    })
    &&& o.shift is None
    &&& !o.invert
    &&& o.file_cmd
    &&& o.strings is None
    &&& o.min_str_len == 8
    &&& o.extra_checks == p.extra_checks
    &&& o.zlib_flag == p.zlib_flag
}

fn bits_prefixed(x: &Vec<char>) -> (r: bool)
    ensures
        r == is_bits_prefixed(x@),
{
    if x.len() < 2 || x[0] != 'b' {
        return false;
    }
    let mut i: usize = 1;
    while i < x.len()
        invariant
            1 <= i <= x.len(),
            forall|k: int| 1 <= k < i ==> ('0' <= #[trigger] x@[k] <= '9' || x@[k] == 'p'),
        decreases x.len() - i,
    {
        if !(('0' <= x[i] && x[i] <= '9') || x[i] == 'p') {
            return false;
        }
        i = i + 1;
    }
    true
}

fn bits_suffixed(x: &Vec<char>) -> (r: bool)
    ensures
        r == is_bits_suffixed(x@),
{
    if x.len() < 2 || x[x.len() - 1] != 'b' {
        return false;
    }
    let mut i: usize = 0;
    while i < x.len() - 1
        invariant
            i <= x.len() - 1,
            x.len() >= 2,
            forall|k: int| 0 <= k < i ==> '0' <= #[trigger] x@[k] <= '9',
        decreases x.len() - i,
    {
        if !('0' <= x[i] && x[i] <= '9') {
            return false;
        }
        i = i + 1;
    }
    true
}

fn order_word(x: &Vec<char>) -> (r: bool)
    ensures
        r == is_order_word(x@),
{
    if x.len() != 2 {
        return false;
    }
    let a = x[0];
    let b = x[1];
    ((a == 'x' || a == 'X') && (b == 'y' || b == 'Y')) || ((a == 'y' || a == 'Y') && (b == 'x'
        || b == 'X')) || ((a == 'y' || a == 'Y') && (b == 'b' || b == 'B')) || ((a == 'b' || a
        == 'B') && (b == 'y' || b == 'Y'))
}

fn channel_word(x: &Vec<char>) -> (r: bool)
    ensures
        r == is_channel_word(x@),
{
    if x.len() == 0 {
        return false;
    }
    let mut i: usize = 0;
    while i < x.len()
        invariant
            i <= x.len(),
            forall|k: int|
                0 <= k < i ==> (#[trigger] x@[k] == 'r' || x@[k] == 'g' || x@[k] == 'b' || x@[k]
                    == 'a'),
        decreases x.len() - i,
    {
        if !(x[i] == 'r' || x[i] == 'g' || x[i] == 'b' || x[i] == 'a') {
            return false;
        }
        i = i + 1;
    }
    true
}

/// Reads the widths of a word that sets them.
fn read_word_bits(word: &String, x: &Vec<char>, flag: &mut bool) -> (r: Result<
    Vec<u16>,
    OptionsError,
>)
    requires
        x@ == word@,
        is_bits_prefixed(x@) || is_bits_suffixed(x@),
    ensures
        *final(flag) == (*old(flag) || word_bits(x@).1),
        match r {
            Ok(v) => word_bits(x@).0 == Ok::<Seq<u16>, ErrorKind>(v@),
            Err(e) => word_bits(x@).0 == Err::<Seq<u16>, ErrorKind>(e.kind()),
        },
{
    let n = x.len();
    if bits_prefixed(x) {
        assert(word@.subrange(1, n as int) =~= x@.skip(1));
        if x[n - 1] == 'p' {
            *flag = true;
            assert(word@.subrange(1, n - 1) =~= x@.skip(1).drop_last());
            parse_bits(word.as_str().substring_char(1, n - 1), flag)
        } else {
            parse_bits(word.as_str().substring_char(1, n), flag)
        }
    } else {
        assert(word@.subrange(0, n - 1) =~= x@.drop_last());
        parse_bits(word.as_str().substring_char(0, n - 1), flag)
    }
}

/// What the options hold of what a parameter string can set; `aligned`
/// says whether pixel alignment was asked for.
pub open spec fn params_of(o: Options, aligned: bool) -> Params {
    Params {
        bit_order: o.bit_order,
        prime_only: o.prime is Only,
        zlib_flag: o.zlib_flag,
        bits: match o.bits {
            Some(v) => Some(v@),
            None => None,
        },
        order: match o.order {
            OrderSpec::Explicit(v) => if v@.len() == 1 {
                Some(v@[0]@)
            } else {
                None
            },
            _ => None,
        },
        channels: single_text(o.channels),
        extra_checks: o.extra_checks,
        pixel_align: aligned,
    }
}

/// The options are as a parameter string can leave them: what it never
/// sets is at its default, and order and channels hold at most one item.
pub open spec fn untouched(o: Options) -> bool {
    &&& o.verbose == 0
    &&& o.limit == 256
    &&& (o.order is Auto || (o.order matches OrderSpec::Explicit(v) && v@.len() == 1))
    &&& o.step == 1
    &&& o.ystep == 1
    &&& (o.channels matches Some(v) ==> v@.len() == 1)
    &&& (o.prime is Off || o.prime is Only)
    &&& o.pixel_align is Off
    &&& o.shift is None
    &&& !o.invert
    &&& o.file_cmd
    &&& o.strings is None
    &&& o.min_str_len == 8
}

/// Applies one word of a parameter string to the options. The word is
/// taken as it stands; white space around it is not allowed for.
pub fn apply_param(o: &mut Options, aligned: &mut bool, word: String) -> (r: Result<
    (),
    OptionsError,
>)
    requires
        untouched(*old(o)),
    ensures
        match r {
            Ok(_) => apply_word(params_of(*old(o), *old(aligned)), word@) == Ok::<
                Params,
                ErrorKind,
            >(params_of(*final(o), *final(aligned))) && untouched(*final(o)),
            Err(e) => apply_word(params_of(*old(o), *old(aligned)), word@) == Err::<
                Params,
                ErrorKind,
            >(e.kind()),
        },
{
    reveal(apply_word);
    let x = str_chars(word.as_str());
    if is_word(&x, "lsb") {
        o.bit_order = Some(BitOrder::Lsb);
        Ok(())
    } else if is_word(&x, "msb") {
        o.bit_order = Some(BitOrder::Msb);
        Ok(())
    } else if is_word(&x, "prime") {
        o.prime = PrimeSpec::Only;
        o.extra_checks = false;
        Ok(())
    } else if is_word(&x, "zlib") {
        o.zlib_flag = true;
        Ok(())
    } else if bits_prefixed(&x) || bits_suffixed(&x) {
        match read_word_bits(&word, &x, aligned) {
            Ok(v) => {
                o.bits = Some(v);
                o.extra_checks = false;
                Ok(())
            },
            Err(e) => Err(e),
        }
    } else if order_word(&x) {
        o.order = OrderSpec::Explicit(vec![word]);
        Ok(())
    } else if channel_word(&x) {
        o.channels = Some(vec![word]);
        o.extra_checks = false;
        Ok(())
    } else {
        Err(OptionsError::UnknownParam(word))
    }
}

/// Reads a parameter string such as `1b,rgb,lsb,xy`: a comma-separated
/// list of words, each of which sets one of the options.
pub fn decode_param_string(s: &str) -> (r: Result<Options, OptionsError>)
    ensures
        match r {
            Ok(o) => spec_decode(s@) matches Ok(p) && options_of(o, p),
            Err(e) => spec_decode(s@) == Err::<Params, ErrorKind>(e.kind()),
        },
{
    let mut o = Options::default();
    let mut aligned = false;
    let chars = str_chars(s);
    let limit = chars.len();
    let mut from: usize = 0;
    let mut done = false;
    assert(chars@.take(limit as int) =~= s@);
    while !done
        invariant
            from <= limit,
            limit == chars.len(),
            chars@ == s@,
            untouched(o),
            !done ==> spec_decode(s@) == apply_words(s@, from as int, params_of(o, aligned)),
            done ==> spec_decode(s@) == Ok::<Params, ErrorKind>(params_of(o, aligned)),
        decreases limit - from + (if done { 0int } else { 1int }),
    {
        let end = find_in(&chars, ',', from, limit);
        assert(chars@.take(limit as int) =~= s@);
        let word = trim_string(s.substring_char(from, end));
        match apply_param(&mut o, &mut aligned, word) {
            Ok(_) => {},
            Err(e) => {
                return Err(e);
            },
        }
        if end >= limit {
            done = true;
        } else {
            from = end + 1;
        }
    }
    if aligned {
        o.pixel_align = PixelAlignSpec::Only;
    }
    Ok(o)
}

// ---------------------------------------------------------------------------
// The command line
// ---------------------------------------------------------------------------
/// What the command line says, as plain values.
#[derive(Debug, Clone, PartialEq, Eq)]
pub struct CliArgs {
    /// Try all known methods.
    pub all: bool,
    /// What to extract, if anything.
    pub extract: Option<String>,
    /// Order tokens, separated by commas.
    pub order: Option<String>,
    /// Channel patterns, separated by commas.
    pub channels: Option<String>,
    /// A list of bit widths.
    pub bits: Option<String>,
    pub lsb: bool,
    pub msb: bool,
    pub prime: bool,
    pub shift: Option<usize>,
    pub step: Option<usize>,
    pub invert: bool,
    pub pixel_align: bool,
    pub limit: Option<usize>,
    pub file_cmd: bool,
    pub no_strings: bool,
    /// Name of a strings mode.
    pub strings: Option<String>,
    pub min_str_len: Option<usize>,
    /// How often verbosity was asked for.
    pub verbose: u8,
    /// How often quiet was asked for.
    pub quiet: u8,
}

/// The items of a comma-separated list from `from` on, as they stand.
pub open spec fn split_commas(s: Seq<char>, from: int) -> Seq<Seq<char>>
    decreases s.len() - from,
{
    let end = find_char(s, ',', from);
    if end >= s.len() || end < from {
        seq![s.subrange(from, end)]
    } else {
        seq![s.subrange(from, end)] + split_commas(s, end + 1)
    }
}

/// Splits a text at its commas.
pub fn split_list(s: &str) -> (r: Vec<String>)
    ensures
        texts(r@) == split_commas(s@, 0),
{
    let chars = str_chars(s);
    let limit = chars.len();
    let mut out: Vec<String> = Vec::new();
    let mut from: usize = 0;
    let mut done = false;
    assert(chars@.take(limit as int) =~= s@);
    assert(texts(out@) + split_commas(s@, 0) =~= split_commas(s@, 0));
    while !done
        invariant
            from <= limit,
            limit == chars.len(),
            chars@ == s@,
            !done ==> split_commas(s@, 0) == texts(out@) + split_commas(s@, from as int),
            done ==> split_commas(s@, 0) == texts(out@),
        decreases limit - from + (if done { 0int } else { 1int }),
    {
        let end = find_in(&chars, ',', from, limit);
        assert(chars@.take(limit as int) =~= s@);
        let item = String::from_str(s.substring_char(from, end));
        let ghost before = out@;
        out.push(item);
        proof {
            let piece = s@.subrange(from as int, end as int);
            assert(texts(out@) =~= texts(before).push(piece));
            if end < limit {
                assert(texts(before) + (seq![piece] + split_commas(s@, end + 1)) =~= texts(out@)
                    + split_commas(s@, end + 1));
            } else {
                assert(texts(before) + seq![piece] =~= texts(out@));
            }
        }
        if end >= limit {
            done = true;
        } else {
            from = end + 1;
        }
    }
    out
}

/// The strings mode that a name stands for: `first`, `all`, `longest`,
/// `none` or `no`, in any case; anything else is `First`.
pub open spec fn spec_strings_mode(name: Seq<char>) -> StringsMode {
    let low = lowercased(name);
    if low == "all"@ {
        StringsMode::All
    } else if low == "longest"@ {
        StringsMode::Longest
    } else if low == "none"@ || low == "no"@ {
        StringsMode::Off
    } else {
        StringsMode::First
    }
}

/// The strings mode that a name stands for.
pub fn strings_mode(name: &str) -> (m: StringsMode)
    ensures
        m == spec_strings_mode(name@),
{
    let low = lowercase_string(name);
    let chars = str_chars(low.as_str());
    if is_word(&chars, "all") {
        StringsMode::All
    } else if is_word(&chars, "longest") {
        StringsMode::Longest
    } else if is_word(&chars, "none") || is_word(&chars, "no") {
        StringsMode::Off
    } else {
        StringsMode::First
    }
}

/// The value that an optional setting leaves: its own if it is set, else
/// the one before.
pub open spec fn or_keep(set: Option<usize>, before: usize) -> usize {
    match set {
        Some(n) => n,
        None => before,
    }
}

/// The widths 1 to 8.
fn all_widths() -> (v: Vec<u16>)
    ensures
        v@ == ascending(1, 8),
{
    let v = vec![1u16, 2u16, 3u16, 4u16, 5u16, 6u16, 7u16, 8u16];
    assert(v@ =~= ascending(1, 8));
    v
}

fn merge_scope(base: &mut Options, cli: &CliArgs)
    ensures
        final(base).prime == (if cli.all {
            PrimeSpec::All
        } else {
            old(base).prime
        }),
        match cli.order {
            Some(t) => final(base).order matches OrderSpec::Explicit(v) && texts(v@)
                == split_commas(t@, 0),
            None => if cli.all {
                final(base).order is All
            } else {
                final(base).order == old(base).order
            },
        },
        final(base).pixel_align == (if cli.all {
            PixelAlignSpec::All
        } else {
            old(base).pixel_align
        }),
        if cli.all {
            final(base).bits matches Some(v) && v@ == ascending(1, 8)
        } else {
            final(base).bits == old(base).bits
        },
        final(base).extra_checks == (if cli.channels is Some {
            false
        } else if cli.all {
            true
        } else {
            old(base).extra_checks
        }),
        match cli.channels {
            Some(t) => final(base).channels matches Some(v) && texts(v@) == split_commas(t@, 0),
            None => final(base).channels == old(base).channels,
        },
        final(base).bit_order == old(base).bit_order,
        final(base).shift == old(base).shift,
        final(base).step == old(base).step,
        final(base).ystep == old(base).ystep,
        final(base).invert == old(base).invert,
        final(base).limit == old(base).limit,
        final(base).file_cmd == old(base).file_cmd,
        final(base).strings == old(base).strings,
        final(base).min_str_len == old(base).min_str_len,
        final(base).verbose == old(base).verbose,
        final(base).zlib_flag == old(base).zlib_flag,
{
    if cli.all {
        base.prime = PrimeSpec::All;
        base.order = OrderSpec::All;
        base.pixel_align = PixelAlignSpec::All;
        base.bits = Some(all_widths());
        base.extra_checks = true;
    }
    match &cli.order {
        Some(t) => {
            base.order = OrderSpec::Explicit(split_list(t.as_str()));
        },
        None => {},
    }
    match &cli.channels {
        Some(t) => {
            base.channels = Some(split_list(t.as_str()));
            base.extra_checks = false;
        },
        None => {},
    }
}

fn merge_bits(base: &mut Options, cli: &CliArgs) -> (r: Result<(), OptionsError>)
    ensures
        match r {
            Err(e) => cli.bits matches Some(b) && spec_parse_bits(b@) == Err::<
                Seq<u16>,
                ErrorKind,
            >(e.kind()),
            Ok(_) => {
                &&& match cli.bits {
                    Some(b) => final(base).bits matches Some(v) && spec_parse_bits(b@) == Ok::<
                        Seq<u16>,
                        ErrorKind,
                    >(v@),
                    None => final(base).bits == old(base).bits,
                }
                &&& final(base).pixel_align == (if cli.bits matches Some(b) && has_align_mark(b@) {
                    PixelAlignSpec::Only
                } else {
                    old(base).pixel_align
                })
                &&& final(base).extra_checks == (if cli.bits is Some {
                    false
                } else {
                    old(base).extra_checks
                })
                &&& final(base).prime == old(base).prime
                &&& final(base).order == old(base).order
                &&& final(base).channels == old(base).channels
                &&& final(base).bit_order == old(base).bit_order
                &&& final(base).shift == old(base).shift
                &&& final(base).step == old(base).step
                &&& final(base).ystep == old(base).ystep
                &&& final(base).invert == old(base).invert
                &&& final(base).limit == old(base).limit
                &&& final(base).file_cmd == old(base).file_cmd
                &&& final(base).strings == old(base).strings
                &&& final(base).min_str_len == old(base).min_str_len
                &&& final(base).verbose == old(base).verbose
                &&& final(base).zlib_flag == old(base).zlib_flag
            },
        },
{
    match &cli.bits {
        Some(b) => {
            let mut aligned = false;
            match parse_bits(b.as_str(), &mut aligned) {
                Ok(v) => {
                    base.bits = Some(v);
                },
                Err(e) => {
                    return Err(e);
                },
            }
            if aligned {
                base.pixel_align = PixelAlignSpec::Only;
            }
            base.extra_checks = false;
        },
        None => {},
    }
    Ok(())
}

fn merge_switches(base: &mut Options, cli: &CliArgs)
    ensures
        final(base).bit_order == (if cli.msb {
            Some(BitOrder::Msb)
        } else if cli.lsb {
            Some(BitOrder::Lsb)
        } else {
            old(base).bit_order
        }),
        final(base).prime == (if cli.prime {
            PrimeSpec::Only
        } else {
            old(base).prime
        }),
        final(base).extra_checks == (if cli.prime {
            false
        } else {
            old(base).extra_checks
        }),
        final(base).shift == (match cli.shift {
            Some(n) => Some(n),
            None => old(base).shift,
        }),
        final(base).step == or_keep(cli.step, old(base).step),
        final(base).invert == (cli.invert || old(base).invert),
        final(base).pixel_align == (if cli.pixel_align {
            PixelAlignSpec::Only
        } else {
            old(base).pixel_align
        }),
        final(base).limit == or_keep(cli.limit, old(base).limit),
        final(base).order == old(base).order,
        final(base).channels == old(base).channels,
        final(base).bits == old(base).bits,
        final(base).ystep == old(base).ystep,
        final(base).file_cmd == old(base).file_cmd,
        final(base).strings == old(base).strings,
        final(base).min_str_len == old(base).min_str_len,
        final(base).verbose == old(base).verbose,
        final(base).zlib_flag == old(base).zlib_flag,
{
    if cli.lsb {
        base.bit_order = Some(BitOrder::Lsb);
    }
    if cli.msb {
        base.bit_order = Some(BitOrder::Msb);
    }
    if cli.prime {
        base.prime = PrimeSpec::Only;
        base.extra_checks = false;
    }
    match cli.shift {
        Some(n) => {
            base.shift = Some(n);
        },
        None => {},
    }
    match cli.step {
        Some(n) => {
            base.step = n;
        },
        None => {},
    }
    if cli.invert {
        base.invert = true;
    }
    if cli.pixel_align {
        base.pixel_align = PixelAlignSpec::Only;
    }
    match cli.limit {
        Some(n) => {
            base.limit = n;
        },
        None => {},
    }
}

fn merge_reporting(base: &mut Options, cli: &CliArgs)
    ensures
        final(base).file_cmd == cli.file_cmd,
        final(base).strings == (match cli.strings {
            Some(name) => Some(spec_strings_mode(name@)),
            None => if cli.no_strings {
                Some(StringsMode::Off)
            } else {
                old(base).strings
            },
        }),
        final(base).min_str_len == or_keep(cli.min_str_len, old(base).min_str_len),
        final(base).verbose == cli.verbose - cli.quiet,
        final(base).prime == old(base).prime,
        final(base).order == old(base).order,
        final(base).pixel_align == old(base).pixel_align,
        final(base).bits == old(base).bits,
        final(base).extra_checks == old(base).extra_checks,
        final(base).channels == old(base).channels,
        final(base).bit_order == old(base).bit_order,
        final(base).shift == old(base).shift,
        final(base).step == old(base).step,
        final(base).ystep == old(base).ystep,
        final(base).invert == old(base).invert,
        final(base).limit == old(base).limit,
        final(base).zlib_flag == old(base).zlib_flag,
{
    base.file_cmd = cli.file_cmd;
    if cli.no_strings {
        base.strings = Some(StringsMode::Off);
    }
    match &cli.strings {
        Some(name) => {
            base.strings = Some(strings_mode(name.as_str()));
        },
        None => {},
    }
    match cli.min_str_len {
        Some(n) => {
            base.min_str_len = n;
        },
        None => {},
    }
    base.verbose = (cli.verbose as i32) - (cli.quiet as i32);
}

/// Takes what the command line says over into the options. What it does
/// not mention stays as it is. Fails if the list of bit widths is wrong; the
/// options are then left half merged.
pub fn merge_cli_into_options(base: &mut Options, cli: &CliArgs) -> (r: Result<(), OptionsError>)
    ensures
        match r {
            Err(e) => cli.bits matches Some(b) && spec_parse_bits(b@) == Err::<
                Seq<u16>,
                ErrorKind,
            >(e.kind()),
            Ok(_) => {
                let o = *final(base);
                let was = *old(base);
                &&& o.prime == (if cli.prime {
                    PrimeSpec::Only
                } else if cli.all {
                    PrimeSpec::All
                } else {
                    was.prime
                })
                &&& match cli.order {
                    Some(t) => o.order matches OrderSpec::Explicit(v) && texts(v@) == split_commas(
                        t@,
                        0,
                    ),
                    None => if cli.all {
                        o.order is All
                    } else {
                        o.order == was.order
                    },
                }
                &&& o.pixel_align == (if cli.pixel_align || (cli.bits matches Some(b)
                    && has_align_mark(b@)) {
                    PixelAlignSpec::Only
                } else if cli.all {
                    PixelAlignSpec::All
                } else {
                    was.pixel_align
                })
                &&& match cli.bits {
                    Some(b) => o.bits matches Some(v) && spec_parse_bits(b@) == Ok::<
                        Seq<u16>,
                        ErrorKind,
                    >(v@),
                    None => if cli.all {
                        o.bits matches Some(v) && v@ == ascending(1, 8)
                    } else {
                        o.bits == was.bits
                    },
                }
                &&& o.extra_checks == (if cli.channels is Some || cli.bits is Some || cli.prime {
                    false
                } else if cli.all {
                    true
                } else {
                    was.extra_checks
                })
                &&& match cli.channels {
                    Some(t) => o.channels matches Some(v) && texts(v@) == split_commas(t@, 0),
                    None => o.channels == was.channels,
                }
                &&& o.bit_order == (if cli.msb {
                    Some(BitOrder::Msb)
                } else if cli.lsb {
                    Some(BitOrder::Lsb)
                } else {
                    was.bit_order
                })
                &&& o.shift == (match cli.shift {
                    Some(n) => Some(n),
                    None => was.shift,
                })
                &&& o.step == or_keep(cli.step, was.step)
                &&& o.ystep == was.ystep
                &&& o.invert == (cli.invert || was.invert)
                &&& o.limit == or_keep(cli.limit, was.limit)
                &&& o.file_cmd == cli.file_cmd
                &&& o.strings == (match cli.strings {
                    Some(name) => Some(spec_strings_mode(name@)),
                    None => if cli.no_strings {
                        Some(StringsMode::Off)
                    } else {
                        was.strings
                    },
                })
                &&& o.min_str_len == or_keep(cli.min_str_len, was.min_str_len)
                &&& o.verbose == cli.verbose - cli.quiet
                &&& o.zlib_flag == was.zlib_flag
            },
        },
{
    merge_scope(base, cli);
    match merge_bits(base, cli) {
        Ok(_) => {},
        Err(e) => {
            return Err(e);
        },
    }
    merge_switches(base, cli);
    merge_reporting(base, cli);
    Ok(())
}

/// Lays what a parameter string has set over the options: each of bit
/// order, widths, order, channels, pixel alignment, prime filter and the
/// zlib flag where the string has set it, and the extra checks stay on only
/// if both sides have them on.
pub fn merge_params(options: &mut Options, params: Options)
    ensures
        final(options).bit_order == (if params.bit_order is Some {
            params.bit_order
        } else {
            old(options).bit_order
        }),
        final(options).bits == (if params.bits is Some {
            params.bits
        } else {
            old(options).bits
        }),
        final(options).order == (if params.order is Auto {
            old(options).order
        } else {
            params.order
        }),
        final(options).channels == (if params.channels is Some {
            params.channels
        } else {
            old(options).channels
        }),
        final(options).pixel_align == (if params.pixel_align is Off {
            old(options).pixel_align
        } else {
            params.pixel_align
        }),
        final(options).prime == (if params.prime is Off {
            old(options).prime
        } else {
            params.prime
        }),
        final(options).zlib_flag == (old(options).zlib_flag || params.zlib_flag),
        final(options).extra_checks == (old(options).extra_checks && params.extra_checks),
        final(options).verbose == old(options).verbose,
        final(options).limit == old(options).limit,
        final(options).step == old(options).step,
        final(options).ystep == old(options).ystep,
        final(options).shift == old(options).shift,
        final(options).invert == old(options).invert,
        final(options).file_cmd == old(options).file_cmd,
        final(options).strings == old(options).strings,
        final(options).min_str_len == old(options).min_str_len,
{
    let params = params;
    if params.bit_order.is_some() {
        options.bit_order = params.bit_order;
    }
    if params.bits.is_some() {
        options.bits = params.bits;
    }
    match params.order {
        OrderSpec::Auto => {},
        other => {
            options.order = other;
        },
    }
    if params.channels.is_some() {
        options.channels = params.channels;
    }
    match params.pixel_align {
        PixelAlignSpec::Off => {},
        other => {
            options.pixel_align = other;
        },
    }
    match params.prime {
        PrimeSpec::Off => {},
        other => {
            options.prime = other;
        },
    }
    if params.zlib_flag {
        options.zlib_flag = true;
    }
    options.extra_checks = options.extra_checks && params.extra_checks;
}

// ---------------------------------------------------------------------------
// What to extract
// ---------------------------------------------------------------------------
/// What an extraction is asked to put out.
#[derive(Debug, Clone, Copy, PartialEq, Eq, Structural)]
pub enum ExtractTarget {
    /// The raw byte stream.
    ImageData,
    /// The payload of the chunk with this index.
    Chunk(usize),
    /// What the parameter string describes.
    Params,
}

/// The index that a text stands for: an optional `+`, then decimal digits,
/// with a value that an index can have.
pub open spec fn parse_index(s: Seq<char>) -> Option<usize> {
    match parse_bounded(s, 10, usize::MAX as nat) {
        Some(v) => Some(v as usize),
        None => None,
    }
}

/// The text between the first and the second colon of `s`, or up to the
/// end if there is no second one.
pub open spec fn index_field(s: Seq<char>) -> Seq<char> {
    let a = find_char(s, ':', 0);
    s.subrange(a + 1, find_char(s, ':', a + 1))
}

/// What an extraction is asked for: `imagedata`, `chunk:` with an index and
/// anything behind a second colon, or else a parameter string.
pub open spec fn spec_extract_target(s: Seq<char>) -> Result<ExtractTarget, ErrorKind> {
    if s == "imagedata"@ {
        Ok(ExtractTarget::ImageData)
    } else if "chunk:"@.is_prefix_of(s) {
        match parse_index(index_field(s)) {
            Some(i) => Ok(ExtractTarget::Chunk(i)),
            None => Err(ErrorKind::InvalidChunkIndex),
        }
    } else {
        Ok(ExtractTarget::Params)
    }
}

/// Reads an index.
pub fn read_index(s: &Vec<char>) -> (r: Option<usize>)
    ensures
        r == parse_index(s@),
{
    match read_bounded(s, 10, usize::MAX as u64) {
        Some(v) => Some(v as usize),
        None => None,
    }
}

/// Reads what an extraction is asked for.
pub fn extract_target(expr: &str) -> (r: Result<ExtractTarget, OptionsError>)
    ensures
        match r {
            Ok(t) => spec_extract_target(expr@) == Ok::<ExtractTarget, ErrorKind>(t),
            Err(e) => spec_extract_target(expr@) == Err::<ExtractTarget, ErrorKind>(e.kind()),
        },
{
    let chars = str_chars(expr);
    if is_word(&chars, "imagedata") {
        return Ok(ExtractTarget::ImageData);
    }
    if !crate::text::has_prefix(&chars, "chunk:") {
        return Ok(ExtractTarget::Params);
    }
    let n = chars.len();
    assert(chars@.take(n as int) =~= chars@);
    let a = find_in(&chars, ':', 0, n);
    proof {
        reveal_strlit("chunk:");
        assert(chars@[5] == ':');
        assert(a < n) by {
            lemma_find_bound(chars@, ':', 0, 5);
        }
    }
    let b = find_in(&chars, ':', a + 1, n);
    let field = skip_chars(&take_chars(&chars, b), a + 1);
    assert(field@ =~= index_field(expr@));
    match read_index(&field) {
        Some(i) => Ok(ExtractTarget::Chunk(i)),
        None => Err(OptionsError::InvalidChunkIndex(String::from_str(expr))),
    }
}

proof fn lemma_find_bound(s: Seq<char>, c: char, from: int, at: int)
    requires
        0 <= from <= at < s.len(),
        s[at] == c,
    ensures
        from <= find_char(s, c, from) <= at,
    decreases at - from,
{
    if s[from] != c {
        lemma_find_bound(s, c, from + 1, at);
    }
}

/// Makes of the options those of an extraction: bit order, widths, order,
/// channels and prime filter are taken from what the parameter string has
/// set, and a limit that is still the default of 256 bytes is lifted.
/// Everything else stays as it is.
pub fn merge_for_extraction(options: &mut Options, params: Options)
    ensures
        final(options).bit_order == (if params.bit_order is Some {
            params.bit_order
        } else {
            old(options).bit_order
        }),
        final(options).bits == (if params.bits is Some {
            params.bits
        } else {
            old(options).bits
        }),
        final(options).order == (if params.order is Auto {
            old(options).order
        } else {
            params.order
        }),
        final(options).channels == (if params.channels is Some {
            params.channels
        } else {
            old(options).channels
        }),
        final(options).prime == (if params.prime is Off {
            old(options).prime
        } else {
            params.prime
        }),
        final(options).limit == (if old(options).limit == 256 {
            0
        } else {
            old(options).limit
        }),
        final(options).pixel_align == old(options).pixel_align,
        final(options).zlib_flag == old(options).zlib_flag,
        final(options).extra_checks == old(options).extra_checks,
        final(options).verbose == old(options).verbose,
        final(options).step == old(options).step,
        final(options).ystep == old(options).ystep,
        final(options).shift == old(options).shift,
        final(options).invert == old(options).invert,
        final(options).file_cmd == old(options).file_cmd,
        final(options).strings == old(options).strings,
        final(options).min_str_len == old(options).min_str_len,
{
    let params = params;
    if params.bit_order.is_some() {
        options.bit_order = params.bit_order;
    }
    if params.bits.is_some() {
        options.bits = params.bits;
    }
    match params.order {
        OrderSpec::Auto => {},
        other => {
            options.order = other;
        },
    }
    if params.channels.is_some() {
        options.channels = params.channels;
    }
    match params.prime {
        PrimeSpec::Off => {},
        other => {
            options.prime = other;
        },
    }
    if options.limit == 256 {
        options.limit = 0;
    }
}

} // verus!
