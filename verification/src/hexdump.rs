//! Hex dumps: sixteen bytes a line, offset in front, text behind.

use vstd::prelude::*;
use crate::text::{ascii_chars, is_ascii_bytes, lossy_string};

verus! {

/// The lower-case hexadecimal digit of a number below 16.
pub open spec fn hex_lower(d: nat) -> u8 {
    if d < 10 {
        (0x30 + d) as u8
    } else {
        (0x61 + d - 10) as u8
    }
}

/// The hexadecimal numeral of `n` in lower case, without leading zeros.
pub open spec fn hex_numeral(n: nat) -> Seq<u8>
    decreases n,
{
    if n < 16 {
        seq![hex_lower(n)]
    } else {
        hex_numeral(n / 16).push(hex_lower(n % 16))
    }
}

/// `count` times the byte `b`.
pub open spec fn repeat(b: u8, count: nat) -> Seq<u8> {
    Seq::new(count, |i: int| b)
}

/// The numeral `s`, with zeros in front of it up to a width of 8.
pub open spec fn pad8(s: Seq<u8>) -> Seq<u8> {
    if s.len() >= 8 {
        s
    } else {
        repeat(0x30, (8 - s.len()) as nat) + s
    }
}

/// The byte as it stands in the text column: itself if it is printable
/// ASCII, else a dot.
pub open spec fn text_cell(b: u8) -> u8 {
    if 0x20 <= b <= 0x7e {
        b
    } else {
        0x2E
    }
}

/// The first `j` cells of the hex column of the line that starts at `i`:
/// two digits and a space for a byte below `limit`, three spaces behind it.
pub open spec fn hex_cells(data: Seq<u8>, limit: int, i: int, j: nat) -> Seq<u8>
    decreases j,
{
    if j == 0 {
        Seq::empty()
    } else {
        let at = i + j - 1;
        hex_cells(data, limit, i, (j - 1) as nat) + (if at < limit {
            seq![hex_lower((data[at] / 16) as nat), hex_lower((data[at] % 16) as nat), 0x20u8]
        } else {
            seq![0x20u8, 0x20u8, 0x20u8]
        })
    }
}

/// The first `j` cells of the text column of the line that starts at `i`.
pub open spec fn text_cells(data: Seq<u8>, limit: int, i: int, j: nat) -> Seq<u8>
    decreases j,
{
    if j == 0 {
        Seq::empty()
    } else {
        let at = i + j - 1;
        text_cells(data, limit, i, (j - 1) as nat) + (if at < limit {
            seq![text_cell(data[at])]
        } else {
            Seq::empty()
        })
    }
}

/// The line for the bytes from `i` on: the indentation, the offset in at
/// least eight digits, a colon, the hex column, the text column.
pub open spec fn dump_line(prefix: nat, data: Seq<u8>, limit: int, i: int) -> Seq<u8> {
    repeat(0x20, prefix) + pad8(hex_numeral(i as nat)) + seq![0x3Au8, 0x20u8] + hex_cells(
        data,
        limit,
        i,
        16,
    ) + seq![0x20u8] + text_cells(data, limit, i, 16) + seq![0x0Au8]
}

/// The first `lines` lines of a dump.
pub open spec fn dump_lines(prefix: nat, data: Seq<u8>, limit: int, lines: nat) -> Seq<u8>
    decreases lines,
{
    if lines == 0 {
        Seq::empty()
    } else {
        dump_lines(prefix, data, limit, (lines - 1) as nat) + dump_line(
            prefix,
            data,
            limit,
            16 * (lines - 1),
        )
    }
}

/// Number of bytes that a dump shows: all of them for `limit` 0, else at
/// most `limit`.
pub open spec fn shown_len(len: nat, limit: nat) -> nat {
    if limit == 0 || len <= limit {
        len
    } else {
        limit
    }
}

/// The dump of `data` as ASCII bytes.
pub open spec fn dump_bytes(prefix: nat, data: Seq<u8>, limit: nat) -> Seq<u8> {
    let n = shown_len(data.len(), limit);
    dump_lines(prefix, data, n as int, ((n + 15) / 16) as nat)
}

fn hex_digit(d: u8) -> (c: u8)
    requires
        d < 16,
    ensures
        c == hex_lower(d as nat),
        c < 0x80,
{
    if d < 10 {
        0x30 + d
    } else {
        0x61 + (d - 10)
    }
}

fn push_offset(out: &mut Vec<u8>, n: usize)
    requires
        is_ascii_bytes(old(out)@),
    ensures
        final(out)@ == old(out)@ + pad8(hex_numeral(n as nat)),
        is_ascii_bytes(final(out)@),
{
    let mut digits: Vec<u8> = Vec::new();
    let mut rest = n;
    // The digits are collected last first.
    digits.push(hex_digit((rest % 16) as u8));
    rest = rest / 16;
    while rest > 0
        invariant
            digits@.len() >= 1,
            is_ascii_bytes(digits@),
            hex_numeral(n as nat) == hex_numeral(rest as nat) + digits@.reverse() || (rest == 0
                && hex_numeral(n as nat) == digits@.reverse()),
            rest == 0 ==> hex_numeral(n as nat) == digits@.reverse(),
        decreases rest,
    {
        let d = hex_digit((rest % 16) as u8);
        proof {
            let old_digits = digits@;
            let r = rest as nat;
            assert(hex_numeral(n as nat) == hex_numeral(r) + old_digits.reverse());
            if r < 16 {
                assert(hex_numeral(r) =~= seq![d]);
                assert(old_digits.push(d).reverse() =~= seq![d] + old_digits.reverse());
            } else {
                assert(hex_numeral(r) =~= hex_numeral(r / 16).push(d));
                assert(old_digits.push(d).reverse() =~= seq![d] + old_digits.reverse());
                assert(hex_numeral(r / 16).push(d) + old_digits.reverse() =~= hex_numeral(r / 16)
                    + (seq![d] + old_digits.reverse()));
            }
        }
        digits.push(d);
        rest = rest / 16;
    }
    let ghost numeral = hex_numeral(n as nat);
    let ghost base = out@;
    let mut pad: usize = digits.len();
    while pad < 8
        invariant
            digits@.len() <= pad <= 8 || pad == digits@.len(),
            out@ == base + repeat(0x30, (pad - digits@.len()) as nat),
            is_ascii_bytes(out@),
        decreases 8 - pad,
    {
        out.push(0x30);
        pad = pad + 1;
        assert(out@ =~= base + repeat(0x30, (pad - digits@.len()) as nat));
    }
    let ghost padded = out@;
    let mut k: usize = digits.len();
    assert(digits@.reverse().take(0) =~= Seq::<u8>::empty());
    while k > 0
        invariant
            k <= digits@.len(),
            is_ascii_bytes(digits@),
            is_ascii_bytes(out@),
            out@ == padded + digits@.reverse().take(digits@.len() - k),
        decreases k,
    {
        k = k - 1;
        out.push(digits[k]);
        proof {
            let rev = digits@.reverse();
            let m = digits@.len() - k - 1;
            assert(rev[m] == digits@[k as int]);
            assert(rev.take(m + 1) =~= rev.take(m).push(rev[m]));
            assert(out@ =~= padded + rev.take(m + 1));
        }
    }
    proof {
        let rev = digits@.reverse();
        assert(rev.take(digits@.len() as int) =~= rev);
        assert(numeral == rev);
        assert(out@ =~= base + pad8(numeral));
    }
}

fn push_line(out: &mut Vec<u8>, prefix_spaces: usize, data: &[u8], limit: usize, i: usize)
    requires
        is_ascii_bytes(old(out)@),
        limit <= data.len(),
        i < limit,
    ensures
        final(out)@ == old(out)@ + dump_line(
            prefix_spaces as nat,
            data@,
            limit as int,
            i as int,
        ),
        is_ascii_bytes(final(out)@),
{
    let ghost base = out@;
    let mut s: usize = 0;
    while s < prefix_spaces
        invariant
            s <= prefix_spaces,
            out@ == base + repeat(0x20, s as nat),
            is_ascii_bytes(out@),
        decreases prefix_spaces - s,
    {
        out.push(0x20);
        s = s + 1;
        assert(out@ =~= base + repeat(0x20, s as nat));
    }
    push_offset(out, i);
    out.push(0x3A);
    out.push(0x20);
    let ghost head = out@;
    assert(head =~= base + repeat(0x20, prefix_spaces as nat) + pad8(hex_numeral(i as nat))
        + seq![0x3Au8, 0x20u8]);
    let mut j: usize = 0;
    while j < 16
        invariant
            j <= 16,
            limit <= data.len(),
            i < limit,
            out@ == head + hex_cells(data@, limit as int, i as int, j as nat),
            is_ascii_bytes(out@),
        decreases 16 - j,
    {
        let ghost before = out@;
        if limit - i > j {
            let b = data[i + j];
            out.push(hex_digit(b / 16));
            out.push(hex_digit(b % 16));
            out.push(0x20);
            assert(out@ =~= before + seq![
                hex_lower((b / 16) as nat),
                hex_lower((b % 16) as nat),
                0x20u8,
            ]);
        } else {
            out.push(0x20);
            out.push(0x20);
            out.push(0x20);
            assert(out@ =~= before + seq![0x20u8, 0x20u8, 0x20u8]);
        }
        j = j + 1;
        assert(out@ =~= head + hex_cells(data@, limit as int, i as int, j as nat));
    }
    out.push(0x20);
    let ghost mid = out@;
    let mut j: usize = 0;
    assert(mid + Seq::<u8>::empty() =~= mid);
    while j < 16
        invariant
            j <= 16,
            limit <= data.len(),
            i < limit,
            out@ == mid + text_cells(data@, limit as int, i as int, j as nat),
            is_ascii_bytes(out@),
        decreases 16 - j,
    {
        let ghost before = out@;
        if limit - i > j {
            let b = data[i + j];
            let c = if 0x20 <= b && b <= 0x7e {
                b
            } else {
                0x2E
            };
            out.push(c);
            assert(out@ =~= before + seq![text_cell(b)]);
        } else {
            assert(before + Seq::<u8>::empty() =~= before);
        }
        j = j + 1;
        assert(out@ =~= mid + text_cells(data@, limit as int, i as int, j as nat));
    }
    out.push(0x0A);
    assert(out@ =~= base + dump_line(prefix_spaces as nat, data@, limit as int, i as int));
}

/// Dumps the first `limit` bytes of `data` (all of them for `limit` 0),
/// each line behind `prefix_spaces` spaces.
pub fn dump(prefix_spaces: usize, data: &[u8], limit: usize) -> (s: String)
    ensures
        s@ == ascii_chars(dump_bytes(prefix_spaces as nat, data@, limit as nat)),
{
    let limit = if limit == 0 || data.len() <= limit {
        data.len()
    } else {
        limit
    };
    let mut out: Vec<u8> = Vec::new();
    let count = limit / 16 + (if limit % 16 != 0 {
        1
    } else {
        0
    });
    assert(count == (limit + 15) / 16);
    let mut line: usize = 0;
    while line < count
        invariant
            limit <= data.len(),
            count == (limit + 15) / 16,
            line <= count,
            out@ == dump_lines(prefix_spaces as nat, data@, limit as int, line as nat),
            is_ascii_bytes(out@),
        decreases count - line,
    {
        push_line(&mut out, prefix_spaces, data, limit, 16 * line);
        line = line + 1;
    }
    lossy_string(out.as_slice())
}

} // verus!
