//! What is done to an extracted stream as a whole: the shift that makes room
//! for zero bits, and the inversion of every bit.

use vstd::prelude::*;

verus! {

/// Byte `i` of a stream shifted by `r` bits, `0 < r < 8`: its own bits moved
/// down by `r`, and above them the `r` low bits of the byte before it
/// (nothing for the first byte).
pub open spec fn shifted_byte(s: Seq<u8>, i: int, r: u8) -> u8 {
    if i >= 1 {
        (s[i] >> r) | (s[i - 1] << ((8 - r) as u8))
    } else {
        s[i] >> r
    }
}

/// The stream with `shift % 8` zero bits put before it, cut to its old
/// length: every bit moves `shift % 8` places towards the end, across the
/// bytes, and the last bits are dropped.
pub open spec fn shift_bytes(s: Seq<u8>, shift: nat) -> Seq<u8> {
    let r = (shift % 8) as u8;
    if r == 0 {
        s
    } else {
        Seq::new(s.len(), |i: int| shifted_byte(s, i, r))
    }
}

/// Bit `j` of a stream, counted from the most significant bit of its first
/// byte.
pub open spec fn stream_bit(s: Seq<u8>, j: int) -> bool {
    (s[j / 8] >> ((7 - j % 8) as u8)) & 1 == 1
}

/// The stream with every byte XORed with 0xFF.
pub open spec fn invert_seq(s: Seq<u8>) -> Seq<u8> {
    Seq::new(s.len(), |i: int| s[i] ^ 0xFFu8)
}

/// Puts `shift_bits % 8` zero bits before the stream and cuts it to its old
/// length. Works from the last byte to the first, each byte taking the low
/// bits of the byte before it.
pub fn shift_prepend_zero_bits(data: Vec<u8>, shift_bits: u32) -> (out: Vec<u8>)
    ensures
        out@ == shift_bytes(data@, shift_bits as nat),
{
    let r: u8 = (shift_bits % 8) as u8;
    if r == 0 {
        return data;
    }
    let ghost orig = data@;
    let mut data = data;
    let up: u8 = 8 - r;
    let mut i: usize = data.len();
    while i > 0
        invariant
            0 < r < 8,
            up == 8 - r,
            i <= orig.len(),
            data@.len() == orig.len(),
            forall|k: int| 0 <= k < i ==> data@[k] == orig[k],
            forall|k: int| i <= k < orig.len() ==> data@[k] == shifted_byte(orig, k, r),
        decreases i,
    {
        i = i - 1;
        let b = data[i];
        if i > 0 {
            let before = data[i - 1];
            data.set(i, (b >> r) | (before << up));
        } else {
            data.set(i, b >> r);
        }
    }
    assert(data@ =~= shift_bytes(orig, shift_bits as nat));
    data
}

/// XORs every byte with 0xFF.
pub fn invert_bytes(data: Vec<u8>) -> (out: Vec<u8>)
    ensures
        out@ == invert_seq(data@),
{
    let ghost orig = data@;
    let mut data = data;
    let mut i: usize = 0;
    while i < data.len()
        invariant
            i <= data.len(),
            data@.len() == orig.len(),
            forall|k: int| 0 <= k < i ==> data@[k] == orig[k] ^ 0xFFu8,
            forall|k: int| i <= k < orig.len() ==> data@[k] == orig[k],
        decreases data.len() - i,
    {
        let b = data[i];
        data.set(i, b ^ 0xFF);
        i = i + 1;
    }
    assert(data@ =~= invert_seq(orig));
    data
}

/// Inverting twice gives the stream back.
pub proof fn lemma_invert_twice(s: Seq<u8>)
    ensures
        invert_seq(invert_seq(s)) == s,
{
    assert forall|i: int| 0 <= i < s.len() implies invert_seq(invert_seq(s))[i] == s[i] by {
        let b = s[i];
        assert((b ^ 0xFFu8) ^ 0xFFu8 == b) by (bit_vector);
    }
    assert(invert_seq(invert_seq(s)) =~= s);
}

/// A shifted stream is the stream with zero bits before it: its first
/// `shift % 8` bits are zero, and every other bit is the bit that stood
/// `shift % 8` places earlier.
pub proof fn lemma_shift_prepends_zeros(s: Seq<u8>, shift: nat, j: int)
    requires
        0 <= j < 8 * s.len(),
    ensures
        stream_bit(shift_bytes(s, shift), j) == (j >= shift % 8 && stream_bit(s, j - shift % 8)),
{
    let r = (shift % 8) as u8;
    if r != 0 {
        let i = j / 8;
        let p = (j % 8) as u8;
        let a = s[i];
        if p >= r {
            let q = (p - r) as u8;
            assert((j - r) / 8 == i && (j - r) % 8 == q);
            if i >= 1 {
                let b = s[i - 1];
                assert(((((a >> r) | (b << ((8 - r) as u8))) >> ((7 - p) as u8)) & 1 == 1) == ((a
                    >> ((7 - q) as u8)) & 1 == 1)) by (bit_vector)
                    requires
                        0 < r < 8,
                        r <= p < 8,
                        q == p - r,
                ;
            } else {
                assert((((a >> r) >> ((7 - p) as u8)) & 1 == 1) == ((a >> ((7 - q) as u8)) & 1
                    == 1)) by (bit_vector)
                    requires
                        0 < r < 8,
                        r <= p < 8,
                        q == p - r,
                ;
            }
        } else if i == 0 {
            assert(((a >> r) >> ((7 - p) as u8)) & 1 == 0) by (bit_vector)
                requires
                    0 < r < 8,
                    p < r,
            ;
        } else {
            let b = s[i - 1];
            let q = (8 + p - r) as u8;
            assert((j - r) / 8 == i - 1 && (j - r) % 8 == q);
            assert(((((a >> r) | (b << ((8 - r) as u8))) >> ((7 - p) as u8)) & 1 == 1) == ((b >> ((
            7 - q) as u8)) & 1 == 1)) by (bit_vector)
                requires
                    0 < r < 8,
                    p < r,
                    q == 8 + p - r,
            ;
        }
    }
}

/// A shift by no bits, or by any whole number of bytes, changes nothing.
pub proof fn lemma_shift_whole_bytes(s: Seq<u8>, k: nat)
    ensures
        shift_bytes(s, 0) == s,
        shift_bytes(s, 8 * k) == s,
{
    assert((8 * k) % 8 == 0);
}

} // verus!
