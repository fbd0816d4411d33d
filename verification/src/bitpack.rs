//! The bit packer: sample bits go in one at a time, whole bytes come out.

use vstd::prelude::*;
use crate::opts::BitOrder;

verus! {

/// A bit as the number 0 or 1.
pub open spec fn bit_value(b: bool) -> u8 {
    if b {
        1u8
    } else {
        0u8
    }
}

/// Bit `i` of `v`; bit 0 is the least significant.
pub open spec fn bit_at(v: u8, i: u8) -> bool {
    (v >> i) & 1 == 1
}

/// The bits that one sample contributes at width `w`: bit `w - 1` first,
/// bit 0 last.
pub open spec fn sample_bits(v: u8, w: nat) -> Seq<bool> {
    Seq::new(w, |i: int| bit_at(v, (w - 1 - i) as u8))
}

/// How many of the bits below position `k` are set in `m`.
pub open spec fn popcount_below(m: u8, k: nat) -> nat
    decreases k,
{
    if k == 0 {
        0
    } else {
        popcount_below(m, (k - 1) as nat) + bit_value(bit_at(m, (k - 1) as u8)) as nat
    }
}

/// The number of set bits of `m`.
pub open spec fn popcount(m: u8) -> nat {
    popcount_below(m, 8)
}

/// The width that a requested bit count stands for: up to 8 it is the width
/// itself; above, its low byte is a mask and the width is the number of set
/// bits in it.
pub open spec fn effective_width(nb: u16) -> nat {
    if nb <= 8 {
        nb as nat
    } else {
        popcount((nb % 256) as u8)
    }
}

/// A literal width as the packer takes it: the low byte of `nb`, at most 8.
pub open spec fn clamp_width(nb: u16) -> nat {
    if nb % 256 > 8 {
        8
    } else {
        (nb % 256) as nat
    }
}

/// The byte in progress after one more bit, `n` bits having been placed
/// before. With `Lsb` the new bit is shifted in from the right, so the first
/// bit ends up most significant; with `Msb` the new bit takes position `n`.
pub open spec fn place_bit(cur: u8, n: u8, b: bool, order: BitOrder) -> u8 {
    match order {
        BitOrder::Lsb => (cur << 1u8) | bit_value(b),
        BitOrder::Msb => cur | (bit_value(b) << n),
    }
}

/// The byte that a run of at most 8 bits accumulates to.
pub open spec fn accumulate(bits: Seq<bool>, order: BitOrder) -> u8
    decreases bits.len(),
{
    if bits.len() == 0 {
        0
    } else {
        place_bit(
            accumulate(bits.drop_last(), order),
            (bits.len() - 1) as u8,
            bits.last(),
            order,
        )
    }
}

/// The bytes that a bit stream packs to. Bits beyond the last full byte are
/// dropped.
pub open spec fn pack(bits: Seq<bool>, order: BitOrder) -> Seq<u8> {
    Seq::new(bits.len() / 8, |k: int| accumulate(bits.subrange(8 * k, 8 * k + 8), order))
}

/// The sample with its bits in opposite order.
pub open spec fn reverse_bits(v: u8) -> u8 {
    ((v & 0x01) << 7u8) | ((v & 0x02) << 5u8) | ((v & 0x04) << 3u8) | ((v & 0x08) << 1u8) | ((v
        & 0x10) >> 1u8) | ((v & 0x20) >> 3u8) | ((v & 0x40) >> 5u8) | ((v & 0x80) >> 7u8)
}

/// What the eight bits of a full-byte sample accumulate to.
proof fn lemma_accumulate_byte(v: u8, order: BitOrder)
    ensures
        accumulate(sample_bits(v, 8), order) == match order {
            BitOrder::Lsb => v,
            BitOrder::Msb => reverse_bits(v),
        },
{
    let s = sample_bits(v, 8);
    let b0 = bit_value(bit_at(v, 7));
    let b1 = bit_value(bit_at(v, 6));
    let b2 = bit_value(bit_at(v, 5));
    let b3 = bit_value(bit_at(v, 4));
    let b4 = bit_value(bit_at(v, 3));
    let b5 = bit_value(bit_at(v, 2));
    let b6 = bit_value(bit_at(v, 1));
    let b7 = bit_value(bit_at(v, 0));
    let a0 = accumulate(s.take(0), order);
    let a1 = accumulate(s.take(1), order);
    let a2 = accumulate(s.take(2), order);
    let a3 = accumulate(s.take(3), order);
    let a4 = accumulate(s.take(4), order);
    let a5 = accumulate(s.take(5), order);
    let a6 = accumulate(s.take(6), order);
    let a7 = accumulate(s.take(7), order);
    let a8 = accumulate(s.take(8), order);
    assert(s.take(8) =~= s);
    assert(s.take(1).drop_last() =~= s.take(0));
    assert(s.take(2).drop_last() =~= s.take(1));
    assert(s.take(3).drop_last() =~= s.take(2));
    assert(s.take(4).drop_last() =~= s.take(3));
    assert(s.take(5).drop_last() =~= s.take(4));
    assert(s.take(6).drop_last() =~= s.take(5));
    assert(s.take(7).drop_last() =~= s.take(6));
    assert(s.take(8).drop_last() =~= s.take(7));
    assert(a0 == 0);
    assert(a1 == place_bit(a0, 0, bit_at(v, 7), order));
    assert(a2 == place_bit(a1, 1, bit_at(v, 6), order));
    assert(a3 == place_bit(a2, 2, bit_at(v, 5), order));
    assert(a4 == place_bit(a3, 3, bit_at(v, 4), order));
    assert(a5 == place_bit(a4, 4, bit_at(v, 3), order));
    assert(a6 == place_bit(a5, 5, bit_at(v, 2), order));
    assert(a7 == place_bit(a6, 6, bit_at(v, 1), order));
    assert(a8 == place_bit(a7, 7, bit_at(v, 0), order));
    assert(b0 == (v >> 7u8) & 1 && b1 == (v >> 6u8) & 1 && b2 == (v >> 5u8) & 1 && b3 == (v
        >> 4u8) & 1 && b4 == (v >> 3u8) & 1 && b5 == (v >> 2u8) & 1 && b6 == (v >> 1u8) & 1
        && b7 == (v >> 0u8) & 1) by (bit_vector)
        requires
            b0 == if (v >> 7u8) & 1 == 1 { 1u8 } else { 0u8 },
            b1 == if (v >> 6u8) & 1 == 1 { 1u8 } else { 0u8 },
            b2 == if (v >> 5u8) & 1 == 1 { 1u8 } else { 0u8 },
            b3 == if (v >> 4u8) & 1 == 1 { 1u8 } else { 0u8 },
            b4 == if (v >> 3u8) & 1 == 1 { 1u8 } else { 0u8 },
            b5 == if (v >> 2u8) & 1 == 1 { 1u8 } else { 0u8 },
            b6 == if (v >> 1u8) & 1 == 1 { 1u8 } else { 0u8 },
            b7 == if (v >> 0u8) & 1 == 1 { 1u8 } else { 0u8 },
    ;
    match order {
        BitOrder::Lsb => {
            assert(a8 == v) by (bit_vector)
                requires
                    a1 == (0u8 << 1u8) | ((v >> 7u8) & 1),
                    a2 == (a1 << 1u8) | ((v >> 6u8) & 1),
                    a3 == (a2 << 1u8) | ((v >> 5u8) & 1),
                    a4 == (a3 << 1u8) | ((v >> 4u8) & 1),
                    a5 == (a4 << 1u8) | ((v >> 3u8) & 1),
                    a6 == (a5 << 1u8) | ((v >> 2u8) & 1),
                    a7 == (a6 << 1u8) | ((v >> 1u8) & 1),
                    a8 == (a7 << 1u8) | ((v >> 0u8) & 1),
            ;
        },
        BitOrder::Msb => {
            let r = reverse_bits(v);
            assert(a8 == r) by (bit_vector)
                requires
                    a1 == 0u8 | (((v >> 7u8) & 1) << 0u8),
                    a2 == a1 | (((v >> 6u8) & 1) << 1u8),
                    a3 == a2 | (((v >> 5u8) & 1) << 2u8),
                    a4 == a3 | (((v >> 4u8) & 1) << 3u8),
                    a5 == a4 | (((v >> 3u8) & 1) << 4u8),
                    a6 == a5 | (((v >> 2u8) & 1) << 5u8),
                    a7 == a6 | (((v >> 1u8) & 1) << 6u8),
                    a8 == a7 | (((v >> 0u8) & 1) << 7u8),
                    r == ((v & 0x01) << 7u8) | ((v & 0x02) << 5u8) | ((v & 0x04) << 3u8) | ((v
                        & 0x08) << 1u8) | ((v & 0x10) >> 1u8) | ((v & 0x20) >> 3u8) | ((v
                        & 0x40) >> 5u8) | ((v & 0x80) >> 7u8),
            ;
        },
    }
}

/// A full byte is packed to one byte that holds the same eight bits: under
/// `Lsb` in their own order, so the byte is the sample; under `Msb` in
/// opposite order. Packing that byte once more under the same order gives
/// the sample back.
pub proof fn lemma_full_byte(v: u8, order: BitOrder)
    ensures
        pack(sample_bits(v, 8), BitOrder::Lsb) == seq![v],
        pack(sample_bits(v, 8), BitOrder::Msb) == seq![reverse_bits(v)],
        forall|i: u8| i < 8 ==> bit_at(reverse_bits(v), i) == bit_at(v, (7 - i) as u8),
        reverse_bits(reverse_bits(v)) == v,
        pack(sample_bits(pack(sample_bits(v, 8), order)[0], 8), order) == seq![v],
{
    let s = sample_bits(v, 8);
    assert(s.subrange(0, 8) =~= s);
    lemma_accumulate_byte(v, BitOrder::Lsb);
    lemma_accumulate_byte(v, BitOrder::Msb);
    assert(pack(s, BitOrder::Lsb) =~= seq![v]);
    assert(pack(s, BitOrder::Msb) =~= seq![reverse_bits(v)]);
    let r = reverse_bits(v);
    assert(reverse_bits(r) == v) by (bit_vector)
        requires
            r == reverse_bits(v),
    ;
    assert forall|i: u8| i < 8 implies bit_at(reverse_bits(v), i) == bit_at(v, (7 - i) as u8) by {
        let j = (7 - i) as u8;
        assert(((r >> i) & 1 == 1) == ((v >> j) & 1 == 1)) by (bit_vector)
            requires
                r == reverse_bits(v),
                i < 8,
                j == 7 - i,
        ;
    }
    let w = pack(s, order)[0];
    let s2 = sample_bits(w, 8);
    assert(s2.subrange(0, 8) =~= s2);
    lemma_accumulate_byte(w, order);
    assert(pack(s2, order) =~= seq![v]);
}

/// Accumulates bits into bytes under a fixed bit order.
pub struct BitPacker {
    out: Vec<u8>,
    cur: u8,
    cur_bits: u8,
    order: BitOrder,
    bits: Ghost<Seq<bool>>,
}

impl BitPacker {
    /// The finished bytes and the byte in progress are what the stream packs to.
    pub closed spec fn wf(&self) -> bool {
        let n = self.bits@.len();
        &&& self.cur_bits < 8
        &&& self.cur_bits == n % 8
        &&& self.out@ == pack(self.bits@, self.order)
        &&& self.cur == accumulate(self.bits@.subrange(8 * (n as int / 8), n as int), self.order)
    }

    /// Every bit pushed so far, in order.
    pub closed spec fn stream(&self) -> Seq<bool> {
        self.bits@
    }

    /// The bit order that the packer was made with.
    pub closed spec fn order(&self) -> BitOrder {
        self.order
    }

    /// An empty packer.
    pub fn new(order: BitOrder) -> (p: Self)
        ensures
            p.wf(),
            p.order() == order,
            p.stream() == Seq::<bool>::empty(),
    {
        let p = BitPacker { out: Vec::new(), cur: 0, cur_bits: 0, order, bits: Ghost(Seq::empty()) };
        assert(p.bits@.subrange(0, 0) =~= Seq::<bool>::empty());
        assert(p.out@ =~= pack(p.bits@, order));
        p
    }

    /// The number of finished bytes.
    pub fn len(&self) -> (n: usize)
        requires
            self.wf(),
        ensures
            n == self.stream().len() / 8,
    {
        self.out.len()
    }

    /// The finished bytes; an unfinished byte is dropped.
    pub fn into_bytes(self) -> (out: Vec<u8>)
        requires
            self.wf(),
        ensures
            out@ == pack(self.stream(), self.order()),
    {
        self.out
    }

    /// Places one bit.
    pub fn push_bit(&mut self, bit: u8)
        requires
            old(self).wf(),
            bit <= 1,
        ensures
            final(self).wf(),
            final(self).order() == old(self).order(),
            final(self).stream() == old(self).stream().push(bit == 1),
    {
        let ghost old_bits = self.bits@;
        let ghost b = bit == 1;
        let ghost q = (old_bits.len() / 8) as int;
        let ghost tail = old_bits.subrange(8 * q, old_bits.len() as int);
        let ghost new_bits = old_bits.push(b);
        let ghost new_tail = new_bits.subrange(8 * q, new_bits.len() as int);
        let ghost order = self.order;
        proof {
            assert(new_tail.drop_last() =~= tail);
            assert(new_tail.last() == b);
            assert(bit == bit_value(b));
            assert(accumulate(new_tail, order) == place_bit(
                self.cur,
                self.cur_bits,
                b,
                order,
            ));
        }
        match self.order {
            BitOrder::Lsb => {
                self.cur = (self.cur << 1u8) | bit;
            },
            BitOrder::Msb => {
                self.cur = self.cur | (bit << self.cur_bits);
            },
        }
        self.cur_bits = self.cur_bits + 1;
        self.bits = Ghost(new_bits);
        assert(self.cur == accumulate(new_tail, order));
        assert forall|k: int| 0 <= k < q implies #[trigger] new_bits.subrange(8 * k, 8 * k + 8)
            == old_bits.subrange(8 * k, 8 * k + 8) by {
            assert(new_bits.subrange(8 * k, 8 * k + 8) =~= old_bits.subrange(8 * k, 8 * k + 8));
        }
        if self.cur_bits >= 8 {
            self.out.push(self.cur);
            self.cur = 0;
            self.cur_bits = 0;
            proof {
                assert(new_bits.len() == 8 * q + 8);
                assert(new_tail == new_bits.subrange(8 * q, 8 * q + 8));
                assert(new_bits.subrange(8 * (q + 1), new_bits.len() as int) =~= Seq::<
                    bool,
                >::empty());
                assert(self.out@ =~= pack(new_bits, order));
            }
        } else {
            proof {
                assert(new_bits.len() / 8 == q);
                assert(self.out@ =~= pack(new_bits, order));
            }
        }
    }
}

/// Feeds the low `clamp_width(nb)` bits of `v` to the packer, the most
/// significant of them first.
pub fn push_nbits(p: &mut BitPacker, v: u8, nb: u16)
    requires
        old(p).wf(),
    ensures
        final(p).wf(),
        final(p).order() == old(p).order(),
        final(p).stream() == old(p).stream() + sample_bits(v, clamp_width(nb)),
{
    let t: u16 = nb % 256;
    let w: u8 = if t > 8 {
        8
    } else {
        t as u8
    };
    let ghost bits = sample_bits(v, w as nat);
    let mut i: u8 = w;
    assert(bits.take(0) =~= Seq::<bool>::empty());
    assert(old(p).stream() + Seq::<bool>::empty() =~= old(p).stream());
    while i > 0
        invariant
            i <= w <= 8,
            p.wf(),
            p.order() == old(p).order(),
            bits == sample_bits(v, w as nat),
            p.stream() == old(p).stream() + bits.take(w - i),
        decreases i,
    {
        i = i - 1;
        let bit = (v >> i) & 1;
        assert(bit <= 1) by (bit_vector)
            requires
                bit == (v >> i) & 1,
        ;
        p.push_bit(bit);
        proof {
            let k = (w - 1 - i) as int;
            assert(bits[k] == bit_at(v, i));
            assert(bits.take(k + 1) =~= bits.take(k).push(bits[k]));
            assert(p.stream() =~= old(p).stream() + bits.take(k + 1));
        }
    }
    assert(bits.take(w as int) =~= bits);
}

/// The number of set bits of `m`.
pub fn count_bits(m: u8) -> (c: u8)
    ensures
        c == popcount(m),
        c <= 8,
{
    let mut c: u8 = 0;
    let mut i: u8 = 0;
    while i < 8
        invariant
            i <= 8,
            c == popcount_below(m, i as nat),
            c <= i,
        decreases 8 - i,
    {
        if (m >> i) & 1 == 1 {
            c = c + 1;
        }
        i = i + 1;
    }
    c
}

/// What a sample contributes under a list of requested widths: its bits at
/// each width in turn.
pub open spec fn widths_bits(v: u8, widths: Seq<u16>) -> Seq<bool>
    decreases widths.len(),
{
    if widths.len() == 0 {
        Seq::empty()
    } else {
        widths_bits(v, widths.drop_last()) + sample_bits(v, effective_width(widths.last()))
    }
}

/// Feeds `v` to the packer once per requested width.
pub fn push_bits(p: &mut BitPacker, v: u8, bits: &Vec<u16>)
    requires
        old(p).wf(),
    ensures
        final(p).wf(),
        final(p).order() == old(p).order(),
        final(p).stream() == old(p).stream() + widths_bits(v, bits@),
{
    let mut j: usize = 0;
    assert(bits@.take(0) =~= Seq::<u16>::empty());
    assert(old(p).stream() + Seq::<bool>::empty() =~= old(p).stream());
    while j < bits.len()
        invariant
            j <= bits.len(),
            p.wf(),
            p.order() == old(p).order(),
            p.stream() == old(p).stream() + widths_bits(v, bits@.take(j as int)),
        decreases bits.len() - j,
    {
        let nb = bits[j];
        let w: u16 = if nb <= 8 {
            nb
        } else {
            count_bits((nb % 256) as u8) as u16
        };
        assert(w == effective_width(nb) && w <= 8);
        push_nbits(p, v, w);
        proof {
            let next = bits@.take(j + 1);
            assert(next.drop_last() =~= bits@.take(j as int));
            assert(next.last() == nb);
            assert(clamp_width(w) == effective_width(nb));
            assert(p.stream() =~= old(p).stream() + widths_bits(v, next));
        }
        j = j + 1;
    }
    assert(bits@.take(bits.len() as int) =~= bits@);
}

} // verus!
