use zsteg::bitpack::{count_bits, push_bits, push_nbits, BitPacker};
use zsteg::opts::BitOrder;

fn pack(order: BitOrder, samples: &[(u8, u16)]) -> Vec<u8> {
    let mut p = BitPacker::new(order);
    for &(v, nb) in samples {
        push_nbits(&mut p, v, nb);
    }
    p.into_bytes()
}

#[test]
fn full_byte_lsb_is_the_sample() {
    for v in 0..=255u8 {
        assert_eq!(pack(BitOrder::Lsb, &[(v, 8)]), vec![v]);
    }
}

#[test]
fn full_byte_msb_is_the_sample_reversed() {
    assert_eq!(pack(BitOrder::Msb, &[(0xB4, 8)]), vec![0x2D]);
    assert_eq!(pack(BitOrder::Msb, &[(0x01, 8)]), vec![0x80]);
    for v in 0..=255u8 {
        assert_eq!(pack(BitOrder::Msb, &[(v, 8)]), vec![v.reverse_bits()]);
    }
}

#[test]
fn repacking_with_the_same_order_gives_the_sample_back() {
    for v in 0..=255u8 {
        for order in [BitOrder::Lsb, BitOrder::Msb] {
            let once = pack(order, &[(v, 8)]);
            let twice = pack(order, &[(once[0], 8)]);
            assert_eq!(twice, vec![v]);
        }
    }
}

#[test]
fn single_bits_accumulate_in_the_chosen_order() {
    let bits = [(1u8, 1u16), (0, 1), (1, 1), (1, 1), (0, 1), (0, 1), (1, 1), (0, 1)];
    assert_eq!(pack(BitOrder::Lsb, &bits), vec![0xB2]);
    assert_eq!(pack(BitOrder::Msb, &bits), vec![0x4D]);
}

#[test]
fn only_the_low_bits_of_a_sample_count() {
    // Width 2 of 0xFE takes the bits 1 and 0, the higher one first.
    let samples = [(0xFEu8, 2u16), (0xFE, 2), (0xFE, 2), (0xFE, 2)];
    assert_eq!(pack(BitOrder::Lsb, &samples), vec![0xAA]);
    assert_eq!(pack(BitOrder::Msb, &samples), vec![0x55]);
}

#[test]
fn trailing_bits_are_dropped() {
    assert_eq!(pack(BitOrder::Lsb, &[(0xFF, 3)]), Vec::<u8>::new());
    assert_eq!(pack(BitOrder::Lsb, &[(0xFF, 8), (0xFF, 7)]), vec![0xFF]);
    let p = BitPacker::new(BitOrder::Msb);
    assert_eq!(p.len(), 0);
}

#[test]
fn width_zero_adds_nothing() {
    assert_eq!(pack(BitOrder::Lsb, &[(0xFF, 0), (0x81, 8)]), vec![0x81]);
}

#[test]
fn a_literal_width_above_eight_is_capped() {
    assert_eq!(pack(BitOrder::Lsb, &[(0x5A, 9)]), vec![0x5A]);
}

#[test]
fn a_mask_stands_for_as_many_bits_as_it_has_set() {
    assert_eq!(count_bits(0x88), 2);
    assert_eq!(count_bits(0x00), 0);
    assert_eq!(count_bits(0xFF), 8);
    let mut p = BitPacker::new(BitOrder::Lsb);
    for _ in 0..4 {
        push_bits(&mut p, 0x03, &vec![0x188]);
    }
    assert_eq!(p.into_bytes(), vec![0xFF]);
}

#[test]
fn every_requested_width_is_fed_in_turn() {
    let mut p = BitPacker::new(BitOrder::Lsb);
    // 0b101 at width 3, then at width 1, twice: 1011 1011.
    push_bits(&mut p, 0x05, &vec![3, 1]);
    push_bits(&mut p, 0x05, &vec![3, 1]);
    assert_eq!(p.into_bytes(), vec![0xBB]);
}

#[test]
fn bits_are_placed_one_by_one() {
    let mut p = BitPacker::new(BitOrder::Lsb);
    for bit in [1u8, 1, 0, 0, 0, 0, 0, 1] {
        p.push_bit(bit);
    }
    assert_eq!(p.len(), 1);
    p.push_bit(1);
    assert_eq!(p.into_bytes(), vec![0xC1]);
}
