use bitcounts::bitacc::BitAccumulator;
use bitcounts::extract::{extract_all, extract_bit, element_from_be, ExtractionPipeline};

#[test]
fn accumulator_starts_empty() {
    let a = BitAccumulator::new();
    assert_eq!(a.current_bits(), 0);
    assert_eq!(a.bits(), 0);
    assert!(!a.is_complete());
}

#[test]
fn accumulator_packs_msb_first() {
    let mut a = BitAccumulator::new();
    for bit in [true, false, true, true, false, false, false, false] {
        a.push(bit);
    }
    assert!(a.is_complete());
    assert_eq!(a.bits(), 0b10110000);
}

#[test]
fn push_into_full_accumulator_is_noop() {
    let mut a = BitAccumulator::new();
    for _ in 0..8 {
        a.push(true);
    }
    assert!(a.is_complete());
    assert_eq!(a.bits(), 0xFF);
    a.push(false);
    assert_eq!(a.bits(), 0xFF);
    assert_eq!(a.current_bits(), 8);
}

#[test]
fn accumulator_clear_drops_bits() {
    let mut a = BitAccumulator::new();
    a.push(true);
    a.push(true);
    a.clear();
    assert_eq!(a.current_bits(), 0);
    assert_eq!(a.bits(), 0);
}

#[test]
fn accumulator_default_is_empty() {
    let a = BitAccumulator::default();
    assert_eq!(a.current_bits(), 0);
    assert_eq!(a.bits(), 0);
}

#[test]
fn bits_string_shows_pushed_bits_in_order() {
    let mut a = BitAccumulator::new();
    a.push(true);
    a.push(false);
    a.push(true);
    assert_eq!(a.bits_string(), "101");
}

#[test]
fn element_from_be_reads_high_byte_first() {
    assert_eq!(element_from_be(0x12, 0x34), 0x1234);
    assert_eq!(element_from_be(0x80, 0x00), 0x8000);
}

#[test]
fn extract_bit_msb_and_lsb() {
    assert!(extract_bit(0x8000, 0));
    assert!(!extract_bit(0x8000, 15));
    assert!(extract_bit(0x0001, 15));
    assert!(!extract_bit(0x0001, 0));
}

#[test]
fn pipeline_emits_every_eighth_element() {
    let mut p = ExtractionPipeline::new(0);
    for _ in 0..7 {
        assert_eq!(p.process(0x8000), None);
    }
    assert_eq!(p.process(0x8000), Some(0xFF));
    assert_eq!(p.process(0x0000), None);
}

#[test]
fn extract_eight_elements_bit_zero_gives_full_byte() {
    let mut input = Vec::new();
    for _ in 0..8 {
        input.push(0x80);
        input.push(0x00);
    }
    assert_eq!(extract_all(&input, 0), vec![0xFF]);
}

#[test]
fn extract_ninth_element_is_dropped() {
    let mut input = Vec::new();
    for _ in 0..9 {
        input.push(0x80);
        input.push(0x00);
    }
    assert_eq!(extract_all(&input, 0), vec![0xFF]);
}

#[test]
fn extract_trailing_odd_byte_is_never_consumed() {
    let mut input = Vec::new();
    for _ in 0..8 {
        input.push(0x80);
        input.push(0x00);
    }
    input.push(0xAB);
    assert_eq!(extract_all(&input, 0), vec![0xFF]);
}

#[test]
fn extract_alternating_bits_in_arrival_order() {
    // Elements alternate between bit 3 set and clear, so the packed byte
    // alternates from the most significant position down.
    let mut input = Vec::new();
    for i in 0..8 {
        let e: u16 = if i % 2 == 0 { 0x1000 } else { 0x0000 };
        input.push((e >> 8) as u8);
        input.push((e & 0xFF) as u8);
    }
    assert_eq!(extract_all(&input, 3), vec![0b10101010]);
}

#[test]
fn extract_empty_input_gives_empty_output() {
    assert_eq!(extract_all(&[], 5), Vec::<u8>::new());
}
