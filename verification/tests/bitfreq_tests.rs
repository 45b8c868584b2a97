use bitcounts::bitfreq::BitFrequency;

#[test]
fn new_counter_is_empty() {
    let c = BitFrequency::new(3);
    assert_eq!(c.count(), 0);
    assert_eq!(c.n_bytes(), 3);
    assert_eq!(c.bit_freq(), &[0u32; 24][..]);
}

#[test]
fn default_counter_uses_single_byte_blocks() {
    let c = BitFrequency::default();
    assert_eq!(c.n_bytes(), 1);
    assert_eq!(c.count(), 0);
    assert_eq!(c.bit_freq().len(), 8);
}

#[test]
fn zero_blocks_keep_counts_zero() {
    let mut c = BitFrequency::new(2);
    for _ in 0..5 {
        c.update(&[0x00, 0x00]);
    }
    assert_eq!(c.count(), 5);
    assert!(c.bit_freq().iter().all(|&v| v == 0));
}

#[test]
fn ones_blocks_count_every_update() {
    let mut c = BitFrequency::new(2);
    for _ in 0..3 {
        c.update(&[0xFF, 0xFF]);
    }
    assert_eq!(c.count(), 3);
    assert!(c.bit_freq().iter().all(|&v| v == 3));
}

#[test]
fn update_counts_set_bits_per_position() {
    let mut c = BitFrequency::new(2);
    c.update(&[0b10110000, 0b00000001]);
    assert_eq!(
        c.bit_freq(),
        &[1, 0, 1, 1, 0, 0, 0, 0, 0, 0, 0, 0, 0, 0, 0, 1][..]
    );
    assert_eq!(c.count(), 1);
}

#[test]
fn update_then_clear_resets() {
    let mut c = BitFrequency::new(2);
    c.update(&[0xAB, 0xCD]);
    c.update(&[0x12, 0x34]);
    c.update(&[0xFF, 0x00]);
    c.clear();
    assert_eq!(c.count(), 0);
    assert_eq!(c.n_bytes(), 2);
    assert_eq!(c.bit_freq(), &[0u32; 16][..]);
}

#[test]
fn render_single_byte_default_separators() {
    let mut c = BitFrequency::new(1);
    c.update(&[0b10110000]);
    assert_eq!(c.count_string("\t", "\t"), "1\t0\t1\t1\t0\t0\t0\t0");
}

#[test]
fn render_two_byte_blocks_with_distinct_separators() {
    let mut c = BitFrequency::new(2);
    c.update(&[0b10000000, 0b00000001]);
    c.update(&[0b10000000, 0b00000001]);
    assert_eq!(
        c.count_string(" ", ","),
        "2 0 0 0 0 0 0 0,0 0 0 0 0 0 0 2"
    );
}

#[test]
fn render_multi_digit_counts() {
    let mut c = BitFrequency::new(1);
    for _ in 0..12 {
        c.update(&[0b11000000]);
    }
    assert_eq!(c.count_string("\t", "\t"), "12\t12\t0\t0\t0\t0\t0\t0");
}

#[test]
fn zero_block_size_is_degenerate_but_usable() {
    let mut c = BitFrequency::new(0);
    c.update(&[]);
    c.update(&[]);
    assert_eq!(c.count(), 2);
    assert_eq!(c.bit_freq().len(), 0);
    assert_eq!(c.count_string("\t", "\t"), "");
}
