use a11y_monitor::codec::{decode, decode_from, VIRTUAL_MOD_START};

#[test]
fn decode_splits_real_and_virtual_bits() {
    // Low bits carry the real modifier mask, bits from VIRTUAL_MOD_START on
    // select entries of the declared virtual-modifier list by index.
    let syms: Vec<u32> = vec![100, 200, 300];
    let raw: u32 = 0b101 | (1 << 15) | (1 << 17);
    let grab = decode(&syms, 42, raw);
    assert_eq!(grab.key, 42);
    assert_eq!(grab.mods, 0b101);
    assert_eq!(grab.virtual_mods, vec![100, 300]);
}

#[test]
fn decode_real_mask_is_low_fifteen_bits() {
    assert_eq!(VIRTUAL_MOD_START, 15);
    let syms: Vec<u32> = vec![];
    let raw: u32 = 0xffff_ffff;
    let grab = decode(&syms, 1, raw);
    assert_eq!(grab.mods, 0x7fff);
    assert!(grab.virtual_mods.is_empty());
}

#[test]
fn decode_bits_beyond_word_are_unobservable() {
    // 20 declared symbols, every bit of the word set: only the indices whose
    // bit position stays below 32 (17 of them, 15 + 16 = 31) are selected.
    let syms: Vec<u32> = (0..20).collect();
    let grab = decode(&syms, 7, 0xffff_ffff);
    assert_eq!(grab.virtual_mods, (0..17).collect::<Vec<u32>>());
}

#[test]
fn decode_no_virtual_bits_selects_nothing() {
    let syms: Vec<u32> = vec![9, 8, 7];
    let grab = decode(&syms, 3, 0x13);
    assert_eq!(grab.mods, 0x13);
    assert!(grab.virtual_mods.is_empty());
}

#[test]
fn decode_from_other_start_bit() {
    // The split holds for any start bit: with the boundary at 2, the low
    // two bits are real and bit 2 selects the first symbol.
    let syms: Vec<u32> = vec![100, 200];
    let grab = decode_from(&syms, 5, 0b111, 2);
    assert_eq!(grab.mods, 0b11);
    assert_eq!(grab.virtual_mods, vec![100]);
    let grab = decode_from(&syms, 5, 0b1011, 2);
    assert_eq!(grab.mods, 0b11);
    assert_eq!(grab.virtual_mods, vec![200]);
}
