use vf2_boot::boot::{is_boot_hart, plic_enable_base, plic_enable_word};

#[test]
fn hart_one_initializes() {
    assert!(!is_boot_hart(0));
    assert!(is_boot_hart(1));
    assert!(!is_boot_hart(2));
    assert!(!is_boot_hart(4));
}

#[test]
fn plic_bases() {
    assert_eq!(plic_enable_base(0), 0x0C00_2000);
    assert_eq!(plic_enable_base(1), 0x0C00_2080);
    assert_eq!(plic_enable_base(2), 0x0C00_2080 + 100);
    assert_eq!(plic_enable_base(4), 0x0C00_2080 + 300);
}

#[test]
fn plic_words_clear_but_keep_reserved_bits() {
    assert_eq!(plic_enable_word(0, 0xFFFF_FFFF), 0);
    assert_eq!(plic_enable_word(3, 0x1234_5678), 0);
    assert_eq!(plic_enable_word(4, 0xFFFF_FFFF), 0xF800_0000);
    assert_eq!(plic_enable_word(4, 0x07FF_FFFF), 0);
}
