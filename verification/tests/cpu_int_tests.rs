use esp_drivers::cpu_int::{chip_ints_off, chip_ints_on, isr_number_supported, mask_lines, BitIter};

#[test]
fn bit_iter_yields_lowest_first_and_clears_it() {
    let mut it = BitIter(0b1010_0100);
    assert_eq!(it.next(), Some(2));
    assert_eq!(it.0, 0b1010_0000);
    assert_eq!(it.next(), Some(5));
    assert_eq!(it.next(), Some(7));
    assert_eq!(it.0, 0);
    assert_eq!(it.next(), None);
    assert_eq!(it.next(), None);
}

#[test]
fn mask_lines_lists_each_set_bit_once() {
    assert_eq!(mask_lines(0), Vec::<u32>::new());
    assert_eq!(mask_lines(1), vec![0]);
    assert_eq!(mask_lines(0x8000_0000), vec![31]);
    assert_eq!(mask_lines(0b110), vec![1, 2]);
    assert_eq!(mask_lines(u32::MAX), (0..32).collect::<Vec<u32>>());
}

#[test]
fn chip_ints_on_and_off_name_the_same_lines() {
    assert_eq!(chip_ints_on(0x0000_8003), vec![0, 1, 15]);
    assert_eq!(chip_ints_off(0x0000_8003), vec![0, 1, 15]);
}

#[test]
fn only_interrupt_numbers_zero_and_one_are_supported() {
    assert!(isr_number_supported(0));
    assert!(isr_number_supported(1));
    assert!(!isr_number_supported(2));
    assert!(!isr_number_supported(-1));
}
