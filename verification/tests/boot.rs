use rustboot_hal::boot::{nonsecure_boot_vector, BootVector};
use rustboot_hal::RefinedUsize;

#[test]
fn nonsecure_entry_clears_thumb_bit() {
    assert_eq!(
        nonsecure_boot_vector(0x2000_8000, 0x0005_0201),
        BootVector { sp: 0x2000_8000, reset: 0x0005_0200 }
    );
    assert_eq!(nonsecure_boot_vector(1, 0x0005_0200).reset, 0x0005_0200);
    assert_eq!(nonsecure_boot_vector(1, u32::MAX).reset, u32::MAX - 1);
}

#[test]
fn refined_values() {
    assert_eq!(RefinedUsize::<10, 20, 0>::bounded_int(10).value(), 10);
    assert_eq!(RefinedUsize::<10, 20, 0>::bounded_int(20).value(), 20);
    assert_eq!(RefinedUsize::<0, 0, 7>::single_valued_int(7).value(), 7);
}
