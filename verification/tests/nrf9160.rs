use rustboot_hal::nrf9160::{erase_pages, preboot, FLASH_PAGE_SIZE, FW_RESET_VTR};

#[test]
fn erase_whole_pages() {
    assert_eq!(erase_pages(0x40000, 0x3000), vec![0x40000, 0x41000, 0x42000]);
}

#[test]
fn erase_from_inside_a_page_starts_at_its_start() {
    assert_eq!(erase_pages(0x40800, 0x1000), vec![0x40000, 0x41000]);
    assert_eq!(erase_pages(0x40800, 0x100), vec![0x40000]);
}

#[test]
fn erase_ends_at_the_page_holding_the_last_byte() {
    assert_eq!(erase_pages(0x40000, 0x1800), vec![0x40000, 0x41000]);
    assert_eq!(erase_pages(0x40000, 0x800), vec![0x40000]);
    assert_eq!(erase_pages(0x1000, 0x800), vec![0x1000]);
    assert_eq!(erase_pages(0x40FFF, 2), vec![0x40000, 0x41000]);
    assert_eq!(erase_pages(0x40000, 0), Vec::<u32>::new());
    assert_eq!(erase_pages(0x40800, 0), Vec::<u32>::new());
}

#[test]
fn erase_reaches_the_top_of_the_address_space() {
    assert_eq!(erase_pages(0xFFFF_F000, 0xFFF), vec![0xFFFF_F000]);
}

#[test]
fn erase_covers_exactly_the_page_range() {
    for (addr, len) in [(0x1234u32, 0x5678u32), (0x1000, 0x1000), (0xFFF, 0x2), (0, 0x10000)] {
        let pages = erase_pages(addr, len);
        let lo = addr / FLASH_PAGE_SIZE * FLASH_PAGE_SIZE;
        let hi = ((addr + len - 1) / FLASH_PAGE_SIZE + 1) * FLASH_PAGE_SIZE;
        for a in (lo.saturating_sub(0x2000))..(hi + 0x2000) {
            let erased = pages.iter().any(|p| *p <= a && a < p + FLASH_PAGE_SIZE);
            assert_eq!(erased, lo <= a && a < hi);
            if addr <= a && a < addr + len {
                assert!(erased);
            }
        }
    }
}

#[test]
fn reset_vector_constant() {
    assert_eq!(FW_RESET_VTR, 0x40201);
    preboot();
}
