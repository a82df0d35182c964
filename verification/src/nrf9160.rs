//! The nRF9160: its memory-layout constants and the pages an erase touches.
use vstd::prelude::*;
pub use crate::refined::RefinedUsize;

verus! {

/// Size of one flash page, the unit of erasing.
pub const FLASH_PAGE_SIZE: u32 = 4096;
/// Lowest address a firmware stack pointer may hold.
pub const STACK_LOW: u32 = 0x20_000_000;
/// Highest address a firmware stack pointer may hold.
pub const STACK_UP: u32 = 0x20_040_000;
/// Size of the image header that precedes a firmware's vector table.
pub const RB_HDR_SIZE: u32 = 0x100;
/// Flash address of the boot partition.
pub const BASE_ADDR: u32 = 0x40000;
/// Size of the vector table.
pub const VTR_TABLE_SIZE: u32 = 0x100;
/// The reset vector a firmware image is expected to carry.
pub const FW_RESET_VTR: u32 = BASE_ADDR + RB_HDR_SIZE + VTR_TABLE_SIZE + 1;

/// Nothing needs preparing on this board before booting.
pub fn preboot() {
}

/// Whether flash byte `a` lies in one of the pages whose start addresses
/// are `pages`.
pub open spec fn erased_by(pages: Seq<u32>, a: int) -> bool {
    exists|k: int| 0 <= k < pages.len() && #[trigger] pages[k] <= a < pages[k] + FLASH_PAGE_SIZE
}

/// One past the last page an erase of `len` bytes at `addr` touches: the
/// page after the one holding `addr + len - 1`, or the page holding `addr`
/// when nothing is to be erased.
pub open spec fn end_page(addr: u32, len: u32) -> int {
    if len == 0 {
        addr as int / 4096
    } else {
        (addr + len - 1) as int / 4096 + 1
    }
}

/// The start addresses of the pages an erase of `len` bytes at `addr`
/// clears: every page that holds a byte of `addr .. addr + len`, in
/// increasing order.
pub open spec fn page_starts(addr: u32, len: u32) -> Seq<u32> {
    Seq::new(
        (end_page(addr, len) - addr as int / 4096) as nat,
        |k: int| ((addr as int / 4096 + k) * 4096) as u32,
    )
}

/// The start addresses of the pages to erase for an erase of `len` bytes at
/// `addr` (see `page_starts`).
pub fn erase_pages(addr: u32, len: u32) -> (pages: Vec<u32>)
    requires
        addr + len <= u32::MAX,
    ensures
        pages@ == page_starts(addr, len),
{
    let starting_page: u32 = addr / FLASH_PAGE_SIZE;
    let ending_page: u32 = if len == 0 { starting_page } else { (addr + len - 1) / FLASH_PAGE_SIZE + 1 };
    let mut pages: Vec<u32> = Vec::new();
    let mut page: u32 = starting_page;
    while page < ending_page
        invariant
            starting_page == addr as int / 4096,
            ending_page == end_page(addr, len),
            starting_page <= page <= ending_page,
            ending_page <= 0x10_0000,
            pages.len() == page - starting_page,
            forall|k: int| 0 <= k < pages.len() ==> #[trigger] pages[k] == (starting_page + k) * 4096,
        decreases ending_page - page,
    {
        pages.push(page * FLASH_PAGE_SIZE);
        page = page + 1;
    }
    assert(pages@ =~= page_starts(addr, len));
    pages
}

/// The pages `erase_pages` returns clear exactly the bytes from the start of
/// the page holding `addr` to the end of the page holding `addr + len - 1`
/// (nothing when `len` is 0): every byte of `addr .. addr + len` is erased,
/// and any other byte erased with them lies in the first or the last of
/// those pages.
pub proof fn lemma_erase_pages_cover(addr: u32, len: u32, a: int)
    requires
        addr + len <= u32::MAX,
    ensures
        erased_by(page_starts(addr, len), a)
            <==> len > 0 && (addr as int / 4096) * 4096 <= a < end_page(addr, len) * 4096,
        addr <= a < addr + len ==> erased_by(page_starts(addr, len), a),
        erased_by(page_starts(addr, len), a) && !(addr <= a < addr + len)
            ==> a / 4096 == addr as int / 4096 || a / 4096 == (addr + len - 1) as int / 4096,
{
    let pages = page_starts(addr, len);
    let lo = addr as int / 4096;
    let hi = end_page(addr, len);
    assert(lo <= hi);
    assert(hi * 4096 <= 0x1_0000_0000);
    assert forall|k: int| 0 <= k < pages.len() implies #[trigger] pages[k] == (lo + k) * 4096 by {
        assert((lo + k) * 4096 < 0x1_0000_0000) by (nonlinear_arith)
            requires
                lo + k < hi,
                0 <= k,
                0 <= lo,
                hi * 4096 <= 0x1_0000_0000;
    }
    if erased_by(pages, a) {
        let k = choose|k: int| 0 <= k < pages.len() && #[trigger] pages[k] <= a < pages[k] + FLASH_PAGE_SIZE;
        assert(pages[k] == (lo + k) * 4096);
        assert((lo + k) * 4096 == lo * 4096 + k * 4096);
        assert((lo + k + 1) * 4096 == hi * 4096 - (pages.len() - k - 1) * 4096);
        assert((pages.len() - k - 1) * 4096 >= 0) by (nonlinear_arith)
            requires pages.len() - k - 1 >= 0;
        assert(k * 4096 >= 0) by (nonlinear_arith)
            requires k >= 0;
        assert(len > 0);
    }
    if len > 0 && lo * 4096 <= a < hi * 4096 {
        let k = a / 4096 - lo;
        assert(lo <= a / 4096);
        assert(a / 4096 < hi);
        assert(0 <= k < pages.len());
        assert(pages[k] == (a / 4096) * 4096);
        assert(pages[k] <= a < pages[k] + FLASH_PAGE_SIZE);
    }
    if addr <= a < addr + len {
        assert(lo * 4096 <= addr);
        assert(a <= (addr + len - 1) as int);
        assert(a / 4096 <= (addr + len - 1) as int / 4096);
        assert(a < hi * 4096);
    }
    if erased_by(pages, a) && !(addr <= a < addr + len) {
        assert(lo * 4096 <= a < hi * 4096);
        if a < addr {
            assert(a / 4096 >= lo);
            assert(a / 4096 <= lo);
        } else {
            assert(a >= (addr + len) as int);
            assert(a / 4096 >= (addr + len - 1) as int / 4096);
            assert(a / 4096 < hi);
        }
    }
}

} // verus!
