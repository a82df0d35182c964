//! The STM32F469: its memory-layout constants, the flash sector map, and the
//! check a firmware's vector table must pass before it is booted.
use vstd::prelude::*;
use crate::boot::BootVector;
pub use crate::refined::RefinedUsize;

verus! {

/// Size of one of the large (128 KiB) flash sectors.
pub const FLASH_PAGE_SIZE: u32 = 131072;
/// Lowest address a firmware stack pointer may hold.
pub const STACK_LOW: u32 = 0x2000_0000;
/// Highest address a firmware stack pointer may hold.
pub const STACK_UP: u32 = 0x2002_0000;
/// Size of the image header that precedes a firmware's vector table.
pub const RB_HDR_SIZE: u32 = 0x100;
/// Flash address of the boot partition (start of sector 5).
pub const BASE_ADDR: u32 = 0x08020000;
/// Size of the vector table.
pub const VTR_TABLE_SIZE: u32 = 0x100;
/// The reset vector a firmware image is expected to carry.
pub const FW_RESET_VTR: u32 = BASE_ADDR + RB_HDR_SIZE + VTR_TABLE_SIZE + 0xb5;
/// First key of the flash unlock sequence.
pub const UNLOCKKEY1: u32 = 0x45670123;
/// Second key of the flash unlock sequence.
pub const UNLOCKKEY2: u32 = 0xCDEF89AB;
/// Program size field: byte parallelism.
pub const PSIZE_X8: u8 = 0b00;
/// Program size field: half-word parallelism.
pub const PSIZE_X16: u8 = 0b01;
/// Program size field: word parallelism.
pub const PSIZE_X32: u8 = 0b10;
/// Program size field: double-word parallelism.
pub const PSIZE_X64: u8 = 0b11;

/// Nothing needs preparing on this board before booting.
pub fn preboot() {
}

/// First address of the flash.
pub open spec fn flash_start() -> int {
    0x0800_0000
}

/// One past the last address of the flash (two banks of 1 MiB).
pub open spec fn flash_end() -> int {
    0x0820_0000
}

/// Size of sector `s` (0 to 23): in each bank of twelve sectors, four of
/// 16 KiB, one of 64 KiB, then seven of 128 KiB.
pub open spec fn sector_size(s: int) -> int {
    let t = if s < 12 { s } else { s - 12 };
    if t < 4 {
        0x4000
    } else if t == 4 {
        0x1_0000
    } else {
        0x2_0000
    }
}

/// First address of sector `s` (0 to 23); sectors 12 and up lie in the
/// second bank, 1 MiB above the first.
pub open spec fn sector_start(s: int) -> int {
    let bank = if s < 12 { 0int } else { 1int };
    let t = s - 12 * bank;
    flash_start() + bank * 0x10_0000 + if t < 4 {
        t * 0x4000
    } else if t == 4 {
        0x1_0000
    } else {
        0x2_0000 * (t - 4)
    }
}

/// Whether `addr` lies in sector `s`.
pub open spec fn in_sector(s: int, addr: int) -> bool {
    &&& 0 <= s < 24
    &&& sector_start(s) <= addr < sector_start(s) + sector_size(s)
}

/// The sector an erase at `addr` clears, or `None` when `addr` is outside
/// the flash. Only whole sectors can be erased, so the length of the
/// requested erase plays no part.
pub fn sector_to_erase(addr: u32, len: u32) -> (sector: Option<u8>)
    ensures
        sector is None <==> (addr < flash_start() || addr >= flash_end()),
        forall|s: int| 0 <= s < 24 ==> (sector == Some(s as u8) <==> #[trigger] in_sector(s, addr as int)),
{
    let _ = len;
    let sec: u8 = if 0x0800_0000 <= addr && addr <= 0x0800_3FFF {
        0
    } else if 0x0800_4000 <= addr && addr <= 0x0800_7FFF {
        1
    } else if 0x0800_8000 <= addr && addr <= 0x0800_BFFF {
        2
    } else if 0x0800_C000 <= addr && addr <= 0x0800_FFFF {
        3
    } else if 0x0801_0000 <= addr && addr <= 0x0801_FFFF {
        4
    } else if 0x0802_0000 <= addr && addr <= 0x0803_FFFF {
        5
    } else if 0x0804_0000 <= addr && addr <= 0x0805_FFFF {
        6
    } else if 0x0806_0000 <= addr && addr <= 0x0807_FFFF {
        7
    } else if 0x0808_0000 <= addr && addr <= 0x0809_FFFF {
        8
    } else if 0x080A_0000 <= addr && addr <= 0x080B_FFFF {
        9
    } else if 0x080C_0000 <= addr && addr <= 0x080D_FFFF {
        10
    } else if 0x080E_0000 <= addr && addr <= 0x080F_FFFF {
        11
    } else if 0x0810_0000 <= addr && addr <= 0x0810_3FFF {
        12
    } else if 0x0810_4000 <= addr && addr <= 0x0810_7FFF {
        13
    } else if 0x0810_8000 <= addr && addr <= 0x0810_BFFF {
        14
    } else if 0x0810_C000 <= addr && addr <= 0x0810_FFFF {
        15
    } else if 0x0811_0000 <= addr && addr <= 0x0811_FFFF {
        16
    } else if 0x0812_0000 <= addr && addr <= 0x0813_FFFF {
        17
    } else if 0x0814_0000 <= addr && addr <= 0x0815_FFFF {
        18
    } else if 0x0816_0000 <= addr && addr <= 0x0817_FFFF {
        19
    } else if 0x0818_0000 <= addr && addr <= 0x0819_FFFF {
        20
    } else if 0x081A_0000 <= addr && addr <= 0x081B_FFFF {
        21
    } else if 0x081C_0000 <= addr && addr <= 0x081D_FFFF {
        22
    } else if 0x081E_0000 <= addr && addr <= 0x081F_FFFF {
        23
    } else {
        return None;
    };
    Some(sec)
}

/// The value of the sector-number field (`SNB`) of the flash control
/// register that selects sector `sector` (0 to 23) for erasing: sectors of
/// the first bank are numbered as they are, those of the second bank are
/// requested as 16 and up.
pub fn sector_snb(sector: u8) -> (snb: u8)
    requires
        sector < 24,
    ensures
        snb == if sector < 12 { sector } else { (sector + 4) as u8 },
{
    if sector < 12 {
        sector
    } else {
        sector + 4
    }
}

/// The sectors tile the flash: they follow one another without gaps, the
/// first starts where the flash starts and the last ends where it ends, so
/// every flash address lies in exactly one sector and no other address lies
/// in any.
pub proof fn lemma_sectors_tile_flash(addr: int)
    ensures
        sector_start(0) == flash_start(),
        sector_start(23) + sector_size(23) == flash_end(),
        forall|s: int| 0 <= s < 23 ==> #[trigger] sector_start(s + 1) == sector_start(s) + sector_size(s),
        (exists|s: int| #[trigger] in_sector(s, addr)) <==> flash_start() <= addr < flash_end(),
        forall|s1: int, s2: int| #[trigger] in_sector(s1, addr) && #[trigger] in_sector(s2, addr) ==> s1 == s2,
{
    if flash_start() <= addr < flash_end() {
        let bank: int = if addr < flash_start() + 0x10_0000 { 0 } else { 1 };
        let off = addr - flash_start() - bank * 0x10_0000;
        let t: int = if off < 0x1_0000 {
            off / 0x4000
        } else if off < 0x2_0000 {
            4
        } else {
            4 + off / 0x2_0000
        };
        assert(in_sector(12 * bank + t, addr));
    }
}

/// Checks the first two words of a firmware's vector table: the stack
/// pointer must lie in `STACK_LOW..=STACK_UP` and the reset vector must be
/// `FW_RESET_VTR`. Gives the boot vector when both hold, `None` otherwise.
pub fn validate_boot_vector(sp: u32, rv: u32) -> (v: Option<BootVector>)
    ensures
        v is Some <==> STACK_LOW <= sp <= STACK_UP && rv == FW_RESET_VTR,
        v matches Some(b) ==> b.sp == sp && b.reset == rv,
{
    if STACK_LOW <= sp && sp <= STACK_UP && rv == FW_RESET_VTR {
        let sp = RefinedUsize::<STACK_LOW, STACK_UP, 0>::bounded_int(sp).value();
        let rv = RefinedUsize::<0, 0, FW_RESET_VTR>::single_valued_int(rv).value();
        Some(BootVector { sp, reset: rv })
    } else {
        None
    }
}

} // verus!
