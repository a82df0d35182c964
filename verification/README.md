# rustboot_hal

The verified core of a bootloader HAL for two boards, the nRF9160 and the
STM32F469.

- `src/flash_write.rs`: how a flash write is split into word and byte
  programming steps, the byte-merge for partial words, and the proof that
  carrying out the steps stores exactly the requested bytes.
- `src/nrf9160.rs`: board constants and the pages an erase clears.
- `src/stm32f469.rs`: board constants, the flash sector map, and the check a
  firmware vector table must pass before booting.
- `src/boot.rs`: the boot vector used to jump into non-secure firmware.
- `src/refined.rs`: `RefinedUsize`, a `u32` checked against a range or a value.
- `app/`: the register-level drivers, the jumps into firmware and the small
  firmware pieces, which carry out what the library decides.
