//! Verified core of a small bootloader hardware-abstraction layer for the
//! nRF9160 and STM32F469 boards: how a flash write is split into word and
//! byte programming steps, which flash pages or sectors an erase touches,
//! and how a firmware image's vector table is checked before jumping to it.
//!
//! Register access, memory-mapped I/O and the jump itself live outside this
//! library; they hand plain values in and carry out the steps decided here.

pub mod boot;
pub mod flash_write;
pub mod nrf9160;
pub mod refined;
pub mod stm32f469;

pub use refined::RefinedUsize;
