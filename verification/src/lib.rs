//! Verified core of a second-stage RISC-V bootloader: GPT partition
//! discovery, FAT32 root-directory lookup by 8.3 name, sector streaming
//! of a kernel image, a line-editing serial console, and the small
//! decisions of the multi-hart boot coordinator.
//!
//! Hardware access (UART bytes, SD sectors) enters through the
//! [`serial::ByteTransport`] and [`block::BlockDevice`] traits; the
//! platform supplies the drivers, the library supplies the verified logic.

pub mod block;
pub mod boot;
pub mod bytes;
pub mod console;
pub mod fat;
pub mod loader;
pub mod part;
pub mod serial;
