//! A verified second-stage boot pipeline for PC-compatible hardware.
//!
//! The library holds the storage-and-loading core: the partition-table
//! reader, the ext2-style filesystem reader, the executable loader, the
//! physical memory manager, and the decision logic of the ATA disk driver.
//! Raw hardware access (port I/O, the jump to the kernel, the text-mode
//! framebuffer) lives outside the library; the core works over an in-memory
//! block-device image and a bounds-checked physical memory window, so every
//! byte it reads or writes is accounted for in its contracts.

pub mod ata;
pub mod device;
pub mod error;
pub mod ext;
pub mod le;
pub mod loader;
pub mod manager;
pub mod mbr;
pub mod memory;
pub mod text;
pub mod vga;
pub mod window;
