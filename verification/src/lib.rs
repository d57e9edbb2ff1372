//! The logic of a boot loader for 64-bit Arm machines with UEFI firmware.
//!
//! - `cfg`, `text`: the configuration file
//! - `boot_info`: the settings in it, and what the kernel is told
//! - `framebuffer`, `gop`: choosing a graphics mode and checking its framebuffer
//! - `memory_map`: the firmware's memory map
//! - `firmware_tables`: the firmware's configuration tables
//! - `file`: paths as the firmware takes them
//! - `elf`, `kernel_loading`: validating a kernel and placing its segments
//! - `table_pool`, `pool_history`: memory for translation tables
//! - `mapping`, `mapper`: what is mapped, and the registers that install it
//! - `transition`: what stays mapped while the kernel takes over
//! - `boot`: the decisions of the boot sequence
//! - `align`: powers of two
pub mod align;
pub mod boot;
pub mod boot_info;
pub mod cfg;
pub mod elf;
pub mod file;
pub mod firmware_tables;
pub mod framebuffer;
pub mod gop;
pub mod kernel_loading;
pub mod mapper;
pub mod mapping;
pub mod memory_map;
pub mod pool_history;
pub mod table_pool;
pub mod text;
pub mod transition;

pub use crate::boot_info::{BootConfig, BootConfigError, BootInfo, Optional, TranslationInfo};
pub use crate::framebuffer::{FrameBuffer, FrameBufferConfig, FrameBufferInfo, PixelFormat};
pub use crate::mapper::GranuleKind;
pub use crate::memory_map::{MemoryMap, MemoryMapIter, UefiMemoryDescriptor};
