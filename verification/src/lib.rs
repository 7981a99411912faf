//! Core analysis of compiled Linux kernel images: Android boot image
//! parsing, kernel decompression, kallsyms symbol recovery and ELF
//! reconstruction.

use vstd::prelude::*;

pub mod byte_io;
pub mod text;
pub mod error;
pub mod kallsyms;
pub mod probe;
pub mod boot_image;
pub mod compression;
pub mod elf_builder;
pub mod symbol_order;
pub mod row_index;
pub mod session;
pub mod test_utils;
