//! Verified core of the Forward OS kernel: checksums and packet building,
//! FAT32 directory and file walking, the sector bitmap allocator, page table
//! construction, drawing into shadow buffers, descriptor and container
//! tables, the keyboard ring, the system call register protocol and ELF
//! loading plans.
#![allow(unused_imports)]

pub mod bytes;
pub mod checksum;
pub mod net;
pub mod fs;
pub mod fd;
pub mod ram;
pub mod font;
pub mod draw;
pub mod screen;
pub mod container;
pub mod syscall;
pub mod interrupts;
pub mod timing;
pub mod elf;
pub mod boot_image;
pub mod boot_menu;
pub mod shell;
pub mod mmio;
pub mod ahci;
pub mod pci;
pub mod paging;
pub mod apic;

