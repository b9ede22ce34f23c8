//! The FAT32 volume: boot sector geometry, directory entries, and the
//! directory and file walks that drive the disk one sector at a time.
pub mod volume;
pub mod names;
pub mod dir_walk;
pub mod file_read;
pub mod file_write;
