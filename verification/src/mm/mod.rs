//! Memory management: SV39 addresses, page-table entries, physical frames
//! and the bookkeeping of mapped regions.
pub mod address;
pub mod page_table;
pub mod frame_allocator;
pub mod map;
pub mod memory_set;
pub mod elf;
pub mod debug;
pub mod user;
pub mod map_record;
pub mod mmap_area;
