//! A buddy-system heap over address ranges.
pub mod util;
pub mod linked_list;
pub mod heap;
pub mod blocks;
