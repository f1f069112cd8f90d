//! A fixed-capacity object memory for a small virtual machine: a single
//! buffer of machine words holds variable-sized objects, each prefixed by a
//! packed header word. The crate provides the header codec, object views
//! over the buffer, a first-fit allocator and object builder, and a
//! mark-sweep-coalesce garbage collector, all verified against a partition
//! invariant: walking the buffer region by region from index 0 covers the
//! whole capacity with no gap and no overrun.

pub mod allocator;
pub mod garbage_collector;
pub mod header;
pub mod heap_layout;
pub mod heap_updates;
pub mod memory_space;
pub mod memory_space_access;
pub mod oop_builder;
pub mod oop_carcass;
pub mod oop_common;
pub mod oop_headers;
pub mod oop_slice;
pub mod slot_content;
pub mod special_class_index;

