//! The kernel heap: a first-fit allocator over one contiguous region whose
//! blocks carry an 8-byte header.
pub mod memory;
pub mod symbols;
