//! Small-object core of a memory allocator: self-aligned arenas cut into
//! equal pages, each page handing out blocks of one size class from a local
//! free list, a foreign free list and a bump reserve.
//!
//! Addresses are plain integers. An arena is identified by its base address,
//! which is a multiple of the arena size, so that any address inside it leads
//! back to the arena and to the page that holds it by masking.

pub mod layout;
pub mod arena;
pub mod page;
pub mod laws;

pub use arena::{SmallObjectArena, ArenaView, HeapId};
pub use layout::{
    ARENA_SIZE, PAGE_SIZE, PAGES_PER_ARENA, MAXIMUM_OBJECT_ALIGNMENT, METADATA_ZONE_SIZE,
    AFFINE_METADATA_ZONE_SIZE, SUB_REGION_SIZE,
};
pub use page::{SmallObjectPage, PageView};
