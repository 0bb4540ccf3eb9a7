//! Geometry of an arena and the layout of its header.

use vstd::prelude::*;

verus! {

/// Size of an arena in bytes; arenas are aligned to it.
pub const ARENA_SIZE: u32 = 4 * 1024 * 1024;

/// Size of a page in bytes.
pub const PAGE_SIZE: u32 = 128 * 1024;

/// Number of pages in an arena.
pub const PAGES_PER_ARENA: u32 = ARENA_SIZE / PAGE_SIZE;

/// Largest object alignment the allocator supports.
pub const MAXIMUM_OBJECT_ALIGNMENT: u32 = 1024;

/// Bytes reserved for the arena header in single-owner mode.
pub const METADATA_ZONE_SIZE: u32 = MAXIMUM_OBJECT_ALIGNMENT;

/// Bytes reserved for the arena header in thread-affine mode, where the header
/// also holds the owner and each page record a foreign free list.
pub const AFFINE_METADATA_ZONE_SIZE: u32 = MAXIMUM_OBJECT_ALIGNMENT * 2;

/// Size of the sub-regions that bound how many blocks one carve pre-links.
pub const SUB_REGION_SIZE: u32 = 4096;

/// Bytes of one page record in the header on a 64-bit target, single-owner
/// mode: forward link 8, page number 4, object size 4, free list 8, reserve 4,
/// padded to 8.
pub const PAGE_RECORD_SIZE: u32 = 32;

/// Bytes of one page record in thread-affine mode: the single-owner record
/// plus the 8-byte foreign free list head.
pub const AFFINE_PAGE_RECORD_SIZE: u32 = 40;

/// Bytes of the owner field that leads the thread-affine header.
pub const OWNER_FIELD_SIZE: u32 = 8;

/// Bytes of the arena header in single-owner mode.
pub const HEADER_SIZE: u32 = PAGES_PER_ARENA * PAGE_RECORD_SIZE;

/// Bytes of the arena header in thread-affine mode.
pub const AFFINE_HEADER_SIZE: u32 = OWNER_FIELD_SIZE + PAGES_PER_ARENA * AFFINE_PAGE_RECORD_SIZE;

/// `n` is a power of two: it has exactly one bit set.
pub open spec fn is_power_of_two(n: u32) -> bool {
    n != 0 && n & ((n - 1) as u32) == 0
}

/// The metadata zone `zone` holds a header of `header` bytes, and a zone one
/// alignment unit smaller would not.
pub open spec fn zone_fits(zone: int, header: int) -> bool {
    &&& zone % MAXIMUM_OBJECT_ALIGNMENT as int == 0
    &&& zone - MAXIMUM_OBJECT_ALIGNMENT < header <= zone
}

/// The geometry constants are consistent: sizes are powers of two, pages tile
/// the arena, and each mode's header fits its metadata zone tightly, so that
/// object storage in page 0 never overlaps the header.
pub proof fn lemma_layout()
    ensures
        is_power_of_two(ARENA_SIZE),
        is_power_of_two(PAGE_SIZE),
        is_power_of_two(MAXIMUM_OBJECT_ALIGNMENT),
        ARENA_SIZE % PAGE_SIZE == 0,
        PAGE_SIZE % MAXIMUM_OBJECT_ALIGNMENT == 0,
        PAGE_SIZE % SUB_REGION_SIZE == 0,
        ARENA_SIZE > MAXIMUM_OBJECT_ALIGNMENT,
        PAGES_PER_ARENA == 32,
        zone_fits(METADATA_ZONE_SIZE as int, HEADER_SIZE as int),
        zone_fits(AFFINE_METADATA_ZONE_SIZE as int, AFFINE_HEADER_SIZE as int),
{
    assert(4194304u32 & 4194303u32 == 0) by (bit_vector);
    assert(131072u32 & 131071u32 == 0) by (bit_vector);
    assert(1024u32 & 1023u32 == 0) by (bit_vector);
}


/// Base address of the arena that holds address `a`.
pub open spec fn arena_of(a: int) -> int {
    a - a % ARENA_SIZE as int
}

/// Index, within its arena, of the page that holds address `a`.
pub open spec fn page_index_of(a: int) -> int {
    (a % ARENA_SIZE as int) / PAGE_SIZE as int
}

/// First address of page `i` of the arena at `base`.
pub open spec fn page_start(base: int, i: int) -> int {
    base + i * PAGE_SIZE
}

/// `base` can be the base of an arena: aligned, and the whole arena lies in
/// the address space.
pub open spec fn arena_base_ok(base: int) -> bool {
    &&& 0 <= base
    &&& base % ARENA_SIZE as int == 0
    &&& base + ARENA_SIZE <= usize::MAX + 1
}

/// Every address of page `i` of an arena decodes to that arena and that page.
pub proof fn lemma_decode(base: int, i: int, a: int)
    requires
        arena_base_ok(base),
        0 <= i < PAGES_PER_ARENA,
        page_start(base, i) <= a < page_start(base, i + 1),
    ensures
        arena_of(a) == base,
        page_index_of(a) == i,
{
    let q = base / ARENA_SIZE as int;
    vstd::arithmetic::div_mod::lemma_fundamental_div_mod(base, ARENA_SIZE as int);
    assert(a == q * ARENA_SIZE + (a - base));
    assert(0 <= a - base < ARENA_SIZE) by (nonlinear_arith)
        requires
            base + i * PAGE_SIZE <= a < base + (i + 1) * PAGE_SIZE,
            0 <= i < 32,
    ;
    vstd::arithmetic::div_mod::lemma_fundamental_div_mod_converse(a, ARENA_SIZE as int, q, a - base);
    vstd::arithmetic::div_mod::lemma_fundamental_div_mod_converse(
        a - base,
        PAGE_SIZE as int,
        i,
        a - base - i * PAGE_SIZE,
    );
}

} // verus!
