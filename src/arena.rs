//! An arena: a self-aligned region of equal pages, its creation, and the
//! release of blocks back to the page that holds them.

use vstd::prelude::*;
use crate::layout::{
    arena_base_ok, arena_of, page_index_of, page_start, AFFINE_METADATA_ZONE_SIZE,
    ARENA_SIZE, METADATA_ZONE_SIZE, PAGES_PER_ARENA, PAGE_SIZE,
};
use crate::page::{PageView, SmallObjectPage};

verus! {

/// Identifies the logical heap that owns an arena in thread-affine mode.
pub type HeapId = u64;

/// The state of an arena as a mathematical value.
pub ghost struct ArenaView {
    pub base: int,
    pub owner: Option<HeapId>,
    pub pages: Seq<PageView>,
}

/// Size of the metadata zone of an arena with the given owner: thread-affine
/// arenas (with an owner) keep a larger header.
pub open spec fn metadata_zone(owner: Option<HeapId>) -> int {
    if owner is Some {
        AFFINE_METADATA_ZONE_SIZE as int
    } else {
        METADATA_ZONE_SIZE as int
    }
}

impl ArenaView {
    /// Well-formed: an aligned arena whose page records are its pages, in
    /// order, each well-formed.
    pub open spec fn wf(self) -> bool {
        &&& arena_base_ok(self.base)
        &&& self.pages.len() == PAGES_PER_ARENA
        &&& forall|i: int|
            0 <= i < PAGES_PER_ARENA ==> {
                &&& (#[trigger] self.pages[i]).wf()
                &&& self.pages[i].page_number == i
                &&& self.pages[i].arena_base == self.base
            }
    }

    /// Just created at `base` for `owner`: every page uncommitted with empty
    /// free lists; page 0 with the reserve left beside the metadata zone and
    /// no link; pages 1 to P-2 each linked to the next; the last page ending
    /// the chain.
    pub open spec fn fresh(self, base: int, owner: Option<HeapId>) -> bool {
        &&& self.wf()
        &&& self.base == base
        &&& self.owner == owner
        &&& forall|i: int|
            0 <= i < PAGES_PER_ARENA ==> {
                &&& (#[trigger] self.pages[i]).object_size == 0
                &&& self.pages[i].local.len() == 0
                &&& self.pages[i].foreign.len() == 0
                &&& self.pages[i].reserve == if i == 0 {
                    PAGE_SIZE - metadata_zone(owner)
                } else {
                    PAGE_SIZE as int
                }
                &&& self.pages[i].next_page == if 1 <= i < PAGES_PER_ARENA - 1 {
                    Some(page_start(base, i + 1) as usize)
                } else {
                    None
                }
            }
    }

    /// The arena after block `p` is released by its owner: pushed on the local
    /// free list of the page that holds it.
    pub open spec fn release_local(self, p: usize) -> ArenaView {
        let i = page_index_of(p as int);
        ArenaView { pages: self.pages.update(i, self.pages[i].push_local(p)), ..self }
    }

    /// The arena after block `p` is released by another heap: pushed on the
    /// foreign free list of the page that holds it.
    pub open spec fn release_foreign(self, p: usize) -> ArenaView {
        let i = page_index_of(p as int);
        ArenaView { pages: self.pages.update(i, self.pages[i].push_foreign(p)), ..self }
    }
}

/// An arena of `PAGES_PER_ARENA` pages starting at an address aligned to
/// `ARENA_SIZE`.
pub struct SmallObjectArena {
    base: usize,
    owner: Option<HeapId>,
    pages: Vec<SmallObjectPage>,
}

impl View for SmallObjectArena {
    type V = ArenaView;

    closed spec fn view(&self) -> ArenaView {
        ArenaView {
            base: self.base as int,
            owner: self.owner,
            pages: self.pages@.map_values(|p: SmallObjectPage| p@),
        }
    }
}

impl SmallObjectArena {
    /// Base address of the arena that holds address `p`: `p` with the low
    /// bits masked off.
    pub fn arena(p: usize) -> (r: usize)
        ensures
            r == arena_of(p as int),
    {
        assert(p & !0x3fffffusize == p - p % 0x400000) by (bit_vector);
        p & !(ARENA_SIZE as usize - 1)
    }

    /// Base address of this arena.
    pub fn base(&self) -> (r: usize)
        ensures
            r == self@.base,
    {
        self.base
    }

    /// The heap that owns this arena, in thread-affine mode.
    pub fn owner(&self) -> (r: Option<HeapId>)
        ensures
            r == self@.owner,
    {
        self.owner
    }

    /// Page `i` of the arena.
    pub fn page(&self, i: usize) -> (r: &SmallObjectPage)
        requires
            i < self@.pages.len(),
        ensures
            r@ == self@.pages[i as int],
    {
        &self.pages[i]
    }

    /// Page `i` of the arena, to commit it or to allocate from it. The page
    /// must be left well-formed and in its place.
    pub fn page_mut(&mut self, i: usize) -> (r: &mut SmallObjectPage)
        requires
            i < old(self)@.pages.len(),
        ensures
            r@ == old(self)@.pages[i as int],
            final(self)@ == (ArenaView {
                pages: old(self)@.pages.update(i as int, final(r)@),
                ..old(self)@
            }),
    {
        proof {
            assert forall|q: SmallObjectPage|
                (#[trigger] self.pages@.update(i as int, q)).map_values(|p: SmallObjectPage| p@)
                    =~= self@.pages.update(i as int, q@) by {}
        }
        &mut self.pages[i]
    }
}

impl SmallObjectPage {
    /// Lays out a new arena in `region`, the start of a zeroed region of
    /// `ARENA_SIZE` bytes aligned to `ARENA_SIZE`, or `None` when that region
    /// could not be reserved. `owner` is the owning heap in thread-affine
    /// mode and `None` in single-owner mode.
    ///
    /// Returns the arena with the start addresses of page 0 (handed out apart
    /// because its head holds the metadata zone), of page 1 (the head of the
    /// chain of unused pages) and of the last page (the tail of that chain).
    pub fn from_new_arena(region: Option<usize>, owner: Option<HeapId>) -> (r: Option<
        (SmallObjectArena, usize, usize, usize),
    >)
        requires
            region matches Some(b) ==> arena_base_ok(b as int),
        ensures
            r is None <==> region is None,
            r matches Some((a, first, head, tail)) ==> {
                &&& region matches Some(b) && a@.fresh(b as int, owner)
                &&& first == a@.base
                &&& head == page_start(a@.base, 1)
                &&& tail == page_start(a@.base, PAGES_PER_ARENA - 1)
            },
    {
        let base = match region {
            Some(b) => b,
            None => return None,
        };
        let zone: u32 = if owner.is_some() {
            AFFINE_METADATA_ZONE_SIZE
        } else {
            METADATA_ZONE_SIZE
        };
        let mut pages: Vec<SmallObjectPage> = Vec::new();
        pages.push(SmallObjectPage::new(base, 0, PAGE_SIZE - zone, None));
        let mut i: u32 = 1;
        while i < PAGES_PER_ARENA
            invariant
                1 <= i <= PAGES_PER_ARENA,
                arena_base_ok(base as int),
                zone == metadata_zone(owner),
                pages@.len() == i,
                forall|k: int|
                    0 <= k < i ==> {
                        &&& (#[trigger] pages@[k])@.wf()
                        &&& pages@[k]@.page_number == k
                        &&& pages@[k]@.arena_base == base
                        &&& pages@[k]@.object_size == 0
                        &&& pages@[k]@.local.len() == 0
                        &&& pages@[k]@.foreign.len() == 0
                        &&& pages@[k]@.reserve == if k == 0 {
                            PAGE_SIZE - metadata_zone(owner)
                        } else {
                            PAGE_SIZE as int
                        }
                        &&& pages@[k]@.next_page == if 1 <= k < PAGES_PER_ARENA - 1 {
                            Some(page_start(base as int, k + 1) as usize)
                        } else {
                            None
                        }
                    },
            decreases PAGES_PER_ARENA - i,
        {
            let next = if i < PAGES_PER_ARENA - 1 {
                Some(base + (i as usize + 1) * PAGE_SIZE as usize)
            } else {
                None
            };
            pages.push(SmallObjectPage::new(base, i, PAGE_SIZE, next));
            i = i + 1;
        }
        let arena = SmallObjectArena { base, owner, pages };
        proof {
            assert forall|k: int| 0 <= k < PAGES_PER_ARENA implies #[trigger] arena@.pages[k]
                == pages@[k]@ by {}
        }
        Some(
            (
                arena,
                base,
                base + PAGE_SIZE as usize,
                base + (PAGES_PER_ARENA as usize - 1) * PAGE_SIZE as usize,
            ),
        )
    }

    /// Releases block `p` by the arena's only user (single-owner mode) or by
    /// its owner: `p` goes on the local free list of the page that holds it,
    /// and is the next block that page hands out.
    pub fn dealloc(arena: &mut SmallObjectArena, p: usize)
        requires
            old(arena)@.wf(),
            arena_of(p as int) == old(arena)@.base,
        ensures
            final(arena)@.wf(),
            final(arena)@ == old(arena)@.release_local(p),
    {
        let ghost pre = arena@;
        let i = SmallObjectPage::page_id(p);
        proof { lemma_holds(pre, p); }
        arena.pages[i].free_list_push(p);
        proof {
            assert(arena@.pages =~= pre.release_local(p).pages);
        }
    }

    /// Releases block `p` on behalf of heap `heap_id` (thread-affine mode):
    /// onto the local free list of its page when `heap_id` owns the arena,
    /// else onto that page's foreign free list, which the owner drains when
    /// its local list runs empty.
    pub fn dealloc_from(arena: &mut SmallObjectArena, heap_id: HeapId, p: usize)
        requires
            old(arena)@.wf(),
            arena_of(p as int) == old(arena)@.base,
        ensures
            final(arena)@.wf(),
            final(arena)@ == if old(arena)@.owner == Some(heap_id) {
                old(arena)@.release_local(p)
            } else {
                old(arena)@.release_foreign(p)
            },
    {
        let ghost pre = arena@;
        let i = SmallObjectPage::page_id(p);
        proof { lemma_holds(pre, p); }
        if arena.owner == Some(heap_id) {
            arena.pages[i].free_list_push(p);
            proof {
                assert(arena@.pages =~= pre.release_local(p).pages);
            }
        } else {
            arena.pages[i].foreign_free_list_push(p);
            proof {
                assert(arena@.pages =~= pre.release_foreign(p).pages);
            }
        }
    }
}

/// An address of a well-formed arena lies in the page that it decodes to.
proof fn lemma_holds(a: ArenaView, p: usize)
    requires
        a.wf(),
        arena_of(p as int) == a.base,
    ensures
        0 <= page_index_of(p as int) < PAGES_PER_ARENA,
        a.pages[page_index_of(p as int)].holds(p),
{
    let i = page_index_of(p as int);
    let m = p as int % ARENA_SIZE as int;
    assert(0 <= m < ARENA_SIZE);
    assert(p == a.base + m);
    assert(0 <= i < PAGES_PER_ARENA);
    assert(i * PAGE_SIZE <= m < (i + 1) * PAGE_SIZE) by (nonlinear_arith)
        requires i == m / PAGE_SIZE as int, 0 <= m;
    assert(a.pages[i].page_number == i);
}

} // verus!
