//! A page: one size class, a local free list, a foreign free list and a bump
//! reserve.

use vstd::prelude::*;
use crate::layout::{
    arena_base_ok, arena_of, lemma_decode, page_index_of, page_start, ARENA_SIZE, PAGE_SIZE,
    PAGES_PER_ARENA, SUB_REGION_SIZE,
};

verus! {

/// The state of a page as a mathematical value.
///
/// Free lists are stacks whose head (the next block handed out) is the last
/// element.
pub ghost struct PageView {
    pub next_page: Option<usize>,
    pub page_number: int,
    pub object_size: int,
    pub local: Seq<usize>,
    pub foreign: Seq<usize>,
    pub reserve: int,
    pub arena_base: int,
}

/// The blocks pre-linked by one carve: `count` blocks of `size` bytes that
/// follow the block at `first`, lowest address at the head (last element).
pub open spec fn carved_run(first: int, size: int, count: int) -> Seq<usize> {
    Seq::new(count as nat, |j: int| (first + (count - j) * size) as usize)
}

impl PageView {
    /// First address of the page.
    pub open spec fn start(self) -> int {
        page_start(self.arena_base, self.page_number)
    }

    /// One past the last address of the page.
    pub open spec fn end(self) -> int {
        page_start(self.arena_base, self.page_number + 1)
    }

    /// Address of the next block carved from the reserve.
    pub open spec fn frontier(self) -> int {
        self.end() - self.reserve
    }

    /// Address `a` lies in this page.
    pub open spec fn holds(self, a: usize) -> bool {
        self.start() <= a < self.end()
    }

    /// Well-formed: a page of an aligned arena, with a reserve no larger than
    /// the page and free blocks that lie in the page.
    pub open spec fn wf(self) -> bool {
        &&& arena_base_ok(self.arena_base)
        &&& 0 <= self.page_number < PAGES_PER_ARENA
        &&& 0 <= self.object_size <= u32::MAX
        &&& 0 <= self.reserve <= PAGE_SIZE
        &&& forall|j: int| 0 <= j < self.local.len() ==> self.holds(#[trigger] self.local[j])
        &&& forall|j: int| 0 <= j < self.foreign.len() ==> self.holds(#[trigger] self.foreign[j])
    }

    /// Number of further blocks that a carve pre-links: as many as fit, after
    /// the carved block, without crossing the current sub-region boundary.
    pub open spec fn batch_len(self) -> int {
        ((self.reserve - self.object_size) % SUB_REGION_SIZE as int) / self.object_size
    }

    /// What `allocate` does: the new page and the block handed out.
    pub open spec fn alloc_step(self) -> (PageView, Option<usize>) {
        if self.local.len() > 0 {
            (PageView { local: self.local.drop_last(), ..self }, Some(self.local.last()))
        } else if self.foreign.len() > 0 {
            (
                PageView { local: self.foreign.drop_last(), foreign: Seq::empty(), ..self },
                Some(self.foreign.last()),
            )
        } else if self.reserve >= self.object_size {
            let k = self.batch_len();
            (
                PageView {
                    local: carved_run(self.frontier(), self.object_size, k),
                    reserve: self.reserve - self.object_size - k * self.object_size,
                    ..self
                },
                Some(self.frontier() as usize),
            )
        } else {
            (self, None)
        }
    }

    /// The page after block `p` is pushed on its local free list.
    pub open spec fn push_local(self, p: usize) -> PageView {
        PageView { local: self.local.push(p), ..self }
    }

    /// The page after block `p` is pushed on its foreign free list.
    pub open spec fn push_foreign(self, p: usize) -> PageView {
        PageView { foreign: self.foreign.push(p), ..self }
    }

    /// Neither free list holds a block and the reserve is short of one block.
    pub open spec fn exhausted(self) -> bool {
        self.local.len() == 0 && self.foreign.len() == 0 && self.reserve < self.object_size
    }
}

/// A page of an arena, committed to one object size once `object_size` is
/// set to a nonzero value.
pub struct SmallObjectPage {
    /// Start address of the next page on a chain of unused pages.
    pub next_page: Option<usize>,
    page_number: u32,
    /// Size of every block of the page; zero while the page is uncommitted.
    pub object_size: u32,
    free_list: Vec<usize>,
    foreign_free_list: Vec<usize>,
    bytes_in_reserve: u32,
    arena_base: usize,
}

impl View for SmallObjectPage {
    type V = PageView;

    closed spec fn view(&self) -> PageView {
        PageView {
            next_page: self.next_page,
            page_number: self.page_number as int,
            object_size: self.object_size as int,
            local: self.free_list@,
            foreign: self.foreign_free_list@,
            reserve: self.bytes_in_reserve as int,
            arena_base: self.arena_base as int,
        }
    }
}

impl SmallObjectPage {
    /// An uncommitted page `page_number` of the arena at `arena_base`, with
    /// `reserve` bytes to carve and the forward link `next_page`.
    pub(crate) fn new(arena_base: usize, page_number: u32, reserve: u32, next_page: Option<usize>) -> (r: SmallObjectPage)
        requires
            arena_base_ok(arena_base as int),
            page_number < PAGES_PER_ARENA,
            reserve <= PAGE_SIZE,
        ensures
            r@.wf(),
            r@ == (PageView {
                next_page,
                page_number: page_number as int,
                object_size: 0,
                local: Seq::empty(),
                foreign: Seq::empty(),
                reserve: reserve as int,
                arena_base: arena_base as int,
            }),
    {
        let r = SmallObjectPage {
            next_page,
            page_number,
            object_size: 0,
            free_list: Vec::new(),
            foreign_free_list: Vec::new(),
            bytes_in_reserve: reserve,
            arena_base,
        };
        assert(r@.local =~= Seq::empty());
        assert(r@.foreign =~= Seq::empty());
        r
    }

    /// Index, within its arena, of the page that holds address `p`.
    pub fn page_id(p: usize) -> (r: usize)
        ensures
            r == page_index_of(p as int),
            r < PAGES_PER_ARENA,
    {
        let r = (p & (ARENA_SIZE as usize - 1)) / (PAGE_SIZE as usize);
        assert(p & 0x3fffff == p % 0x400000) by (bit_vector);
        assert(p % 0x400000 / 0x20000 < 32) by (bit_vector);
        r
    }

    /// Commits the page to blocks of `object_size` bytes.
    pub fn commit(&mut self, object_size: u32)
        requires
            old(self)@.wf(),
        ensures
            final(self)@.wf(),
            final(self)@ == (PageView { object_size: object_size as int, ..old(self)@ }),
    {
        self.object_size = object_size;
    }

    /// Sets the forward link of the page on a chain of unused pages.
    pub fn set_next_page(&mut self, next_page: Option<usize>)
        requires
            old(self)@.wf(),
        ensures
            final(self)@.wf(),
            final(self)@ == (PageView { next_page, ..old(self)@ }),
    {
        self.next_page = next_page;
    }

    /// Pushes `p` on the local free list.
    pub(crate) fn free_list_push(&mut self, p: usize)
        requires
            old(self)@.wf(),
            old(self)@.holds(p),
        ensures
            final(self)@.wf(),
            final(self)@ == old(self)@.push_local(p),
    {
        self.free_list.push(p);
    }

    /// Pushes `p` on the foreign free list.
    pub(crate) fn foreign_free_list_push(&mut self, p: usize)
        requires
            old(self)@.wf(),
            old(self)@.holds(p),
        ensures
            final(self)@.wf(),
            final(self)@ == old(self)@.push_foreign(p),
    {
        self.foreign_free_list.push(p);
    }

    /// Index of this page within its arena.
    pub fn page_number(&self) -> (r: u32)
        ensures
            r == self@.page_number,
    {
        self.page_number
    }

    /// Bytes of the page not yet carved into blocks.
    pub fn bytes_in_reserve(&self) -> (r: u32)
        ensures
            r == self@.reserve,
    {
        self.bytes_in_reserve
    }

    /// Hands out a block: the head of the local free list; else the head of
    /// the foreign free list, whose rest becomes the local list; else a block
    /// carved from the reserve, together with the blocks that follow it in
    /// the same sub-region, which go on the local list. `None` when the page
    /// is exhausted.
    pub fn allocate(&mut self) -> (r: Option<usize>)
        requires
            old(self)@.wf(),
            old(self)@.object_size > 0,
        ensures
            final(self)@.wf(),
            (final(self)@, r) == old(self)@.alloc_step(),
            r is None <==> old(self)@.exhausted(),
            r matches Some(p) ==> arena_of(p as int) == old(self)@.arena_base
                && page_index_of(p as int) == old(self)@.page_number,
    {
        let ghost pre = self@;
        if self.free_list.len() > 0 {
            let p = self.free_list.pop().unwrap();
            proof {
                assert(self@.local =~= pre.local.drop_last());
                assert(pre.holds(pre.local[pre.local.len() - 1]));
                lemma_decode(pre.arena_base, pre.page_number, p as int);
            }
            return Some(p);
        }
        if self.foreign_free_list.len() > 0 {
            let mut drained: Vec<usize> = Vec::new();
            std::mem::swap(&mut drained, &mut self.foreign_free_list);
            let p = drained.pop().unwrap();
            self.free_list = drained;
            proof {
                assert(self@.local =~= pre.foreign.drop_last());
                assert(self@.foreign =~= Seq::empty());
                assert(pre.holds(pre.foreign[pre.foreign.len() - 1]));
                lemma_decode(pre.arena_base, pre.page_number, p as int);
            }
            return Some(p);
        }
        if self.bytes_in_reserve >= self.object_size {
            let size = self.object_size;
            let offset: u32 = (self.page_number + 1) * PAGE_SIZE - self.bytes_in_reserve;
            let p: usize = self.arena_base + offset as usize;
            self.bytes_in_reserve = self.bytes_in_reserve - size;
            // The blocks that still fit before the sub-region boundary: the
            // count of steps `bytes_in_reserve % SUB_REGION_SIZE >= size`
            // allows while it drops by `size` each time.
            let count: u32 = self.bytes_in_reserve % SUB_REGION_SIZE / size;
            proof {
                assert(count * size <= self.bytes_in_reserve % SUB_REGION_SIZE) by (nonlinear_arith)
                    requires count == self.bytes_in_reserve % SUB_REGION_SIZE / size, size > 0;
            }
            let mut run: Vec<usize> = Vec::new();
            let mut j: u32 = count;
            while j > 0
                invariant
                    j <= count,
                    count * size <= self.bytes_in_reserve,
                    p + size + self.bytes_in_reserve <= pre.end(),
                    pre.end() <= usize::MAX + 1,
                    size > 0,
                    run@ == carved_run(p as int, size as int, count as int).take(count - j),
                decreases j,
            {
                proof {
                    assert(j * size <= count * size) by (nonlinear_arith)
                        requires j <= count;
                }
                run.push(p + j as usize * size as usize);
                j = j - 1;
                proof {
                    assert(run@ =~= carved_run(p as int, size as int, count as int).take(count - j));
                }
            }
            self.bytes_in_reserve = self.bytes_in_reserve - count * size;
            self.free_list = run;
            proof {
                let post = self@;
                assert(run@ =~= carved_run(p as int, size as int, count as int));
                assert(pre.frontier() == p);
                assert forall|i: int| 0 <= i < post.local.len() implies post.holds(
                    #[trigger] post.local[i],
                ) by {
                    assert((count - i) * size <= count * size) by (nonlinear_arith)
                        requires 0 <= i < count;
                }
                assert(post == pre.alloc_step().0);
                lemma_decode(pre.arena_base, pre.page_number, p as int);
            }
            Some(p)
        } else {
            None
        }
    }
}

} // verus!
