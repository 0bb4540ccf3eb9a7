//! Properties that relate several operations or hold across a run of them.

use vstd::prelude::*;
use crate::arena::{ArenaView, HeapId};
use crate::layout::{arena_of, lemma_decode, page_index_of, page_start, ARENA_SIZE, PAGE_SIZE, PAGES_PER_ARENA, SUB_REGION_SIZE};
use crate::page::PageView;

verus! {

/// Every address of a well-formed arena decodes to that arena's base, which
/// is a multiple of the arena size, and to the page whose range holds it.
pub proof fn lemma_alignment(a: ArenaView, p: usize)
    requires
        a.wf(),
        a.base <= p < a.base + ARENA_SIZE,
    ensures
        a.base % ARENA_SIZE as int == 0,
        arena_of(p as int) == a.base,
        page_index_of(p as int) == (p - a.base) / PAGE_SIZE as int,
        a.pages[page_index_of(p as int)].holds(p),
{
    let i = (p - a.base) / PAGE_SIZE as int;
    assert(0 <= i < PAGES_PER_ARENA && page_start(a.base, i) <= p < page_start(a.base, i + 1))
        by (nonlinear_arith)
        requires
            i == (p - a.base) / PAGE_SIZE as int,
            0 <= p - a.base < 4194304,
    ;
    lemma_decode(a.base, i, p as int);
}

/// The free blocks of `s` are a run of blocks from `f` up to the reserve: the
/// foreign list is empty and the local list holds `f`, `f + S`, ... with `f`
/// at its head, `S` being the object size.
pub open spec fn run_from(s: PageView, f: int) -> bool {
    &&& s.foreign.len() == 0
    &&& forall|j: int|
        0 <= j < s.local.len() ==> #[trigger] s.local[j] == f + (s.local.len() - 1 - j)
            * s.object_size
}

/// After `m` allocations from page `s0` with nothing released, `s` is the page
/// `s0` with its first `m` blocks handed out.
spec fn after_run(s0: PageView, s: PageView, m: int) -> bool {
    &&& s.object_size == s0.object_size
    &&& s.arena_base == s0.arena_base
    &&& s.page_number == s0.page_number
    &&& s.reserve >= 0
    &&& run_from(s, s0.frontier() + m * s0.object_size)
    &&& s.local.len() * s.object_size + s.reserve == s0.reserve - m * s0.object_size
}

/// One allocation on a page whose free blocks form a run from `f`.
proof fn lemma_run_step(s0: PageView, s: PageView, m: int)
    requires
        s0.wf(),
        s0.object_size > 0,
        m >= 0,
        after_run(s0, s, m),
    ensures
        s.alloc_step().1 is Some <==> s0.reserve - m * s0.object_size >= s0.object_size,
        s.alloc_step().1 is Some ==> {
            &&& s.alloc_step().1 == Some((s0.frontier() + m * s0.object_size) as usize)
            &&& s0.frontier() + m * s0.object_size == (s0.frontier() + m * s0.object_size) as usize
            &&& after_run(s0, s.alloc_step().0, m + 1)
        },
        s.alloc_step().1 is None ==> s.alloc_step().0 == s,
{
    let size = s0.object_size;
    let f = s0.frontier() + m * size;
    let n = s.local.len() as int;
    assert(n * size + s.reserve >= size <==> (n > 0 || s.reserve >= size)) by (nonlinear_arith)
        requires n >= 0, size > 0, s.reserve >= 0;
    assert(s0.end() <= usize::MAX + 1);
    if n > 0 {
        let t = s.alloc_step().0;
        assert(s.local[n - 1] == f);
        assert(n * size + s.reserve <= s0.reserve - m * size);
        assert(f + size <= s0.end()) by (nonlinear_arith)
            requires
                f == s0.end() - s0.reserve + m * size,
                n * size + s.reserve == s0.reserve - m * size,
                n >= 1, s.reserve >= 0, size > 0;
        assert forall|j: int| 0 <= j < t.local.len() implies #[trigger] t.local[j] == (f + size)
            + (t.local.len() - 1 - j) * size by {
            assert(t.local[j] == s.local[j]);
            assert(f + (n - 1 - j) * size == (f + size) + (n - 2 - j) * size) by (nonlinear_arith);
        }
        assert((n - 1) * size + s.reserve == s0.reserve - (m + 1) * size) by (nonlinear_arith)
            requires n * size + s.reserve == s0.reserve - m * size;
        assert(t.local.len() == n - 1);
        assert(s0.frontier() + (m + 1) * size == f + size) by (nonlinear_arith)
            requires f == s0.frontier() + m * size;
        assert(run_from(t, s0.frontier() + (m + 1) * size));
        assert(after_run(s0, t, m + 1));
        assert(f == f as usize);
        assert(f >= 0) by (nonlinear_arith)
            requires f == s0.end() - s0.reserve + m * size, s0.end() - s0.reserve >= 0, m >= 0, size > 0;
    } else if s.reserve >= size {
        let t = s.alloc_step().0;
        let k = s.batch_len();
        assert(n * size == 0) by (nonlinear_arith) requires n == 0;
        assert(s.frontier() == f);
        let rest = s.reserve - size;
        assert(0 <= rest % (SUB_REGION_SIZE as int) <= rest);
        assert(0 <= k && k * size <= rest % (SUB_REGION_SIZE as int)) by (nonlinear_arith)
            requires k == (rest % (SUB_REGION_SIZE as int)) / size, size > 0, rest % (SUB_REGION_SIZE as int) >= 0;
        assert(f >= 0) by (nonlinear_arith)
            requires f == s0.end() - s0.reserve + m * size, s0.end() - s0.reserve >= 0, m >= 0, size > 0;
        assert(t.local.len() == k);
        assert forall|j: int| 0 <= j < t.local.len() implies #[trigger] t.local[j] == (f + size)
            + (t.local.len() - 1 - j) * size by {
            assert(0 <= (k - j) * size <= k * size) by (nonlinear_arith)
                requires 0 <= j < k, size > 0;
            assert(f + (k - j) * size == (f + size) + (k - 1 - j) * size) by (nonlinear_arith);
            assert(f + (k - j) * size < s0.end());
        }
        assert(t.local.len() * size + t.reserve == s0.reserve - (m + 1) * size) by (nonlinear_arith)
            requires
                t.local.len() == k,
                t.reserve == s.reserve - size - k * size,
                s.reserve == s0.reserve - m * size;
    }
}

/// Prefix of a run of allocations: after `i` of them, the first
/// `min(i, R / S)` blocks are handed out.
proof fn lemma_run_prefix(states: Seq<PageView>, results: Seq<Option<usize>>, i: int)
    requires
        run_of_allocations(states, results),
        0 <= i <= results.len(),
    ensures
        after_run(states[0], states[i], min_int(i, states[0].reserve / states[0].object_size)),
    decreases i,
{
    let s0 = states[0];
    let q = s0.reserve / s0.object_size;
    assert(0 <= s0.reserve - q * s0.object_size < s0.object_size) by (nonlinear_arith)
        requires q == s0.reserve / s0.object_size, s0.object_size > 0, s0.reserve >= 0;
    if i == 0 {
        assert(q >= 0) by (nonlinear_arith)
            requires q == s0.reserve / s0.object_size, s0.object_size > 0, s0.reserve >= 0;
    } else {
        lemma_run_prefix(states, results, i - 1);
        let m = min_int(i - 1, q);
        lemma_run_step(s0, states[i - 1], m);
        assert((states[i], results[i - 1]) == states[i - 1].alloc_step());
        if m < q {
            assert(s0.reserve - m * s0.object_size >= s0.object_size) by (nonlinear_arith)
                requires m < q, s0.reserve - q * s0.object_size >= 0, s0.object_size > 0;
        } else {
            assert(s0.reserve - m * s0.object_size < s0.object_size);
        }
    }
}

/// The smaller of two integers.
pub open spec fn min_int(a: int, b: int) -> int {
    if a <= b {
        a
    } else {
        b
    }
}

/// `results` are what successive calls of `allocate` return on the pages
/// `states`, starting from a well-formed page of object size `S > 0` whose
/// free lists are empty, with nothing released in between.
pub open spec fn run_of_allocations(states: Seq<PageView>, results: Seq<Option<usize>>) -> bool {
    &&& states.len() == results.len() + 1
    &&& states[0].wf()
    &&& states[0].object_size > 0
    &&& states[0].local.len() == 0
    &&& states[0].foreign.len() == 0
    &&& forall|i: int|
        0 <= i < results.len() ==> (states[i + 1], #[trigger] results[i]) == states[i].alloc_step()
}

/// Allocations on a freshly committed page with object size `S` and reserve
/// `R`, with no block released in between, hand out consecutive blocks of `S`
/// bytes from the reserve's start: the `i`th call succeeds exactly when
/// `i < R / S`, its block lies in the page, and no two blocks overlap.
pub proof fn lemma_no_overlap(states: Seq<PageView>, results: Seq<Option<usize>>)
    requires
        run_of_allocations(states, results),
    ensures
        forall|i: int|
            0 <= i < results.len() ==> (#[trigger] results[i] is Some <==> i < states[0].reserve
                / states[0].object_size),
        forall|i: int|
            0 <= i < results.len() && #[trigger] results[i] is Some ==> {
                &&& results[i]->0 == states[0].frontier() + i * states[0].object_size
                &&& states[0].frontier() <= results[i]->0
                &&& results[i]->0 + states[0].object_size <= states[0].end()
            },
        forall|i: int, j: int|
            0 <= i < results.len() && 0 <= j < results.len() && i != j && #[trigger] results[i] is Some
                && #[trigger] results[j] is Some ==> results[i]->0 + states[0].object_size
                <= results[j]->0 || results[j]->0 + states[0].object_size <= results[i]->0,
{
    let s0 = states[0];
    let size = s0.object_size;
    let q = s0.reserve / size;
    assert(q * size <= s0.reserve) by (nonlinear_arith)
        requires q == s0.reserve / size, size > 0, s0.reserve >= 0;
    assert forall|i: int| 0 <= i < results.len() implies {
        &&& (#[trigger] results[i] is Some <==> i < q)
        &&& results[i] is Some ==> {
            &&& results[i]->0 == s0.frontier() + i * size
            &&& s0.frontier() <= results[i]->0
            &&& results[i]->0 + size <= s0.end()
        }
    } by {
        lemma_run_prefix(states, results, i);
        let m = min_int(i, q);
        lemma_run_step(s0, states[i], m);
        assert((states[i + 1], results[i]) == states[i].alloc_step());
        if i < q {
            assert(s0.reserve - i * size >= size) by (nonlinear_arith)
                requires i < q, q * size <= s0.reserve, size > 0;
            assert(0 <= i * size) by (nonlinear_arith) requires i >= 0, size > 0;
            assert(s0.frontier() == s0.end() - s0.reserve);
        } else {
            assert(s0.reserve - q * size < size) by (nonlinear_arith)
                requires q == s0.reserve / size, size > 0, s0.reserve >= 0;
        }
    }
    assert forall|i: int, j: int|
        0 <= i < results.len() && 0 <= j < results.len() && i != j && #[trigger] results[i] is Some
            && #[trigger] results[j] is Some implies results[i]->0 + size <= results[j]->0
            || results[j]->0 + size <= results[i]->0 by {
        if i < j {
            assert(i * size + size <= j * size) by (nonlinear_arith) requires i < j, size > 0;
        } else {
            assert(j * size + size <= i * size) by (nonlinear_arith) requires j < i, size > 0;
        }
    }
}

/// A block that `allocate` hands out lies in the page.
pub proof fn lemma_allocated_in_page(s: PageView)
    requires
        s.wf(),
        s.object_size > 0,
    ensures
        s.alloc_step().1 matches Some(p) ==> s.holds(p),
{
    if s.local.len() > 0 {
        assert(s.holds(s.local[s.local.len() - 1]));
    } else if s.foreign.len() > 0 {
        assert(s.holds(s.foreign[s.foreign.len() - 1]));
    } else if s.reserve >= s.object_size {
        assert(s.end() - s.start() == PAGE_SIZE) by (nonlinear_arith)
            requires s.start() == s.arena_base + s.page_number * PAGE_SIZE,
                s.end() == s.arena_base + (s.page_number + 1) * PAGE_SIZE;
        assert(s.end() <= usize::MAX + 1) by (nonlinear_arith)
            requires
                s.end() == s.arena_base + (s.page_number + 1) * PAGE_SIZE,
                s.arena_base + ARENA_SIZE <= usize::MAX + 1,
                0 <= s.page_number < PAGES_PER_ARENA;
        assert(s.start() >= 0) by (nonlinear_arith)
            requires s.start() == s.arena_base + s.page_number * PAGE_SIZE, s.arena_base >= 0, s.page_number >= 0;
    }
}

/// A block allocated from page `i` and released at once by the owner is the
/// block that the next allocation from that page hands out, and that
/// allocation leaves the page as the first one left it.
pub proof fn lemma_lifo_reuse(a: ArenaView, i: int)
    requires
        a.wf(),
        0 <= i < PAGES_PER_ARENA,
        a.pages[i].object_size > 0,
        a.pages[i].alloc_step().1 is Some,
    ensures
        ({
            let (page, r) = a.pages[i].alloc_step();
            let p = r->0;
            let b = ArenaView { pages: a.pages.update(i, page), ..a }.release_local(p);
            &&& arena_of(p as int) == a.base
            &&& page_index_of(p as int) == i
            &&& b.pages[i].alloc_step() == (page, r)
        }),
{
    let (page, r) = a.pages[i].alloc_step();
    let p = r->0;
    lemma_allocated_in_page(a.pages[i]);
    lemma_decode(a.base, i, p as int);
    let b = ArenaView { pages: a.pages.update(i, page), ..a }.release_local(p);
    assert(b.pages[i].local.drop_last() =~= page.local);
}

/// A block released by a heap that does not own the arena goes on the foreign
/// list and not on the local one. While the local list holds blocks,
/// allocation hands those out and leaves the block on the foreign list; the
/// first allocation that finds the local list empty drains the foreign list,
/// hands out the block, and makes every other drained block available on the
/// local list.
pub proof fn lemma_foreign_deferred(s: PageView, b: usize)
    requires
        !s.local.contains(b),
    ensures
        !s.push_foreign(b).local.contains(b),
        s.local.len() > 0 ==> {
            &&& s.push_foreign(b).alloc_step().1 == Some(s.local.last())
            &&& s.push_foreign(b).alloc_step().1 != Some(b)
            &&& s.push_foreign(b).alloc_step().0.foreign == s.foreign.push(b)
        },
        s.local.len() == 0 ==> {
            &&& s.push_foreign(b).alloc_step().1 == Some(b)
            &&& s.push_foreign(b).alloc_step().0.local == s.foreign
            &&& s.push_foreign(b).alloc_step().0.foreign.len() == 0
        },
{
    let t = s.push_foreign(b);
    if s.local.len() > 0 {
        assert(s.local.contains(s.local[s.local.len() - 1]));
    } else {
        assert(t.foreign.drop_last() =~= s.foreign);
    }
}

/// The pages of an arena that carry a forward link.
pub open spec fn linked_pages(a: ArenaView) -> Set<int> {
    Set::new(|i: int| 0 <= i < PAGES_PER_ARENA && a.pages[i].next_page is Some)
}

/// A new arena's chain of unused pages runs from page 1 to the last page:
/// `P - 2` links, each from a page to the page that follows it in the same
/// arena, and the last page has none.
pub proof fn lemma_free_chain(a: ArenaView, base: int, owner: Option<HeapId>)
    requires
        a.fresh(base, owner),
    ensures
        linked_pages(a) == vstd::set_lib::set_int_range(1, PAGES_PER_ARENA - 1),
        linked_pages(a).len() == PAGES_PER_ARENA - 2,
        a.pages[PAGES_PER_ARENA - 1].next_page is None,
        forall|i: int|
            #![trigger a.pages[i]]
            1 <= i < PAGES_PER_ARENA - 1 ==> {
                &&& a.pages[i].next_page matches Some(n) && arena_of(n as int) == base
                    && page_index_of(n as int) == i + 1
            },
{
    assert(linked_pages(a) =~= vstd::set_lib::set_int_range(1, PAGES_PER_ARENA - 1));
    vstd::set_lib::lemma_int_range(1, PAGES_PER_ARENA - 1);
    assert forall|i: int|
        #![trigger a.pages[i]]
        1 <= i < PAGES_PER_ARENA - 1 implies {
            &&& a.pages[i].next_page matches Some(n) && arena_of(n as int) == base
                && page_index_of(n as int) == i + 1
        } by {
        assert(page_start(base, i + 1) < page_start(base, i + 2) <= base + ARENA_SIZE) by (nonlinear_arith)
            requires 1 <= i < PAGES_PER_ARENA - 1;
        assert(0 <= page_start(base, i + 1)) by (nonlinear_arith)
            requires 1 <= i, base >= 0;
        lemma_decode(base, i + 1, page_start(base, i + 1));
    }
}

} // verus!
