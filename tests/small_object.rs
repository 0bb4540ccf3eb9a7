use emma::{
    SmallObjectArena, SmallObjectPage, AFFINE_METADATA_ZONE_SIZE, ARENA_SIZE, METADATA_ZONE_SIZE,
    PAGES_PER_ARENA, PAGE_SIZE,
};

const BASE: usize = 0x4000_0000;

fn new_arena(owner: Option<u64>) -> SmallObjectArena {
    let (arena, _, _, _) = SmallObjectPage::from_new_arena(Some(BASE), owner).unwrap();
    arena
}

#[test]
fn geometry_constants() {
    assert_eq!(PAGES_PER_ARENA, 32);
    assert_eq!(ARENA_SIZE, 4 * 1024 * 1024);
    assert_eq!(PAGE_SIZE, 128 * 1024);
    assert_eq!(METADATA_ZONE_SIZE, 1024);
    assert_eq!(AFFINE_METADATA_ZONE_SIZE, 2048);
}

#[test]
fn decoding_masks_address() {
    assert_eq!(SmallObjectArena::arena(BASE), BASE);
    assert_eq!(SmallObjectArena::arena(BASE + 12345), BASE);
    assert_eq!(SmallObjectArena::arena(BASE + ARENA_SIZE as usize - 1), BASE);
    assert_eq!(SmallObjectArena::arena(BASE + ARENA_SIZE as usize), BASE + ARENA_SIZE as usize);
    assert_eq!(SmallObjectPage::page_id(BASE), 0);
    assert_eq!(SmallObjectPage::page_id(BASE + 3 * PAGE_SIZE as usize + 5), 3);
    assert_eq!(SmallObjectPage::page_id(BASE + ARENA_SIZE as usize - 1), 31);
    assert_eq!(SmallObjectPage::page_id(BASE + ARENA_SIZE as usize), 0);
}

#[test]
fn failed_reservation_gives_none() {
    assert!(SmallObjectPage::from_new_arena(None, None).is_none());
    assert!(SmallObjectPage::from_new_arena(None, Some(7)).is_none());
}

#[test]
fn chain_construction() {
    let (arena, first, head, tail) = SmallObjectPage::from_new_arena(Some(BASE), None).unwrap();
    let page = PAGE_SIZE as usize;
    assert_eq!(arena.base(), BASE);
    assert_eq!(arena.owner(), None);
    assert_eq!(first, BASE);
    assert_eq!(head, BASE + page);
    assert_eq!(tail, BASE + 31 * page);
    assert_eq!(arena.page(0).next_page, None);
    assert_eq!(arena.page(0).bytes_in_reserve(), 130048);
    let mut links = 0;
    let mut cur = head;
    loop {
        let i = SmallObjectPage::page_id(cur);
        assert_eq!(SmallObjectArena::arena(cur), BASE);
        let p = arena.page(i);
        assert_eq!(p.page_number() as usize, i);
        assert_eq!(p.object_size, 0);
        assert_eq!(p.bytes_in_reserve(), PAGE_SIZE);
        match p.next_page {
            Some(next) => {
                assert_eq!(next, cur + page);
                links += 1;
                cur = next;
            }
            None => break,
        }
    }
    assert_eq!(cur, tail);
    assert_eq!(links, PAGES_PER_ARENA as usize - 2);
}

#[test]
fn thread_affine_arena_has_larger_metadata_zone() {
    let arena = new_arena(Some(3));
    assert_eq!(arena.owner(), Some(3));
    assert_eq!(arena.page(0).bytes_in_reserve(), 129024);
    assert_eq!(arena.page(1).bytes_in_reserve(), PAGE_SIZE);
}

#[test]
fn page_zero_exhausts_after_2032_blocks() {
    let mut arena = new_arena(None);
    let page = arena.page_mut(0);
    page.commit(64);
    assert_eq!(page.bytes_in_reserve(), 130048);
    for i in 0..2032usize {
        let p = page.allocate();
        assert_eq!(p, Some(BASE + 1024 + 64 * i), "allocation {}", i);
    }
    assert_eq!(page.allocate(), None);
    assert_eq!(page.allocate(), None);
}

#[test]
fn allocations_are_disjoint_and_decode_to_their_page() {
    let mut arena = new_arena(None);
    let page = arena.page_mut(5);
    page.commit(48);
    let mut got = Vec::new();
    while let Some(p) = page.allocate() {
        got.push(p);
    }
    assert_eq!(got.len(), (PAGE_SIZE / 48) as usize);
    for (i, p) in got.iter().enumerate() {
        assert_eq!(*p, BASE + 5 * PAGE_SIZE as usize + 48 * i);
        assert_eq!(SmallObjectArena::arena(*p), BASE);
        assert_eq!(SmallObjectPage::page_id(*p), 5);
    }
}

#[test]
fn first_carve_prelinks_the_rest_of_the_sub_region() {
    let mut arena = new_arena(None);
    let page = arena.page_mut(1);
    page.commit(64);
    assert_eq!(page.allocate(), Some(BASE + PAGE_SIZE as usize));
    // 63 further blocks fill the first 4096-byte sub-region.
    assert_eq!(page.bytes_in_reserve(), PAGE_SIZE - 4096);
    for i in 1..64usize {
        assert_eq!(page.allocate(), Some(BASE + PAGE_SIZE as usize + 64 * i));
        assert_eq!(page.bytes_in_reserve(), PAGE_SIZE - 4096);
    }
    assert_eq!(page.allocate(), Some(BASE + PAGE_SIZE as usize + 4096));
    assert_eq!(page.bytes_in_reserve(), PAGE_SIZE - 8192);
}

#[test]
fn large_objects_prelink_nothing() {
    let mut arena = new_arena(None);
    let page = arena.page_mut(2);
    page.commit(3000);
    let start = BASE + 2 * PAGE_SIZE as usize;
    assert_eq!(page.allocate(), Some(start));
    assert_eq!(page.bytes_in_reserve(), PAGE_SIZE - 3000);
    assert_eq!(page.allocate(), Some(start + 3000));
    assert_eq!(page.bytes_in_reserve(), PAGE_SIZE - 6000);
}

#[test]
fn exhausted_when_reserve_short_of_one_block() {
    let mut arena = new_arena(None);
    let page = arena.page_mut(3);
    page.commit(PAGE_SIZE + 1);
    assert_eq!(page.allocate(), None);
    assert_eq!(page.bytes_in_reserve(), PAGE_SIZE);
}

#[test]
fn lifo_local_reuse() {
    let mut arena = new_arena(None);
    arena.page_mut(4).commit(128);
    let a = arena.page_mut(4).allocate().unwrap();
    let b = arena.page_mut(4).allocate().unwrap();
    assert_ne!(a, b);
    SmallObjectPage::dealloc(&mut arena, a);
    assert_eq!(arena.page_mut(4).allocate(), Some(a));
    SmallObjectPage::dealloc(&mut arena, b);
    SmallObjectPage::dealloc(&mut arena, a);
    assert_eq!(arena.page_mut(4).allocate(), Some(a));
    assert_eq!(arena.page_mut(4).allocate(), Some(b));
}

#[test]
fn lifo_reuse_on_owner_path() {
    let mut arena = new_arena(Some(9));
    arena.page_mut(6).commit(256);
    let a = arena.page_mut(6).allocate().unwrap();
    SmallObjectPage::dealloc_from(&mut arena, 9, a);
    assert_eq!(arena.page_mut(6).allocate(), Some(a));
}

#[test]
fn reused_block_with_no_reserve_left() {
    let mut arena = new_arena(None);
    let page = arena.page_mut(7);
    page.commit(PAGE_SIZE);
    let a = page.allocate().unwrap();
    assert_eq!(page.allocate(), None);
    SmallObjectPage::dealloc(&mut arena, a);
    assert_eq!(arena.page_mut(7).allocate(), Some(a));
    assert_eq!(arena.page_mut(7).allocate(), None);
}

#[test]
fn foreign_free_is_deferred_until_local_list_drains() {
    let mut arena = new_arena(Some(1));
    arena.page_mut(8).commit(1024);
    let start = BASE + 8 * PAGE_SIZE as usize;
    // The first carve hands out one block and pre-links three more.
    let a = arena.page_mut(8).allocate().unwrap();
    assert_eq!(a, start);
    SmallObjectPage::dealloc_from(&mut arena, 2, a);
    for i in 1..4usize {
        assert_eq!(arena.page_mut(8).allocate(), Some(start + 1024 * i));
    }
    // The local list is empty now: this call drains the foreign list.
    assert_eq!(arena.page_mut(8).allocate(), Some(a));
    assert_eq!(arena.page_mut(8).allocate(), Some(start + 4096));
}

#[test]
fn drained_foreign_blocks_become_local() {
    let mut arena = new_arena(Some(1));
    arena.page_mut(9).commit(PAGE_SIZE / 4);
    let a = arena.page_mut(9).allocate().unwrap();
    let b = arena.page_mut(9).allocate().unwrap();
    let c = arena.page_mut(9).allocate().unwrap();
    SmallObjectPage::dealloc_from(&mut arena, 5, a);
    SmallObjectPage::dealloc_from(&mut arena, 6, b);
    SmallObjectPage::dealloc_from(&mut arena, 7, c);
    assert_eq!(arena.page_mut(9).allocate(), Some(c));
    assert_eq!(arena.page_mut(9).allocate(), Some(b));
    assert_eq!(arena.page_mut(9).allocate(), Some(a));
    let d = arena.page_mut(9).allocate().unwrap();
    assert_eq!(d, BASE + 9 * PAGE_SIZE as usize + 3 * (PAGE_SIZE / 4) as usize);
    assert_eq!(arena.page_mut(9).allocate(), None);
}

#[test]
fn single_owner_arena_routes_dealloc_from_to_foreign_list() {
    let mut arena = new_arena(None);
    arena.page_mut(10).commit(PAGE_SIZE / 2);
    let a = arena.page_mut(10).allocate().unwrap();
    SmallObjectPage::dealloc_from(&mut arena, 1, a);
    // The foreign list is drained before the reserve is carved again.
    assert_eq!(arena.page_mut(10).allocate(), Some(a));
    assert_eq!(arena.page_mut(10).allocate(), Some(a + (PAGE_SIZE / 2) as usize));
    assert_eq!(arena.page_mut(10).allocate(), None);
}
