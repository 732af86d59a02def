use bfscript::{CompileError, Div, Generator, MemoryPool, Mul};

#[test]
fn allocations_are_disjoint() {
    let mut pool = MemoryPool::new();
    let a = pool.allocate(3);
    let b = pool.allocate(1);
    let c = pool.allocate(4);
    assert_eq!((a, b, c), (0, 3, 4));
    assert_eq!(pool.current, 8);
    pool.free(b);
    let d = pool.allocate(2);
    assert_eq!(d, 8);
    let e = pool.allocate(1);
    assert_eq!(e, b);
    let f = pool.allocate(1);
    assert_eq!(f, 10);
}

#[test]
fn live_blocks_stay_apart_through_other_work() {
    let mut pool = MemoryPool::new();
    let held = pool.allocate(3);
    let other = pool.allocate(2);
    pool.set(held + 1, 9);
    pool.dirty(other);
    pool.free(other);
    pool.free(other + 1);
    pool.set_used(other);
    pool.cloud(7);
    pool.clean(7);
    let single = pool.allocate(1);
    let wide = pool.allocate(4);
    assert_eq!((held, other, single, wide), (0, 3, 4, 8));
    for cell in held..held + 3 {
        assert!(pool.is_used(cell));
        assert!(cell != single && !(wide..wide + 4).contains(&cell));
    }
    assert_eq!(pool.get(held + 1), 9);
}

#[test]
fn freed_cells_come_back_last_first() {
    let mut pool = MemoryPool::new();
    pool.allocate(5);
    pool.free(1);
    pool.free(3);
    assert_eq!(pool.free, vec![1, 3]);
    assert_eq!(pool.allocate(1), 3);
    assert_eq!(pool.allocate(1), 1);
    assert_eq!(pool.allocate(1), 5);
}

#[test]
fn freeing_twice_changes_nothing() {
    let mut pool = MemoryPool::new();
    pool.allocate(2);
    pool.free(1);
    pool.free(1);
    pool.free(9);
    assert_eq!(pool.free, vec![1]);
    assert_eq!(pool.used, vec![0]);
    assert!(pool.is_used(0));
    assert!(!pool.is_used(1));
    assert!(!pool.is_used(9));
}

#[test]
fn multi_cell_requests_are_never_served_from_the_free_list() {
    let mut pool = MemoryPool::new();
    pool.allocate(3);
    pool.free(0);
    pool.free(1);
    assert_eq!(pool.allocate(2), 3);
    assert_eq!(pool.allocate(0), 5);
    assert_eq!(pool.current, 5);
}

#[test]
fn set_materializes_and_cleans() {
    let mut pool = MemoryPool::new();
    pool.set(3, 7);
    assert_eq!(pool.cells, vec![0, 0, 0, 7]);
    assert_eq!(pool.current, 4);
    pool.dirty(3);
    assert!(pool.is_dirty(3));
    assert_eq!(pool.get_raw(3), 7);
    pool.set(3, 8);
    assert!(!pool.is_dirty(3));
    assert_eq!(pool.get(3), 8);
    pool.dirty(2);
    pool.clean(2);
    assert!(!pool.is_dirty(2));
    assert!(!pool.is_dirty(100));
}

#[test]
fn dirty_cell_cannot_be_read() {
    let mut pool = MemoryPool::new();
    pool.allocate(2);
    pool.set(1, 4);
    assert_eq!(pool.checked_get(1), Ok(4));
    pool.dirty(1);
    assert_eq!(pool.checked_get(1), Err(CompileError::DirtyCell));
    assert_eq!(pool.checked_get(2), Err(CompileError::UnallocatedCell));
    pool.free(1);
    assert!(!pool.is_dirty(1));
    assert_eq!(pool.checked_get(1), Err(CompileError::UnallocatedCell));
    assert_eq!(pool.get_raw(1), 4);
}

#[test]
fn released_cell_is_not_marked_dirty() {
    let mut pool = MemoryPool::new();
    pool.allocate(2);
    pool.dirty(0);
    pool.dirty(0);
    assert_eq!(pool.runtime, vec![0]);
    pool.free(0);
    assert!(!pool.is_dirty(0));
    assert_eq!(pool.runtime, Vec::<usize>::new());
    assert_eq!(pool.checked_get(0), Err(CompileError::UnallocatedCell));
    pool.set_used(0);
    assert_eq!(pool.free, Vec::<usize>::new());
    assert_eq!(pool.checked_get(0), Ok(0));
    pool.dirty(0);
    assert!(pool.is_dirty(0));
    pool.set_used(0);
    pool.set_used(7);
    assert_eq!(pool.used, vec![1, 0]);
}

#[test]
fn allocation_leaves_other_cells_alone() {
    let mut pool = MemoryPool::new();
    pool.allocate(3);
    pool.set(0, 9);
    pool.set(2, 4);
    pool.dirty(2);
    pool.free(1);
    let again = pool.allocate(1);
    let fresh = pool.allocate(2);
    assert_eq!((again, fresh), (1, 3));
    assert_eq!(pool.cells, vec![9, 0, 4, 0, 0]);
    assert_eq!(pool.runtime, vec![2]);
    assert_eq!(pool.used, vec![0, 2, 1, 3, 4]);
    let copy = pool.duplicate();
    assert_eq!((copy.cells, copy.used, copy.free, copy.runtime, copy.current), (
        vec![9, 0, 4, 0, 0],
        vec![0, 2, 1, 3, 4],
        vec![],
        vec![2],
        5
    ));
}

#[test]
fn cloud_materializes_and_marks() {
    let mut pool = MemoryPool::new();
    pool.cloud(2);
    assert_eq!(pool.current, 3);
    assert!(pool.is_dirty(2));
    assert!(pool.is_blank(1));
    assert!(!pool.is_blank(2));
    assert!(pool.is_blank(50));
}

#[test]
fn blocks_are_reserved_once() {
    let mut gen = Generator::new();
    gen.memory.allocate(2);
    let mut mul = Mul::new(0, 1);
    assert_eq!(mul.result(&mut gen), 5);
    assert_eq!(mul.result(&mut gen), 5);
    assert_eq!(mul.block, Some(2));
    assert_eq!(gen.memory.current, 6);
    let mut div = Div::new(0, 1);
    assert_eq!(div.result(&mut gen), 11);
    assert_eq!(gen.memory.current, 12);
    div.clean(&mut gen);
    assert_eq!(gen.memory.free, vec![6, 8, 9, 10]);
    assert_eq!(gen.indent(), "");
    gen.indent = 3;
    assert_eq!(gen.indent(), "\t\t\t");
}

#[test]
fn cell_arithmetic_wraps() {
    assert_eq!(bfscript::memory::cell_add(255, 2), 1);
    assert_eq!(bfscript::memory::cell_add(200, 55), 255);
    assert_eq!(bfscript::memory::cell_sub(1, 2), 255);
    assert_eq!(bfscript::memory::cell_sub(9, 9), 0);
    assert_eq!(bfscript::memory::cell_mul(16, 16), 0);
    assert_eq!(bfscript::memory::cell_mul(6, 7), 42);
    assert_eq!(bfscript::memory::cell_mul(255, 255), 1);
}
