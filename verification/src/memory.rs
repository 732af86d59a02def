//! The compile-time model of the tape: which cells are allocated, which values
//! are known, and where the head stands.

use crate::error::CompileError;
use vstd::prelude::*;

verus! {

/// The value held by one tape cell.
pub type CellSize = u8;

/// Number of distinct cell values; all cell arithmetic wraps modulo this.
pub open spec fn cell_modulus() -> int {
    0x100
}

/// The cell value that an unbounded integer wraps to.
pub open spec fn wrap(v: int) -> CellSize {
    (v % cell_modulus()) as CellSize
}

/// `a + b` on cells.
pub fn cell_add(a: CellSize, b: CellSize) -> (r: CellSize)
    ensures
        r == wrap(a + b),
{
    let wide: u16 = a as u16 + b as u16;
    (wide % 0x100u16) as CellSize
}

/// `a - b` on cells.
pub fn cell_sub(a: CellSize, b: CellSize) -> (r: CellSize)
    ensures
        r == wrap(a - b),
{
    if a >= b {
        a - b
    } else {
        let wide: u16 = 0x100u16 - (b as u16) + (a as u16);
        wide as CellSize
    }
}

/// `a * b` on cells.
pub fn cell_mul(a: CellSize, b: CellSize) -> (r: CellSize)
    ensures
        r == wrap(a * b),
{
    assert(0 <= a * b <= 0xff * 0xff) by (nonlinear_arith)
        requires
            0 <= a <= 0xff,
            0 <= b <= 0xff,
    ;
    let wide: u16 = (a as u16) * (b as u16);
    (wide % 0x100u16) as CellSize
}

/// Mathematical state of a [`MemoryPool`].
///
/// The three sequences `cells`, `used` and `runtime` run in parallel over the
/// materialized part of the tape: `used[i]` tells whether cell `i` is
/// allocated, `runtime[i]` whether its value is unknown. `free` lists the
/// released cells, the most recently released one last.
pub struct PoolModel {
    pub cells: Seq<CellSize>,
    pub used: Seq<bool>,
    pub free: Seq<usize>,
    pub runtime: Seq<bool>,
}

impl PoolModel {
    /// The pool before anything was allocated.
    pub open spec fn empty() -> PoolModel {
        PoolModel { cells: Seq::empty(), used: Seq::empty(), free: Seq::empty(), runtime: Seq::empty() }
    }

    /// The high-water mark: the next fresh index.
    pub open spec fn current(self) -> int {
        self.cells.len() as int
    }

    /// The three parallel sequences have one length, only allocated cells are
    /// marked as unknown, and the free list holds exactly the materialized
    /// cells that are not allocated, each once.
    pub open spec fn wf(self) -> bool {
        &&& self.cells.len() <= usize::MAX
        &&& self.used.len() == self.cells.len()
        &&& self.runtime.len() == self.cells.len()
        &&& forall|i: int| 0 <= i < self.cells.len() && #[trigger] self.runtime[i] ==> self.used[i]
        &&& self.free.no_duplicates()
        &&& forall|k: int|
            0 <= k < self.free.len() ==> (#[trigger] self.free[k]) < self.cells.len()
                && !self.used[self.free[k] as int]
        &&& forall|i: int|
            0 <= i < self.cells.len() && !(#[trigger] self.used[i]) ==> self.free.contains(i as usize)
    }

    /// The index is currently allocated.
    pub open spec fn is_used(self, i: int) -> bool {
        0 <= i < self.used.len() && self.used[i]
    }

    /// The cell can be written and marked: it is allocated, or it lies above
    /// the materialized tape and will be allocated when it is reached.
    pub open spec fn open_to(self, i: int) -> bool {
        i >= self.cells.len() || self.is_used(i)
    }

    /// The value of the cell is not known at compile time.
    pub open spec fn is_dirty(self, i: int) -> bool {
        0 <= i < self.runtime.len() && self.runtime[i]
    }

    /// The cell is materialized and its value is known.
    pub open spec fn known(self, i: int) -> bool {
        0 <= i < self.cells.len() && !self.is_dirty(i)
    }

    /// The cell is allocated and its value is known: it can be read.
    pub open spec fn readable(self, i: int) -> bool {
        self.is_used(i) && !self.is_dirty(i)
    }

    /// The cell is known to hold zero: it was never materialized, or zero is
    /// its recorded value.
    pub open spec fn blank(self, i: int) -> bool {
        i >= self.cells.len() || (self.known(i) && self.cells[i] == 0)
    }

    /// The pool with `n` fresh cells appended: allocated, zero, value known.
    pub open spec fn grow(self, n: nat) -> PoolModel {
        PoolModel {
            cells: self.cells + Seq::new(n, |i: int| 0u8),
            used: self.used + Seq::new(n, |i: int| true),
            free: self.free,
            runtime: self.runtime + Seq::new(n, |i: int| false),
        }
    }

    /// The pool that has at least `i + 1` cells.
    pub open spec fn reach(self, i: int) -> PoolModel {
        if i < self.cells.len() {
            self
        } else {
            self.grow((i + 1 - self.cells.len()) as nat)
        }
    }

    /// A single cell is served from the free list when there is one.
    pub open spec fn reuses(self, n: nat) -> bool {
        n == 1 && self.free.len() > 0
    }

    /// First index of the block that `allocate(n)` hands out.
    pub open spec fn block_base(self, n: nat) -> int {
        if self.reuses(n) {
            self.free.last() as int
        } else {
            self.current()
        }
    }

    /// The pool after `allocate(n)`.
    pub open spec fn allocate(self, n: nat) -> PoolModel {
        if self.reuses(n) {
            PoolModel {
                used: self.used.update(self.free.last() as int, true),
                free: self.free.drop_last(),
                ..self
            }
        } else {
            self.grow(n)
        }
    }

    /// The pool after `free(i)`.
    pub open spec fn release(self, i: int) -> PoolModel {
        if self.is_used(i) {
            PoolModel {
                used: self.used.update(i, false),
                free: self.free.push(i as usize),
                runtime: self.runtime.update(i, false),
                ..self
            }
        } else {
            self
        }
    }

    /// The pool after `set_used(i)`.
    pub open spec fn claim(self, i: int) -> PoolModel {
        if 0 <= i < self.cells.len() && !self.used[i] {
            PoolModel {
                used: self.used.update(i, true),
                free: self.free.remove(self.free.index_of(i as usize)),
                ..self
            }
        } else {
            self
        }
    }

    /// The pool after `set(i, v)`: the cell is materialized if need be, holds
    /// `v`, and its value is known.
    pub open spec fn store(self, i: int, v: CellSize) -> PoolModel {
        let p = self.reach(i);
        PoolModel { cells: p.cells.update(i, v), runtime: p.runtime.update(i, false), ..p }
    }

    /// The pool after `dirty(i)`: the allocated cell `i` becomes
    /// runtime-unknown. Of a cell that is not allocated nothing is recorded.
    pub open spec fn taint(self, i: int) -> PoolModel {
        if self.is_used(i) {
            PoolModel { runtime: self.runtime.update(i, true), ..self }
        } else {
            self
        }
    }

    /// The pool after `clean(i)`.
    pub open spec fn cleaned(self, i: int) -> PoolModel {
        if 0 <= i < self.runtime.len() {
            PoolModel { runtime: self.runtime.update(i, false), ..self }
        } else {
            self
        }
    }

    /// The pool in which cell `i` is materialized and, if allocated, unknown.
    pub open spec fn cloud(self, i: int) -> PoolModel {
        self.reach(i).taint(i)
    }

    /// Fresh cells keep the pool well-formed.
    pub proof fn lemma_grow_wf(self, n: nat)
        requires
            self.wf(),
            self.cells.len() + n <= usize::MAX,
        ensures
            self.grow(n).wf(),
            self.grow(n).cells.len() == self.cells.len() + n,
    {
        let g = self.grow(n);
        assert forall|i: int| 0 <= i < g.cells.len() && !(#[trigger] g.used[i]) implies g.free.contains(
            i as usize,
        ) by {
            assert(i < self.cells.len());
            assert(!self.used[i]);
        }
        assert forall|i: int| 0 <= i < g.cells.len() && #[trigger] g.runtime[i] implies g.used[i] by {
            if i < self.cells.len() {
                assert(self.runtime[i]);
            }
        }
    }

    /// Materializing the tape up to a cell keeps the pool well-formed.
    pub proof fn lemma_reach_wf(self, i: int)
        requires
            self.wf(),
            0 <= i < usize::MAX,
        ensures
            self.reach(i).wf(),
            self.reach(i).cells.len() > i,
            self.reach(i).cells.len() >= self.cells.len(),
    {
        if i >= self.cells.len() {
            self.lemma_grow_wf((i + 1 - self.cells.len()) as nat);
        }
    }

    /// An allocation keeps the pool well-formed.
    pub proof fn lemma_allocate_wf(self, n: nat)
        requires
            self.wf(),
            self.cells.len() + n <= usize::MAX,
        ensures
            self.allocate(n).wf(),
    {
        if self.reuses(n) {
            let a = self.allocate(n);
            let c = self.free.last();
            assert(self.free[self.free.len() - 1] == c);
            assert forall|i: int| 0 <= i < a.cells.len() && !(#[trigger] a.used[i]) implies a.free.contains(
                i as usize,
            ) by {
                assert(!self.used[i]);
                let k = choose|k: int| 0 <= k < self.free.len() && self.free[k] == i as usize;
                assert(k < self.free.len() - 1);
                assert(a.free[k] == i as usize);
            }
            assert forall|k: int| 0 <= k < a.free.len() implies (#[trigger] a.free[k]) < a.cells.len()
                && !a.used[a.free[k] as int] by {
                assert(a.free[k] == self.free[k]);
            }
            assert forall|i: int| 0 <= i < a.cells.len() && #[trigger] a.runtime[i] implies a.used[i] by {
                assert(self.runtime[i]);
            }
        } else {
            self.lemma_grow_wf(n);
        }
    }

    /// A release keeps the pool well-formed.
    pub proof fn lemma_release_wf(self, i: int)
        requires
            self.wf(),
        ensures
            self.release(i).wf(),
    {
        if self.is_used(i) {
            let r = self.release(i);
            assert forall|j: int| 0 <= j < r.cells.len() && !(#[trigger] r.used[j]) implies r.free.contains(
                j as usize,
            ) by {
                if j == i {
                    assert(r.free[self.free.len() as int] == i as usize);
                } else {
                    assert(!self.used[j]);
                    let k = choose|k: int| 0 <= k < self.free.len() && self.free[k] == j as usize;
                    assert(r.free[k] == j as usize);
                }
            }
            assert forall|k: int| 0 <= k < r.free.len() implies (#[trigger] r.free[k]) < r.cells.len()
                && !r.used[r.free[k] as int] by {
                if k < self.free.len() {
                    assert(r.free[k] == self.free[k]);
                }
            }
            assert forall|j: int| 0 <= j < r.cells.len() && #[trigger] r.runtime[j] implies r.used[j] by {
                assert(self.runtime[j]);
            }
            assert forall|a: int, b: int| 0 <= a < r.free.len() && 0 <= b < r.free.len() && a != b implies r.free[a]
                != r.free[b] by {
                if a < self.free.len() {
                    assert(r.free[a] == self.free[a]);
                }
                if b < self.free.len() {
                    assert(r.free[b] == self.free[b]);
                }
            }
        }
    }

    /// Taking a released cell back keeps the pool well-formed.
    pub proof fn lemma_claim_wf(self, i: int)
        requires
            self.wf(),
        ensures
            self.claim(i).wf(),
    {
        if 0 <= i < self.cells.len() && !self.used[i] {
            let c = self.claim(i);
            let at = self.free.index_of(i as usize);
            assert(self.free.contains(i as usize));
            assert(0 <= at < self.free.len() && self.free[at] == i as usize);
            assert forall|k: int| 0 <= k < c.free.len() implies (#[trigger] c.free[k]) < c.cells.len()
                && !c.used[c.free[k] as int] by {
                if k < at {
                    assert(c.free[k] == self.free[k]);
                } else {
                    assert(c.free[k] == self.free[k + 1]);
                }
            }
            assert forall|j: int| 0 <= j < c.cells.len() && !(#[trigger] c.used[j]) implies c.free.contains(
                j as usize,
            ) by {
                assert(j != i);
                assert(!self.used[j]);
                let k = choose|k: int| 0 <= k < self.free.len() && self.free[k] == j as usize;
                assert(k != at);
                if k < at {
                    assert(c.free[k] == j as usize);
                } else {
                    assert(c.free[k - 1] == self.free[k]);
                }
            }
            assert forall|j: int| 0 <= j < c.cells.len() && #[trigger] c.runtime[j] implies c.used[j] by {
                assert(self.runtime[j]);
            }
            assert forall|a: int, b: int| 0 <= a < c.free.len() && 0 <= b < c.free.len() && a != b implies c.free[a]
                != c.free[b] by {
                let a0 = if a < at { a } else { a + 1 };
                let b0 = if b < at { b } else { b + 1 };
                assert(c.free[a] == self.free[a0]);
                assert(c.free[b] == self.free[b0]);
            }
        }
    }

    /// A write keeps the pool well-formed and never shrinks it.
    pub proof fn lemma_store_wf(self, i: int, v: CellSize)
        requires
            self.wf(),
            0 <= i < usize::MAX,
        ensures
            self.store(i, v).wf(),
            self.store(i, v).cells.len() > i,
            self.store(i, v).cells.len() >= self.cells.len(),
    {
        self.lemma_reach_wf(i);
        let p = self.reach(i);
        let s = self.store(i, v);
        assert forall|j: int| 0 <= j < s.cells.len() && #[trigger] s.runtime[j] implies s.used[j] by {
            assert(p.runtime[j]);
        }
    }

    /// Marking a cell as unknown keeps the pool well-formed.
    pub proof fn lemma_taint_wf(self, i: int)
        requires
            self.wf(),
        ensures
            self.taint(i).wf(),
            self.taint(i).cells.len() == self.cells.len(),
    {
        if self.is_used(i) {
            let t = self.taint(i);
            assert forall|j: int| 0 <= j < t.cells.len() && #[trigger] t.runtime[j] implies t.used[j] by {
                if j != i {
                    assert(self.runtime[j]);
                }
            }
        }
    }

    /// Declaring a cell known keeps the pool well-formed.
    pub proof fn lemma_cleaned_wf(self, i: int)
        requires
            self.wf(),
        ensures
            self.cleaned(i).wf(),
    {
        if 0 <= i < self.runtime.len() {
            let t = self.cleaned(i);
            assert forall|j: int| 0 <= j < t.cells.len() && #[trigger] t.runtime[j] implies t.used[j] by {
                assert(self.runtime[j]);
            }
        }
    }

    /// Materializing a cell and marking it as unknown keeps the pool
    /// well-formed.
    pub proof fn lemma_cloud_wf(self, i: int)
        requires
            self.wf(),
            0 <= i < usize::MAX,
        ensures
            self.cloud(i).wf(),
            self.cloud(i).cells.len() > i,
            self.cloud(i).cells.len() >= self.cells.len(),
    {
        self.lemma_reach_wf(i);
        self.reach(i).lemma_taint_wf(i);
    }
}

/// The flags that a list of cell indices stands for over a tape of `n`
/// cells: a cell is flagged if the list holds its index.
pub open spec fn marks(list: Seq<usize>, n: nat) -> Seq<bool> {
    Seq::new(n, |i: int| list.contains(i as usize))
}

/// A list with one more entry holds what it held and the new entry, and
/// holds nothing twice if it did not and the entry is new.
pub proof fn lemma_push_holds(s: Seq<usize>, x: usize)
    ensures
        forall|c: usize| #[trigger] s.push(x).contains(c) <==> s.contains(c) || c == x,
        s.no_duplicates() && !s.contains(x) ==> s.push(x).no_duplicates(),
{
    let t = s.push(x);
    assert forall|c: usize| #[trigger] t.contains(c) <==> s.contains(c) || c == x by {
        if s.contains(c) {
            let k = choose|k: int| 0 <= k < s.len() && s[k] == c;
            assert(t[k] == c);
        }
        if c == x {
            assert(t[s.len() as int] == c);
        }
        if t.contains(c) {
            let k = choose|k: int| 0 <= k < t.len() && t[k] == c;
            if k < s.len() {
                assert(s[k] == c);
            }
        }
    }
    if s.no_duplicates() && !s.contains(x) {
        assert forall|i: int, j: int| 0 <= i < t.len() && 0 <= j < t.len() && i != j implies t[i] != t[j] by {
            if i < s.len() {
                assert(s[i] == t[i]);
            }
            if j < s.len() {
                assert(s[j] == t[j]);
            }
        }
    }
}

/// A list without duplicates from which one entry is taken holds what it
/// held but that entry, and still nothing twice.
pub proof fn lemma_remove_holds(s: Seq<usize>, at: int)
    requires
        s.no_duplicates(),
        0 <= at < s.len(),
    ensures
        forall|c: usize| #[trigger] s.remove(at).contains(c) <==> s.contains(c) && c != s[at],
        s.remove(at).no_duplicates(),
{
    let t = s.remove(at);
    assert forall|c: usize| #[trigger] t.contains(c) <==> s.contains(c) && c != s[at] by {
        if t.contains(c) {
            let k = choose|k: int| 0 <= k < t.len() && t[k] == c;
            if k < at {
                assert(s[k] == c);
            } else {
                assert(s[k + 1] == c);
            }
        }
        if s.contains(c) && c != s[at] {
            let k = choose|k: int| 0 <= k < s.len() && s[k] == c;
            if k < at {
                assert(t[k] == c);
            } else {
                assert(t[k - 1] == c);
            }
        }
    }
    assert forall|i: int, j: int| 0 <= i < t.len() && 0 <= j < t.len() && i != j implies t[i] != t[j] by {
        let i0 = if i < at {
            i
        } else {
            i + 1
        };
        let j0 = if j < at {
            j
        } else {
            j + 1
        };
        assert(t[i] == s[i0] && t[j] == s[j0]);
    }
}

/// The place of `cell` in the list, or the length of the list if it is
/// not there.
pub fn find(list: &Vec<usize>, cell: usize) -> (at: usize)
    ensures
        at <= list@.len(),
        at < list@.len() ==> list@[at as int] == cell,
        at == list@.len() <==> !list@.contains(cell),
{
    let mut k: usize = 0;
    while k < list.len()
        invariant
            k <= list@.len(),
            forall|j: int| 0 <= j < k ==> list@[j] != cell,
        decreases list.len() - k,
    {
        if list[k] == cell {
            return k;
        }
        k = k + 1;
    }
    k
}

/// Whether the list holds `cell`.
pub fn holds(list: &Vec<usize>, cell: usize) -> (found: bool)
    ensures
        found == list@.contains(cell),
{
    find(list, cell) < list.len()
}

/// Takes `cell` out of a list that holds nothing twice.
fn drop_cell(list: &mut Vec<usize>, cell: usize)
    requires
        old(list)@.no_duplicates(),
    ensures
        final(list)@.no_duplicates(),
        forall|c: usize| #[trigger] final(list)@.contains(c) <==> old(list)@.contains(c) && c != cell,
{
    let at = find(list, cell);
    if at < list.len() {
        proof {
            lemma_remove_holds(list@, at as int);
        }
        list.remove(at);
    }
}

/// Puts `cell` into a list that holds nothing twice, unless it is there.
fn note_cell(list: &mut Vec<usize>, cell: usize)
    requires
        old(list)@.no_duplicates(),
    ensures
        final(list)@.no_duplicates(),
        forall|c: usize| #[trigger] final(list)@.contains(c) <==> old(list)@.contains(c) || c == cell,
{
    if !holds(list, cell) {
        proof {
            lemma_push_holds(list@, cell);
        }
        list.push(cell);
    }
}

/// Bump allocator over the tape with per-cell knowledge.
///
/// `cells[i]` is the last value written to cell `i`. `used` lists the cells
/// that are allocated, `runtime` those whose value is unknown at compile
/// time, and `free` the released cells, the most recently released one
/// last. `current` is the next fresh index.
#[derive(Debug)]
pub struct MemoryPool {
    pub cells: Vec<CellSize>,
    pub used: Vec<usize>,
    pub free: Vec<usize>,
    pub runtime: Vec<usize>,
    pub current: usize,
}

impl View for MemoryPool {
    type V = PoolModel;

    open spec fn view(&self) -> PoolModel {
        PoolModel {
            cells: self.cells@,
            used: marks(self.used@, self.cells@.len()),
            free: self.free@,
            runtime: marks(self.runtime@, self.cells@.len()),
        }
    }
}

impl MemoryPool {
    /// The model is well-formed, `current` counts the materialized cells,
    /// and the two lists hold materialized cells only, none twice.
    pub open spec fn wf(&self) -> bool {
        &&& self@.wf()
        &&& self.current == self.cells.len()
        &&& self.used@.no_duplicates()
        &&& self.runtime@.no_duplicates()
        &&& forall|c: usize| #[trigger] self.used@.contains(c) ==> c < self.cells@.len()
        &&& forall|c: usize| #[trigger] self.runtime@.contains(c) ==> c < self.cells@.len()
    }

    pub fn new() -> (pool: MemoryPool)
        ensures
            pool.wf(),
            pool@ == PoolModel::empty(),
    {
        let pool = MemoryPool {
            cells: Vec::new(),
            used: Vec::new(),
            free: Vec::new(),
            runtime: Vec::new(),
            current: 0,
        };
        assert(pool@.used =~= Seq::<bool>::empty());
        assert(pool@.runtime =~= Seq::<bool>::empty());
        pool
    }

    /// Appends `size` fresh cells.
    fn grow(&mut self, size: usize)
        requires
            old(self).wf(),
            old(self).current + size <= usize::MAX,
        ensures
            final(self).wf(),
            final(self)@ == old(self)@.grow(size as nat),
    {
        let ghost from = self.cells@.len();
        let mut done: usize = 0;
        while done < size
            invariant
                done <= size,
                self.current == self.cells.len(),
                from == old(self).cells@.len(),
                old(self).wf(),
                old(self).current + size <= usize::MAX,
                self.cells@ =~= old(self).cells@ + Seq::new(done as nat, |i: int| 0u8),
                self.used@.no_duplicates(),
                forall|c: usize|
                    #[trigger] self.used@.contains(c) <==> old(self).used@.contains(c) || from <= c < from
                        + done,
                self.runtime@ == old(self).runtime@,
                self.free@ == old(self).free@,
            decreases size - done,
        {
            proof {
                lemma_push_holds(self.used@, self.cells.len());
            }
            self.used.push(self.cells.len());
            self.cells.push(0);
            self.current = self.current + 1;
            done = done + 1;
        }
        proof {
            old(self)@.lemma_grow_wf(size as nat);
            assert(self@.used =~= old(self)@.grow(size as nat).used);
            assert(self@.runtime =~= old(self)@.grow(size as nat).runtime);
            assert(self@ =~= old(self)@.grow(size as nat));
        }
    }

    /// Reserves `size` contiguous cells and returns the first index.
    ///
    /// A single cell comes from the free list when one is waiting there, the
    /// most recently released first; every other request is served with
    /// fresh cells above the high-water mark.
    pub fn allocate(&mut self, size: usize) -> (block: usize)
        requires
            old(self).wf(),
            old(self).current + size <= usize::MAX,
        ensures
            final(self).wf(),
            final(self)@ == old(self)@.allocate(size as nat),
            block == old(self)@.block_base(size as nat),
            forall|i: int| block <= i < block + size ==> !old(self)@.is_used(i) && final(self)@.is_used(i),
            forall|i: int| !(block <= i < block + size) ==> old(self)@.is_used(i) == final(self)@.is_used(i),
            forall|i: int|
                0 <= i < old(self)@.cells.len() ==> final(self)@.cells[i] == old(self)@.cells[i]
                    && final(self)@.is_dirty(i) == old(self)@.is_dirty(i),
    {
        proof {
            old(self)@.lemma_allocate_wf(size as nat);
        }
        if size == 1 && self.free.len() > 0 {
            let cell = self.free.pop().unwrap();
            assert(old(self)@.free[old(self)@.free.len() - 1] == cell);
            assert(!old(self)@.used[cell as int]);
            proof {
                lemma_push_holds(self.used@, cell);
            }
            self.used.push(cell);
            assert(self@.used =~= old(self)@.allocate(size as nat).used);
            assert(self@ =~= old(self)@.allocate(size as nat));
            return cell;
        }
        let block = self.current;
        self.grow(size);
        block
    }

    /// Releases one cell: it is no longer allocated, its dirtiness is
    /// cleared and it becomes the first candidate for reuse. Releasing a cell
    /// that is not allocated changes nothing.
    pub fn free(&mut self, cell: usize)
        requires
            old(self).wf(),
        ensures
            final(self).wf(),
            final(self)@ == old(self)@.release(cell as int),
    {
        proof {
            old(self)@.lemma_release_wf(cell as int);
        }
        if holds(&self.used, cell) {
            drop_cell(&mut self.used, cell);
            self.free.push(cell);
            drop_cell(&mut self.runtime, cell);
            assert(self@.used =~= old(self)@.release(cell as int).used);
            assert(self@.runtime =~= old(self)@.release(cell as int).runtime);
            assert(self@ =~= old(self)@.release(cell as int));
        }
    }

    /// Takes a released cell back into use without going through `allocate`.
    pub fn set_used(&mut self, cell: usize)
        requires
            old(self).wf(),
        ensures
            final(self).wf(),
            final(self)@ == old(self)@.claim(cell as int),
    {
        proof {
            old(self)@.lemma_claim_wf(cell as int);
        }
        if cell < self.cells.len() && !holds(&self.used, cell) {
            assert(!self@.used[cell as int]);
            assert(self@.free.contains(cell));
            let at = find(&self.free, cell);
            proof {
                let want = self@.free.index_of(cell);
                assert(0 <= want < self.free.len() && self.free[want] == cell);
                assert(want == at);
                lemma_push_holds(self.used@, cell);
            }
            self.free.remove(at);
            self.used.push(cell);
            assert(self@.used =~= old(self)@.claim(cell as int).used);
            assert(self@ =~= old(self)@.claim(cell as int));
        }
    }

    /// Records `value` as the known content of `cell`, materializing the
    /// tape up to `cell` if need be. A write restores compile-time knowledge.
    pub fn set(&mut self, cell: usize, value: CellSize)
        requires
            old(self).wf(),
            cell < usize::MAX,
        ensures
            final(self).wf(),
            final(self)@ == old(self)@.store(cell as int, value),
    {
        proof {
            old(self)@.lemma_store_wf(cell as int, value);
            old(self)@.lemma_reach_wf(cell as int);
        }
        if cell >= self.cells.len() {
            let missing = cell - self.cells.len() + 1;
            self.grow(missing);
        }
        let ghost reached = self@;
        self.cells[cell] = value;
        drop_cell(&mut self.runtime, cell);
        assert(self@.used =~= reached.used);
        assert(self@.runtime =~= reached.runtime.update(cell as int, false));
        assert(self@ =~= old(self)@.store(cell as int, value));
    }

    /// The known value of an allocated cell: what was last written to it,
    /// zero if nothing was.
    pub fn get(&self, cell: usize) -> (value: CellSize)
        requires
            self.wf(),
            self@.readable(cell as int),
        ensures
            value == self@.cells[cell as int],
    {
        self.cells[cell]
    }

    /// The known value of `cell`, or the reason why there is none.
    pub fn checked_get(&self, cell: usize) -> (r: Result<CellSize, CompileError>)
        requires
            self.wf(),
        ensures
            !self@.is_used(cell as int) ==> r == Err::<CellSize, CompileError>(CompileError::UnallocatedCell),
            self@.is_dirty(cell as int) ==> r == Err::<CellSize, CompileError>(CompileError::DirtyCell),
            self@.readable(cell as int) ==> r == Ok::<CellSize, CompileError>(self@.cells[cell as int]),
    {
        if !self.is_used(cell) {
            return Err(CompileError::UnallocatedCell);
        }
        if self.is_dirty(cell) {
            return Err(CompileError::DirtyCell);
        }
        Ok(self.cells[cell])
    }

    /// The last value recorded for `cell`, whether it is still valid or not.
    pub fn get_raw(&self, cell: usize) -> (value: CellSize)
        requires
            self.wf(),
            cell < self@.cells.len(),
        ensures
            value == self@.cells[cell as int],
    {
        self.cells[cell]
    }

    /// Marks an allocated cell as runtime-unknown.
    pub fn dirty(&mut self, cell: usize)
        requires
            old(self).wf(),
            old(self)@.is_used(cell as int),
        ensures
            final(self).wf(),
            final(self)@ == old(self)@.taint(cell as int),
            final(self)@.is_dirty(cell as int),
    {
        proof {
            old(self)@.lemma_taint_wf(cell as int);
        }
        note_cell(&mut self.runtime, cell);
        assert(self@.runtime =~= old(self)@.taint(cell as int).runtime);
        assert(self@ =~= old(self)@.taint(cell as int));
    }

    /// Declares the recorded value of `cell` valid again.
    pub fn clean(&mut self, cell: usize)
        requires
            old(self).wf(),
            cell < old(self)@.cells.len(),
        ensures
            final(self).wf(),
            final(self)@ == old(self)@.cleaned(cell as int),
    {
        proof {
            old(self)@.lemma_cleaned_wf(cell as int);
        }
        drop_cell(&mut self.runtime, cell);
        assert(self@.runtime =~= old(self)@.cleaned(cell as int).runtime);
        assert(self@ =~= old(self)@.cleaned(cell as int));
    }

    /// Whether `cell` is allocated.
    pub fn is_used(&self, cell: usize) -> (flag: bool)
        requires
            self.wf(),
        ensures
            flag == self@.is_used(cell as int),
    {
        holds(&self.used, cell)
    }

    /// Whether the value of `cell` is unknown at compile time.
    pub fn is_dirty(&self, cell: usize) -> (flag: bool)
        requires
            self.wf(),
        ensures
            flag == self@.is_dirty(cell as int),
    {
        holds(&self.runtime, cell)
    }

    /// Whether `cell` is known to hold zero.
    pub fn is_blank(&self, cell: usize) -> (flag: bool)
        requires
            self.wf(),
            self@.open_to(cell as int),
        ensures
            flag == self@.blank(cell as int),
    {
        cell >= self.cells.len() || (!self.is_dirty(cell) && self.cells[cell] == 0)
    }

    /// Materializes `cell` if need be and marks it runtime-unknown.
    pub fn cloud(&mut self, cell: usize)
        requires
            old(self).wf(),
            cell < usize::MAX,
            old(self)@.open_to(cell as int),
        ensures
            final(self).wf(),
            final(self)@ == old(self)@.cloud(cell as int),
            final(self)@.is_dirty(cell as int),
    {
        proof {
            old(self)@.lemma_reach_wf(cell as int);
        }
        if cell >= self.cells.len() {
            let missing = cell - self.cells.len() + 1;
            self.grow(missing);
        }
        self.dirty(cell);
    }
}

/// A copy of a list of cell indices.
pub fn copy_indices(v: &Vec<usize>) -> (r: Vec<usize>)
    ensures
        r@ == v@,
{
    let mut r: Vec<usize> = Vec::new();
    let mut k: usize = 0;
    while k < v.len()
        invariant
            k <= v.len(),
            r@ =~= v@.take(k as int),
        decreases v.len() - k,
    {
        r.push(v[k]);
        k = k + 1;
    }
    assert(v@.take(v.len() as int) =~= v@);
    r
}

/// A copy of a vector of cell values.
pub fn copy_cells(v: &Vec<CellSize>) -> (r: Vec<CellSize>)
    ensures
        r@ == v@,
{
    let mut r: Vec<CellSize> = Vec::new();
    let mut k: usize = 0;
    while k < v.len()
        invariant
            k <= v.len(),
            r@ =~= v@.take(k as int),
        decreases v.len() - k,
    {
        r.push(v[k]);
        k = k + 1;
    }
    assert(v@.take(v.len() as int) =~= v@);
    r
}

impl MemoryPool {
    /// A pool in the same state.
    pub fn duplicate(&self) -> (pool: MemoryPool)
        ensures
            pool@ == self@,
            pool.wf() == self.wf(),
    {
        MemoryPool {
            cells: copy_cells(&self.cells),
            used: copy_indices(&self.used),
            free: copy_indices(&self.free),
            runtime: copy_indices(&self.runtime),
            current: self.current,
        }
    }
}

/// Mathematical state of a [`Generator`].
pub struct GeneratorModel {
    pub cell: usize,
    pub indent: usize,
    pub memory: PoolModel,
}

impl GeneratorModel {
    /// The same generator with the head on `cell`.
    pub open spec fn at(self, cell: usize) -> GeneratorModel {
        GeneratorModel { cell, ..self }
    }

    /// The same generator over another pool.
    pub open spec fn with(self, memory: PoolModel) -> GeneratorModel {
        GeneratorModel { memory, ..self }
    }
}

/// The compile-time machine: where the head stands after everything emitted
/// so far, how deep emitted text is indented, and what is known of the cells.
#[derive(Debug)]
pub struct Generator {
    pub cell: usize,
    pub indent: usize,
    pub memory: MemoryPool,
}

impl View for Generator {
    type V = GeneratorModel;

    open spec fn view(&self) -> GeneratorModel {
        GeneratorModel { cell: self.cell, indent: self.indent, memory: self.memory@ }
    }
}

impl Generator {
    /// The pool of the generator is well-formed.
    pub open spec fn wf(&self) -> bool {
        self.memory.wf()
    }

    pub fn new() -> (gen: Generator)
        ensures
            gen.wf(),
            gen@ == (GeneratorModel { cell: 0, indent: 0, memory: PoolModel::empty() }),
    {
        Generator { cell: 0, indent: 0, memory: MemoryPool::new() }
    }
}

impl Generator {
    /// A generator in the same state.
    pub fn duplicate(&self) -> (gen: Generator)
        ensures
            gen@ == self@,
            gen.wf() == self.wf(),
    {
        Generator { cell: self.cell, indent: self.indent, memory: self.memory.duplicate() }
    }
}

/// Two allocations with no release between them never share a cell.
pub proof fn lemma_allocations_disjoint(pool: PoolModel, first: nat, second: nat, i: int)
    requires
        pool.wf(),
        pool.cells.len() + first <= usize::MAX,
        pool.block_base(first) <= i < pool.block_base(first) + first,
    ensures
        !(pool.allocate(first).block_base(second) <= i < pool.allocate(first).block_base(second) + second),
{
    let mid = pool.allocate(first);
    pool.lemma_allocate_wf(first);
    if mid.reuses(second) {
        let c = mid.free.last();
        assert(mid.free[mid.free.len() - 1] == c);
        assert(!mid.used[c as int]);
        if pool.reuses(first) {
            assert(pool.free[pool.free.len() - 1] == pool.free.last());
        }
    }
}

/// One operation on a pool.
pub enum PoolOp {
    Allocate(nat),
    Release(int),
    Claim(int),
    Store(int, CellSize),
    Taint(int),
    Clean(int),
    Cloud(int),
}

/// Whether the operation releases a cell of the block of `n` cells at
/// `base`.
pub open spec fn lets_go(op: PoolOp, base: int, n: nat) -> bool {
    match op {
        PoolOp::Release(c) => base <= c < base + n,
        _ => false,
    }
}

/// Whether no operation of the run releases a cell of the block of `n`
/// cells at `base`.
pub open spec fn spares(ops: Seq<PoolOp>, base: int, n: nat) -> bool {
    forall|k: int| 0 <= k < ops.len() ==> !lets_go(#[trigger] ops[k], base, n)
}

impl PoolModel {
    /// Whether the tape that the operation asks for fits the machine.
    pub open spec fn admits(self, op: PoolOp) -> bool {
        match op {
            PoolOp::Allocate(n) => self.cells.len() + n <= usize::MAX,
            PoolOp::Store(i, v) => 0 <= i < usize::MAX,
            PoolOp::Cloud(i) => 0 <= i < usize::MAX,
            _ => true,
        }
    }

    /// The pool after one operation.
    pub open spec fn apply(self, op: PoolOp) -> PoolModel {
        match op {
            PoolOp::Allocate(n) => self.allocate(n),
            PoolOp::Release(i) => self.release(i),
            PoolOp::Claim(i) => self.claim(i),
            PoolOp::Store(i, v) => self.store(i, v),
            PoolOp::Taint(i) => self.taint(i),
            PoolOp::Clean(i) => self.cleaned(i),
            PoolOp::Cloud(i) => self.cloud(i),
        }
    }

    /// The pool after a run of operations, the first one first.
    pub open spec fn after(self, ops: Seq<PoolOp>) -> PoolModel
        decreases ops.len(),
    {
        if ops.len() == 0 {
            self
        } else {
            self.after(ops.drop_last()).apply(ops.last())
        }
    }

    /// Whether the machine can carry out each operation of the run in its
    /// turn.
    pub open spec fn admits_all(self, ops: Seq<PoolOp>) -> bool
        decreases ops.len(),
    {
        ops.len() == 0 || (self.admits_all(ops.drop_last()) && self.after(ops.drop_last()).admits(ops.last()))
    }

    /// One operation keeps the pool well-formed, and every allocated cell
    /// that it does not release stays allocated.
    pub proof fn lemma_apply_keeps(self, op: PoolOp, i: int)
        requires
            self.wf(),
            self.admits(op),
        ensures
            self.apply(op).wf(),
            self.is_used(i) && !lets_go(op, i, 1) ==> self.apply(op).is_used(i),
    {
        match op {
            PoolOp::Allocate(n) => {
                self.lemma_allocate_wf(n);
            },
            PoolOp::Release(c) => {
                self.lemma_release_wf(c);
            },
            PoolOp::Claim(c) => {
                self.lemma_claim_wf(c);
            },
            PoolOp::Store(c, v) => {
                self.lemma_store_wf(c, v);
            },
            PoolOp::Taint(c) => {
                self.lemma_taint_wf(c);
            },
            PoolOp::Clean(c) => {
                self.lemma_cleaned_wf(c);
            },
            PoolOp::Cloud(c) => {
                self.lemma_cloud_wf(c);
            },
        }
    }

    /// A run of operations keeps the pool well-formed, and every allocated
    /// cell that none of them releases stays allocated.
    pub proof fn lemma_after_keeps(self, ops: Seq<PoolOp>, i: int)
        requires
            self.wf(),
            self.admits_all(ops),
            self.is_used(i),
            spares(ops, i, 1),
        ensures
            self.after(ops).wf(),
            self.after(ops).is_used(i),
        decreases ops.len(),
    {
        if ops.len() > 0 {
            let front = ops.drop_last();
            assert forall|k: int| 0 <= k < front.len() implies !lets_go(#[trigger] front[k], i, 1) by {
                assert(ops[k] == front[k]);
            }
            assert(ops[ops.len() - 1] == ops.last());
            self.lemma_after_keeps(front, i);
            self.after(front).lemma_apply_keeps(ops.last(), i);
        }
    }

    /// A run of operations keeps the pool well-formed.
    pub proof fn lemma_after_wf(self, ops: Seq<PoolOp>)
        requires
            self.wf(),
            self.admits_all(ops),
        ensures
            self.after(ops).wf(),
        decreases ops.len(),
    {
        if ops.len() > 0 {
            self.lemma_after_wf(ops.drop_last());
            self.after(ops.drop_last()).lemma_apply_keeps(ops.last(), 0);
        }
    }
}

/// Two live allocations share no cell: a block that was handed out, and of
/// which no cell was released since, has no cell in common with a block
/// that is handed out later, whatever was done to the pool in between.
pub proof fn lemma_live_blocks_disjoint(pool: PoolModel, first: nat, ops: Seq<PoolOp>, second: nat, i: int)
    requires
        pool.wf(),
        pool.cells.len() + first <= usize::MAX,
        pool.allocate(first).admits_all(ops),
        spares(ops, pool.block_base(first), first),
    ensures
        pool.allocate(first).after(ops).wf(),
        !(pool.block_base(first) <= i < pool.block_base(first) + first && pool.allocate(first).after(
            ops,
        ).block_base(second) <= i < pool.allocate(first).after(ops).block_base(second) + second),
{
    let held = pool.allocate(first);
    pool.lemma_allocate_wf(first);
    held.lemma_after_wf(ops);
    let mid = held.after(ops);
    if pool.block_base(first) <= i < pool.block_base(first) + first {
        lemma_allocate_takes_unused(pool, first, i);
        assert forall|k: int| 0 <= k < ops.len() implies !lets_go(#[trigger] ops[k], i, 1) by {
            assert(!lets_go(ops[k], pool.block_base(first), first));
        }
        held.lemma_after_keeps(ops, i);
        lemma_allocate_takes_unused(mid, second, i);
    }
}

/// A block handed out by `allocate` is a contiguous run of cells that were
/// not allocated before and are allocated afterwards; no other cell changes
/// hands, and every cell that was there keeps its value and its mark.
pub proof fn lemma_allocate_takes_unused(pool: PoolModel, n: nat, i: int)
    requires
        pool.wf(),
    ensures
        pool.block_base(n) <= i < pool.block_base(n) + n ==> !pool.is_used(i) && pool.allocate(n).is_used(i),
        !(pool.block_base(n) <= i < pool.block_base(n) + n) ==> pool.is_used(i) == pool.allocate(n).is_used(i),
        0 <= i < pool.cells.len() ==> pool.allocate(n).cells[i] == pool.cells[i] && pool.allocate(n).is_dirty(i)
            == pool.is_dirty(i),
{
    if pool.reuses(n) {
        assert(pool.free[pool.free.len() - 1] == pool.free.last());
    }
}

/// A cell that is released and then asked for again with a single-cell
/// request is the cell that comes back.
pub proof fn lemma_free_reuse_lifo(pool: PoolModel, cell: int)
    requires
        pool.wf(),
        pool.is_used(cell),
    ensures
        pool.release(cell).block_base(1) == cell,
        pool.release(cell).allocate(1).free == pool.free,
{
    let r = pool.release(cell);
    assert(r.free.last() == cell as usize);
    assert(r.free.drop_last() =~= pool.free);
}

} // verus!
