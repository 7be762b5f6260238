//! A paged column: a sparse vector kept as fixed-size pages of optional cells.

use vstd::prelude::*;

verus! {

/// A sparse vector organised as pages of `N` optional cells each.
///
/// Reading any index is allowed: an index beyond the allocated pages reads as
/// empty. Writing grows the page vector when the index lies beyond it. Pages
/// are only ever appended, never moved or dropped.
pub struct BlockVec<T, const N: usize> {
    /// One more than the highest index written so far, or zero.
    number_of_items: usize,
    /// The pages, each holding exactly `N` cells.
    blocks: Vec<Vec<Option<T>>>,
}

/// The failure of a bounded read: the index lies beyond the allocated pages.
#[derive(Clone, Copy, Debug, PartialEq, Eq, Structural)]
pub struct OutOfBounds;

/// The page that holds `index` when every page holds `n` cells.
pub open spec fn page_of(index: int, n: int) -> int {
    index / n
}

/// The offset of `index` inside its page when every page holds `n` cells.
pub open spec fn offset_of(index: int, n: int) -> int {
    index % n
}

/// Page and offset address each index once: they rebuild it, and the offset
/// stays inside the page.
pub proof fn lemma_page_offset(index: int, n: int)
    requires
        0 <= index,
        0 < n,
    ensures
        0 <= offset_of(index, n) < n,
        0 <= page_of(index, n) <= index,
        index == page_of(index, n) * n + offset_of(index, n),
{
    assert(index == (index / n) * n + index % n && 0 <= index % n < n && 0 <= index / n <= index)
        by (nonlinear_arith)
        requires
            0 <= index,
            0 < n,
    ;
}

/// An index lies inside the first `pages` pages exactly when its page does.
pub proof fn lemma_page_bound(index: int, n: int, pages: int)
    requires
        0 <= index,
        0 < n,
        0 <= pages,
    ensures
        index < pages * n <==> page_of(index, n) < pages,
{
    assert((index < pages * n) <==> (index / n < pages)) by (nonlinear_arith)
        requires
            0 <= index,
            0 < n,
            0 <= pages,
    ;
}

impl<T, const N: usize> BlockVec<T, N> {
    /// The structural invariant: at least one page, every page of exactly `N`
    /// cells, and no cell written at or beyond the logical length.
    pub closed spec fn wf(&self) -> bool {
        &&& N > 0
        &&& self.blocks@.len() >= 1
        &&& forall|p: int|
            0 <= p < self.blocks@.len() ==> (#[trigger] self.blocks@[p])@.len() == N
        &&& self.number_of_items <= self.blocks@.len() * N
        &&& forall|i: int|
            self.number_of_items <= i < self.blocks@.len() * N ==> (#[trigger] self.cell(
                i,
            )) is None
    }

    /// The number of allocated pages.
    pub closed spec fn pages(&self) -> nat {
        self.blocks@.len()
    }

    /// One more than the highest index written so far, or zero.
    pub closed spec fn logical_len(&self) -> nat {
        self.number_of_items as nat
    }

    /// The cell at `index`; empty at and beyond the allocated range.
    pub closed spec fn cell(&self, index: int) -> Option<T> {
        if 0 <= index < self.blocks@.len() * N {
            self.blocks@[page_of(index, N as int)]@[offset_of(index, N as int)]
        } else {
            None
        }
    }

    /// Whether `index` lies inside the allocated pages.
    pub open spec fn allocated(&self, index: int) -> bool {
        0 <= index < self.pages() * N
    }

    /// What the structural invariant gives to users of the column: a positive
    /// page size, at least one page, a logical length inside the allocated
    /// range, and only empty cells from the logical length on.
    pub proof fn lemma_wf(&self)
        requires
            self.wf(),
        ensures
            N > 0,
            self.pages() >= 1,
            self.logical_len() <= self.pages() * N,
            forall|i: int| i >= self.logical_len() ==> (#[trigger] self.cell(i)) is None,
            forall|i: int| !self.allocated(i) ==> (#[trigger] self.cell(i)) is None,
    {
    }

    /// Creates a column of one empty page.
    pub fn new() -> (v: Self)
        requires
            N > 0,
        ensures
            v.wf(),
            v.pages() == 1,
            v.logical_len() == 0,
            forall|i: int| (#[trigger] v.cell(i)) is None,
    {
        let mut new_self = Self { number_of_items: 0, blocks: Vec::new() };
        let page = Self::empty_page();
        new_self.blocks.push(page);
        proof {
            assert(new_self.blocks@.len() == 1);
            assert(new_self.blocks@[0] == page);
            assert forall|i: int| (#[trigger] new_self.cell(i)) is None by {
                if 0 <= i {
                    lemma_page_offset(i, N as int);
                    lemma_page_bound(i, N as int, 1);
                }
            }
        }
        new_self
    }

    /// Builds one page of `N` empty cells.
    fn empty_page() -> (page: Vec<Option<T>>)
        ensures
            page@.len() == N,
            forall|k: int| 0 <= k < N ==> (#[trigger] page@[k]) is None,
    {
        let mut page: Vec<Option<T>> = Vec::new();
        let mut k: usize = 0;
        while k < N
            invariant
                k <= N,
                page@.len() == k,
                forall|j: int| 0 <= j < k ==> (#[trigger] page@[j]) is None,
            decreases N - k,
        {
            page.push(None);
            k += 1;
        }
        page
    }

    /// Returns the page that holds `index`.
    pub fn block_for_index(index: usize) -> (page: usize)
        requires
            N > 0,
        ensures
            page == page_of(index as int, N as int),
    {
        proof {
            lemma_page_offset(index as int, N as int);
        }
        index / N
    }

    /// Returns the offset of `index` inside its page.
    pub fn corrected_index(index: usize) -> (offset: usize)
        requires
            N > 0,
        ensures
            offset == offset_of(index as int, N as int),
            offset < N,
    {
        proof {
            lemma_page_offset(index as int, N as int);
        }
        index % N
    }

    /// Returns the logical length: one more than the highest index written
    /// so far, or zero.
    pub fn len(&self) -> (n: usize)
        ensures
            n == self.logical_len(),
    {
        self.number_of_items
    }

    /// Returns the number of allocated pages.
    pub fn blocks_len(&self) -> (n: usize)
        ensures
            n == self.pages(),
    {
        self.blocks.len()
    }

    /// Appends `num_of_blocks` empty pages. No cell changes.
    pub fn append_empty_blocks(&mut self, num_of_blocks: usize)
        requires
            old(self).wf(),
        ensures
            final(self).wf(),
            final(self).pages() == old(self).pages() + num_of_blocks,
            final(self).logical_len() == old(self).logical_len(),
            forall|i: int| (#[trigger] final(self).cell(i)) == old(self).cell(i),
    {
        let mut done: usize = 0;
        while done < num_of_blocks
            invariant
                done <= num_of_blocks,
                self.wf(),
                self.pages() == old(self).pages() + done,
                self.logical_len() == old(self).logical_len(),
                forall|i: int| (#[trigger] self.cell(i)) == old(self).cell(i),
            decreases num_of_blocks - done,
        {
            let ghost before = *self;
            let page = Self::empty_page();
            self.blocks.push(page);
            done += 1;
            proof {
                assert(self.blocks@[before.blocks@.len() as int] == page);
                assert forall|i: int| (#[trigger] self.cell(i)) == before.cell(i) by {
                    if 0 <= i {
                        lemma_page_offset(i, N as int);
                        lemma_page_bound(i, N as int, self.blocks@.len() as int);
                        lemma_page_bound(i, N as int, before.blocks@.len() as int);
                    }
                }
                assert(self.number_of_items <= self.blocks@.len() * N) by (nonlinear_arith)
                    requires
                        self.number_of_items <= before.blocks@.len() * N,
                        self.blocks@.len() == before.blocks@.len() + 1,
                ;
            }
        }
    }

    /// Writes `item` at `index` and says whether pages had to be appended.
    ///
    /// When the page of `index` is not allocated yet, as many pages are
    /// appended as the number of that page, which always reaches it. The
    /// logical length rises to `index + 1` where it was lower. No other cell
    /// changes.
    pub fn set(&mut self, item: T, index: usize) -> (did_grow: bool)
        requires
            old(self).wf(),
            index < usize::MAX,
        ensures
            final(self).wf(),
            did_grow == !old(self).allocated(index as int),
            final(self).pages() == if did_grow {
                old(self).pages() + page_of(index as int, N as int)
            } else {
                old(self).pages() as int
            },
            final(self).allocated(index as int),
            final(self).cell(index as int) == Some(item),
            forall|i: int| i != index ==> (#[trigger] final(self).cell(i)) == old(self).cell(i),
            final(self).logical_len() == if old(self).logical_len() > index {
                old(self).logical_len() as int
            } else {
                index + 1
            },
    {
        let block_index = Self::block_for_index(index);
        let corrected_index = Self::corrected_index(index);
        proof {
            lemma_page_bound(index as int, N as int, self.blocks@.len() as int);
        }
        let did_grow = block_index >= self.blocks.len();
        if did_grow {
            self.append_empty_blocks(block_index);
        }
        let ghost before = *self;
        proof {
            lemma_page_bound(index as int, N as int, before.blocks@.len() as int);
        }
        self.blocks[block_index][corrected_index] = Some(item);
        if self.number_of_items <= index {
            self.number_of_items = index + 1;
        }
        proof {
            assert(self.blocks@.len() == before.blocks@.len());
            assert forall|p: int| 0 <= p < self.blocks@.len() implies (#[trigger] self.blocks@[p])@.len()
                == N by {
                assert(before.blocks@[p]@.len() == N);
            }
            assert(self.blocks@[block_index as int]@ == before.blocks@[block_index as int]@.update(
                corrected_index as int,
                Some(item),
            ));
            assert(forall|p: int|
                0 <= p < self.blocks@.len() && p != block_index ==> self.blocks@[p]
                    == before.blocks@[p]);
            assert forall|i: int| i != index implies (#[trigger] self.cell(i)) == before.cell(
                i,
            ) by {
                if 0 <= i < self.blocks@.len() * N {
                    lemma_page_offset(i, N as int);
                    lemma_page_offset(index as int, N as int);
                    lemma_page_bound(i, N as int, self.blocks@.len() as int);
                    let p = page_of(i, N as int);
                    let o = offset_of(i, N as int);
                    if p == block_index {
                        assert(o != corrected_index);
                        assert(self.blocks@[p]@[o] == before.blocks@[p]@[o]);
                    } else {
                        assert(self.blocks@[p] == before.blocks@[p]);
                    }
                }
            }
            assert forall|i: int|
                self.number_of_items <= i < self.blocks@.len() * N implies (#[trigger] self.cell(
                i,
            )) is None by {
                assert(before.cell(i) is None);
            }
        }
        did_grow
    }

    /// Returns the cell at `index`; an index beyond the allocated pages reads
    /// as empty. Never allocates.
    pub fn get(&self, index: usize) -> (cell: &Option<T>)
        requires
            self.wf(),
        ensures
            *cell == self.cell(index as int),
    {
        let block_index = Self::block_for_index(index);
        let corrected_index = Self::corrected_index(index);
        proof {
            lemma_page_bound(index as int, N as int, self.blocks@.len() as int);
        }
        if block_index >= self.blocks_len() {
            return &None;
        }
        &self.blocks[block_index][corrected_index]
    }

    /// Returns the content of the cell at `index`, open to change, where the
    /// cell is not empty. What the caller leaves in it is what the cell then
    /// holds; nothing else changes, and nothing is allocated.
    pub fn get_mut(&mut self, index: usize) -> (r: Option<&mut T>)
        requires
            old(self).wf(),
        ensures
            r is Some <==> old(self).cell(index as int) is Some,
            r matches Some(x) ==> {
                &&& Some(*x) == old(self).cell(index as int)
                &&& final(self).wf()
                &&& final(self).pages() == old(self).pages()
                &&& final(self).logical_len() == old(self).logical_len()
                &&& final(self).cell(index as int) == Some(*final(x))
                &&& forall|i: int|
                    i != index ==> (#[trigger] final(self).cell(i)) == old(self).cell(i)
            },
            r is None ==> *final(self) == *old(self),
    {
        let block_index = Self::block_for_index(index);
        let corrected_index = Self::corrected_index(index);
        proof {
            lemma_page_bound(index as int, N as int, self.blocks@.len() as int);
        }
        if block_index >= self.blocks.len() {
            return None;
        }
        if self.blocks[block_index][corrected_index].is_none() {
            return None;
        }
        proof {
            let before = *self;
            assert forall|after: Self, i: int|
                before.differs_at_most_at(after, index as int) && i != index implies (
            #[trigger] after.cell(i)) == before.cell(i) by {
                if 0 <= i < before.blocks@.len() * N {
                    lemma_page_offset(i, N as int);
                    lemma_page_offset(index as int, N as int);
                    lemma_page_bound(i, N as int, before.blocks@.len() as int);
                    let p = page_of(i, N as int);
                    if p != block_index {
                        assert(after.blocks@[p] == before.blocks@[p]);
                    }
                }
            }
        }
        let slot = &mut self.blocks[block_index][corrected_index];
        slot.as_mut()
    }

    /// Whether `after` is `self` but for the content of the cell at `index`.
    closed spec fn differs_at_most_at(&self, after: Self, index: int) -> bool {
        let page = page_of(index, N as int);
        let offset = offset_of(index, N as int);
        &&& after.number_of_items == self.number_of_items
        &&& after.blocks@.len() == self.blocks@.len()
        &&& forall|p: int|
            0 <= p < self.blocks@.len() && p != page ==> (#[trigger] after.blocks@[p])
                == self.blocks@[p]
        &&& after.blocks@[page]@.len() == self.blocks@[page]@.len()
        &&& forall|o: int|
            0 <= o < self.blocks@[page]@.len() && o != offset ==> (
            #[trigger] after.blocks@[page]@[o]) == self.blocks@[page]@[o]
    }

    /// Returns the cell at `index`, or fails when `index` lies beyond the
    /// allocated pages: a writer learns from the failure that the slot is
    /// missing, not merely empty.
    pub fn get_in_bounds(&self, index: usize) -> (r: Result<&Option<T>, OutOfBounds>)
        requires
            self.wf(),
        ensures
            r is Ok <==> self.allocated(index as int),
            r matches Ok(cell) ==> *cell == self.cell(index as int),
    {
        let block_index = Self::block_for_index(index);
        let corrected_index = Self::corrected_index(index);
        proof {
            lemma_page_bound(index as int, N as int, self.blocks@.len() as int);
        }
        if block_index >= self.blocks_len() {
            return Err(OutOfBounds);
        }
        Ok(&self.blocks[block_index][corrected_index])
    }
}

/// The largest page count among the first `upto` columns of `vecs`, and zero
/// where there is none.
pub open spec fn max_pages<T, const N: usize>(vecs: Seq<&mut BlockVec<T, N>>, upto: int) -> nat
    decreases upto,
{
    if upto <= 0 {
        0
    } else {
        let rest = max_pages(vecs, upto - 1);
        if vecs[upto - 1].pages() > rest {
            vecs[upto - 1].pages()
        } else {
            rest
        }
    }
}

/// The largest page count bounds every column's, and is the count of one of
/// them where there is a column at all.
pub proof fn lemma_max_pages<T, const N: usize>(vecs: Seq<&mut BlockVec<T, N>>, upto: int)
    requires
        0 <= upto <= vecs.len(),
    ensures
        forall|k: int| #![trigger vecs[k]] 0 <= k < upto ==> vecs[k].pages() <= max_pages(vecs, upto),
        upto > 0 ==> exists|k: int| #![trigger vecs[k]] 0 <= k < upto && vecs[k].pages() == max_pages(vecs, upto),
    decreases upto,
{
    if upto > 0 {
        lemma_max_pages(vecs, upto - 1);
        if vecs[upto - 1].pages() >= max_pages(vecs, upto - 1) {
            assert(vecs[upto - 1].pages() == max_pages(vecs, upto));
        } else {
            let w = choose|k: int|
                #![trigger vecs[k]]
                0 <= k < upto - 1 && vecs[k].pages() == max_pages(vecs, upto - 1);
            assert(0 <= w < upto && vecs[w].pages() == max_pages(vecs, upto));
        }
    }
}

/// Pads every column with empty pages up to the page count of the largest.
/// No cell and no logical length changes.
pub fn sync_mem_to_biggest<T, const N: usize>(vecs: Vec<&mut BlockVec<T, N>>)
    requires
        forall|k: int| #![trigger vecs@[k]] 0 <= k < vecs@.len() ==> vecs@[k].wf(),
    ensures
        forall|k: int|
            #![trigger vecs@[k]]
            0 <= k < vecs@.len() ==> {
                &&& final(vecs@[k]).wf()
                &&& final(vecs@[k]).pages() == max_pages(vecs@, vecs@.len() as int)
                &&& final(vecs@[k]).logical_len() == vecs@[k].logical_len()
                &&& forall|i: int| (#[trigger] final(vecs@[k]).cell(i)) == vecs@[k].cell(i)
            },
{
    let mut biggest: usize = 0;
    let mut k: usize = 0;
    while k < vecs.len()
        invariant
            k <= vecs@.len(),
            biggest == max_pages(vecs@, k as int),
        decreases vecs@.len() - k,
    {
        let n = vecs[k].blocks_len();
        if biggest < n {
            biggest = n;
        }
        k += 1;
    }
    let ghost orig = vecs@;
    proof {
        lemma_max_pages(orig, orig.len() as int);
    }
    let mut vecs = vecs;
    let mut j: usize = 0;
    while j < vecs.len()
        invariant
            j <= vecs@.len(),
            vecs@.len() == orig.len(),
            biggest == max_pages(orig, orig.len() as int),
            forall|k: int| #![trigger orig[k]] 0 <= k < orig.len() ==> orig[k].pages() <= biggest,
            forall|k: int|
                #![trigger vecs@[k]]
                0 <= k < vecs@.len() ==> {
                    &&& *final(vecs@[k]) == *final(orig[k])
                    &&& vecs@[k].wf()
                    &&& vecs@[k].logical_len() == orig[k].logical_len()
                    &&& forall|i: int| (#[trigger] vecs@[k].cell(i)) == orig[k].cell(i)
                },
            forall|k: int| #![trigger vecs@[k]] 0 <= k < j ==> vecs@[k].pages() == biggest,
            forall|k: int| #![trigger vecs@[k]] j <= k < vecs@.len() ==> vecs@[k].pages() == orig[k].pages(),
        decreases vecs@.len() - j,
    {
        let n = vecs[j].blocks_len();
        assert(orig[j as int].pages() <= biggest);
        vecs[j].append_empty_blocks(biggest - n);
        j += 1;
    }
    proof {
        assert(has_resolved(vecs));
        assert forall|k: int| #![trigger orig[k]] 0 <= k < orig.len() implies {
            &&& final(orig[k]).wf()
            &&& final(orig[k]).pages() == biggest
            &&& final(orig[k]).logical_len() == orig[k].logical_len()
            &&& forall|i: int| (#[trigger] final(orig[k]).cell(i)) == orig[k].cell(i)
        } by {
            assert(has_resolved(vecs@[k]));
            assert(*vecs@[k] == *final(vecs@[k]));
        }
    }
}

} // verus!
