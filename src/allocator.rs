use vstd::prelude::*;

verus! {

/// Bytes of the header in front of each block, which records the block's size.
pub const HEADER_SIZE: usize = 8;

/// The bookkeeping of the allocation hooks: for each block handed out, the size its header
/// records, or `None` once freed; and the total of the sizes requested for live blocks.
pub struct AllocShim {
    blocks: Vec<Option<usize>>,
    total: usize,
}

/// The sum of the requested sizes of the live blocks, given the sizes their headers record.
pub open spec fn live_total(bs: Seq<Option<usize>>) -> nat
    decreases bs.len(),
{
    if bs.len() == 0 {
        0
    } else {
        live_total(bs.drop_last()) + match bs.last() {
            Some(h) => (h - HEADER_SIZE) as nat,
            None => 0nat,
        }
    }
}

pub open spec fn requested(b: Option<usize>) -> nat {
    match b {
        Some(h) => (h - HEADER_SIZE) as nat,
        None => 0nat,
    }
}

proof fn lemma_live_total_update(bs: Seq<Option<usize>>, i: int, x: Option<usize>)
    requires
        0 <= i < bs.len(),
        forall|k: int| 0 <= k < bs.len() ==> (#[trigger] bs[k] matches Some(h) ==> h >= HEADER_SIZE),
        x matches Some(h) ==> h >= HEADER_SIZE,
    ensures
        live_total(bs.update(i, x)) + requested(bs[i]) == live_total(bs) + requested(x),
    decreases bs.len(),
{
    if i < bs.len() - 1 {
        assert(bs.update(i, x).drop_last() =~= bs.drop_last().update(i, x));
        lemma_live_total_update(bs.drop_last(), i, x);
    } else {
        assert(bs.update(i, x).drop_last() =~= bs.drop_last());
    }
}

proof fn lemma_live_total_push(bs: Seq<Option<usize>>, x: Option<usize>)
    ensures
        live_total(bs.push(x)) == live_total(bs) + requested(x),
{
    assert(bs.push(x).drop_last() =~= bs);
}

impl AllocShim {
    pub closed spec fn blocks(&self) -> Seq<Option<usize>> {
        self.blocks@
    }

    /// The total of the sizes requested for live blocks.
    pub closed spec fn spec_total(&self) -> nat {
        self.total as nat
    }

    /// Every recorded header covers at least itself, and the total is the sum over live blocks.
    pub closed spec fn wf(&self) -> bool {
        &&& forall|k: int| 0 <= k < self.blocks@.len() ==> (#[trigger] self.blocks@[k] matches Some(h) ==> h >= HEADER_SIZE)
        &&& self.total as nat == live_total(self.blocks@)
    }

    /// No blocks yet.
    pub fn new() -> (r: AllocShim)
        ensures
            r.wf(),
            r.blocks().len() == 0,
            r.spec_total() == 0,
    {
        AllocShim { blocks: Vec::new(), total: 0 }
    }

    /// The total of the sizes requested for the blocks that are live.
    pub fn total_bytes(&self) -> (r: usize)
        requires
            self.wf(),
        ensures
            r == self.spec_total(),
            r == live_total(self.blocks()),
    {
        self.total
    }

    /// The size that the header of `block` records: the requested size plus the header, while
    /// the block is live.
    pub fn header_size(&self, block: usize) -> (r: Option<usize>)
        ensures
            r == if block < self.blocks().len() {
                self.blocks()[block as int]
            } else {
                None
            },
    {
        if block < self.blocks.len() {
            self.blocks[block]
        } else {
            None
        }
    }

    /// Hands out a new block of `size` bytes; its header records `size` plus the header.
    pub fn allocate(&mut self, size: usize) -> (r: usize)
        requires
            old(self).wf(),
            size <= usize::MAX - HEADER_SIZE,
            old(self).spec_total() + size <= usize::MAX,
        ensures
            final(self).wf(),
            r == old(self).blocks().len(),
            final(self).blocks() == old(self).blocks().push(Some((size + HEADER_SIZE) as usize)),
            final(self).spec_total() == old(self).spec_total() + size,
    {
        let r = self.blocks.len();
        proof {
            lemma_live_total_push(self.blocks@, Some((size + HEADER_SIZE) as usize));
        }
        self.blocks.push(Some(size + HEADER_SIZE));
        self.total = self.total + size;
        r
    }

    /// Resizes `block` to `size` bytes, or allocates a new block where there is none; returns
    /// the block, whose header then records `size` plus the header.
    pub fn realloc(&mut self, block: Option<usize>, size: usize) -> (r: usize)
        requires
            old(self).wf(),
            size <= usize::MAX - HEADER_SIZE,
            old(self).spec_total() + size <= usize::MAX,
            block matches Some(b) ==> b < old(self).blocks().len() && old(self).blocks()[b as int] is Some,
        ensures
            final(self).wf(),
            match block {
                Some(b) => r == b && final(self).blocks() == old(self).blocks().update(
                    b as int,
                    Some((size + HEADER_SIZE) as usize),
                ) && final(self).spec_total() == old(self).spec_total() - requested(
                    old(self).blocks()[b as int],
                ) + size,
                None => r == old(self).blocks().len() && final(self).blocks() == old(self).blocks().push(
                    Some((size + HEADER_SIZE) as usize),
                ) && final(self).spec_total() == old(self).spec_total() + size,
            },
    {
        match block {
            None => self.allocate(size),
            Some(b) => {
                let old_header = self.blocks[b].unwrap();
                proof {
                    lemma_live_total_update(self.blocks@, b as int, Some((size + HEADER_SIZE) as usize));
                    lemma_live_total_update(self.blocks@, b as int, None);
                    assert(live_total(self.blocks@) >= requested(self.blocks@[b as int]));
                }
                self.blocks.set(b, Some(size + HEADER_SIZE));
                self.total = self.total - (old_header - HEADER_SIZE) + size;
                b
            },
        }
    }

    /// Releases `block`, where there is one.
    pub fn free(&mut self, block: Option<usize>)
        requires
            old(self).wf(),
            block matches Some(b) ==> b < old(self).blocks().len() && old(self).blocks()[b as int] is Some,
        ensures
            final(self).wf(),
            match block {
                Some(b) => final(self).blocks() == old(self).blocks().update(b as int, None)
                    && final(self).spec_total() == old(self).spec_total() - requested(old(self).blocks()[b as int]),
                None => final(self).blocks() == old(self).blocks() && final(self).spec_total() == old(self).spec_total(),
            },
    {
        match block {
            None => {},
            Some(b) => {
                let old_header = self.blocks[b].unwrap();
                proof {
                    lemma_live_total_update(self.blocks@, b as int, None);
                }
                self.blocks.set(b, None);
                self.total = self.total - (old_header - HEADER_SIZE);
            },
        }
    }

    /// Releases every live block, as destroying the heap does: whatever sequence of
    /// allocations, resizes and releases came before, the total is zero afterwards.
    pub fn release_all(&mut self)
        requires
            old(self).wf(),
        ensures
            final(self).wf(),
            final(self).spec_total() == 0,
            final(self).blocks().len() == old(self).blocks().len(),
            forall|k: int| 0 <= k < final(self).blocks().len() ==> #[trigger] final(self).blocks()[k] is None,
    {
        let n = self.blocks.len();
        let mut i: usize = 0;
        while i < n
            invariant
                self.wf(),
                n == self.blocks@.len(),
                i <= n,
                forall|k: int| 0 <= k < i ==> #[trigger] self.blocks@[k] is None,
            decreases n - i,
        {
            if self.blocks[i].is_some() {
                self.free(Some(i));
            }
            i = i + 1;
        }
        proof {
            lemma_all_free(self.blocks@);
        }
    }
}

proof fn lemma_all_free(bs: Seq<Option<usize>>)
    requires
        forall|k: int| 0 <= k < bs.len() ==> #[trigger] bs[k] is None,
    ensures
        live_total(bs) == 0,
    decreases bs.len(),
{
    if bs.len() > 0 {
        lemma_all_free(bs.drop_last());
    }
}

} // verus!
