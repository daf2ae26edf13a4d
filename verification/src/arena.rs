//! A block-based bump allocator.
//!
//! The arena owns a growing list of byte blocks and hands out [`Region`]s:
//! byte ranges inside one block. Releasing the most recent region rolls the
//! bump offset back; releasing the last live region empties every block while
//! keeping the blocks themselves for reuse.
use vstd::prelude::*;
use vstd::multiset::*;

verus! {

broadcast use vstd::multiset::group_multiset_axioms;

/// A byte range handed out by an [`Arena`]: `len` bytes that start at offset
/// `start` of the block with index `block`.
#[derive(Clone, Copy, PartialEq, Eq, Structural, Debug)]
pub struct Region {
    pub block: usize,
    pub start: usize,
    pub len: usize,
}

impl Region {
    /// The offset one past the last byte of the range.
    pub open spec fn end(self) -> int {
        self.start + self.len
    }

    /// Two ranges share no byte.
    pub open spec fn disjoint(self, other: Region) -> bool {
        self.block != other.block || self.end() <= other.start || other.end() <= self.start
    }

    /// The range lies inside the blocks of `memory`.
    pub open spec fn within(self, memory: Seq<Seq<u8>>) -> bool {
        self.block < memory.len() && self.end() <= memory[self.block as int].len()
    }
}

/// The smallest multiple of `align` that is not below `offset`.
pub open spec fn align_up(offset: int, align: int) -> int {
    if offset % align == 0 {
        offset
    } else {
        offset + (align - offset % align)
    }
}

/// `align_up` lands on a multiple of `align`, at or after `offset` and less
/// than `align` away from it.
pub proof fn lemma_align_up(offset: int, align: int)
    requires
        0 <= offset,
        0 < align,
    ensures
        align_up(offset, align) % align == 0,
        offset <= align_up(offset, align) < offset + align,
{
    let r = offset % align;
    vstd::arithmetic::div_mod::lemma_fundamental_div_mod(offset, align);
    vstd::arithmetic::div_mod::lemma_mod_bound(offset, align);
    if r != 0 {
        let q = offset / align;
        assert(offset + (align - r) == align * (q + 1)) by (nonlinear_arith)
            requires
                offset == align * q + r,
        ;
        vstd::arithmetic::div_mod::lemma_mod_multiples_basic(q + 1, align);
        assert(align * (q + 1) == (q + 1) * align) by (nonlinear_arith);
    }
}

/// The bytes that `memory` holds in the range `r`.
pub open spec fn stored(memory: Seq<Seq<u8>>, r: Region) -> Seq<u8> {
    memory[r.block as int].subrange(r.start as int, r.end())
}

/// `memory` after `bytes` were copied into the range `r`.
pub open spec fn written(memory: Seq<Seq<u8>>, r: Region, bytes: Seq<u8>) -> Seq<Seq<u8>> {
    let block = memory[r.block as int];
    memory.update(
        r.block as int,
        block.subrange(0, r.start as int) + bytes + block.subrange(r.end(), block.len() as int),
    )
}

/// Bytes copied into a range are read back from it unchanged.
pub proof fn lemma_write_then_read(memory: Seq<Seq<u8>>, r: Region, bytes: Seq<u8>)
    requires
        r.within(memory),
        bytes.len() == r.len,
    ensures
        stored(written(memory, r, bytes), r) == bytes,
{
    assert(stored(written(memory, r, bytes), r) =~= bytes);
}

/// Copying bytes into one range leaves every range disjoint from it as it was.
pub proof fn lemma_write_keeps_others(
    memory: Seq<Seq<u8>>,
    r: Region,
    bytes: Seq<u8>,
    other: Region,
)
    requires
        r.within(memory),
        other.within(memory),
        bytes.len() == r.len,
        r.disjoint(other),
    ensures
        other.within(written(memory, r, bytes)),
        stored(written(memory, r, bytes), other) == stored(memory, other),
{
    assert(stored(written(memory, r, bytes), other) =~= stored(memory, other));
}

/// What an arena is, as mathematics.
pub struct ArenaView {
    /// Capacity of a block that is created for ordinary requests.
    pub block_size: usize,
    /// The bytes of each block, in the order the blocks were created.
    pub memory: Seq<Seq<u8>>,
    /// The bump offset of each block.
    pub offsets: Seq<int>,
    /// Index of the block that is bumped into.
    pub current: int,
    /// The region handed out most recently.
    pub last: Region,
    /// The regions handed out and not yet returned.
    pub live: Multiset<Region>,
}

/// Where a request is placed, and the capacity of the block created for it,
/// if one is.
pub open spec fn placement(pre: ArenaView, size: usize, align: usize) -> (Region, Option<int>) {
    let blocks = pre.memory.len();
    if size > pre.block_size {
        (Region { block: blocks as usize, start: 0, len: size }, Some(size as int))
    } else if blocks == 0 {
        (Region { block: 0, start: 0, len: size }, Some(pre.block_size as int))
    } else {
        let aligned = align_up(pre.offsets[pre.current], align as int);
        if aligned + size <= pre.memory[pre.current].len() {
            (Region { block: pre.current as usize, start: aligned as usize, len: size }, None)
        } else if pre.current + 1 < blocks {
            (Region { block: (pre.current + 1) as usize, start: 0, len: size }, None)
        } else {
            (Region { block: blocks as usize, start: 0, len: size }, Some(pre.block_size as int))
        }
    }
}

/// `post` is `pre` after a request for `size` bytes aligned to `align` was
/// answered with `region`. Everything is fixed but the bytes of a block
/// created for the request.
pub open spec fn allocated(
    pre: ArenaView,
    post: ArenaView,
    size: usize,
    align: usize,
    region: Region,
) -> bool {
    let (place, grown) = placement(pre, size, align);
    &&& region == place
    &&& post.block_size == pre.block_size
    &&& post.current == region.block
    &&& post.last == region
    &&& post.live == pre.live.insert(region)
    &&& match grown {
        Some(capacity) => {
            &&& post.offsets == pre.offsets.push(size as int)
            &&& post.memory.len() == pre.memory.len() + 1
            &&& post.memory.subrange(0, pre.memory.len() as int) == pre.memory
            &&& post.memory[pre.memory.len() as int].len() == capacity
        },
        None => {
            &&& post.offsets == pre.offsets.update(region.block as int, region.end())
            &&& post.memory == pre.memory
        },
    }
}

/// The arena after `region` was returned to it: the last live region empties
/// every block and makes the first block the current one again; otherwise the
/// most recent region gives its bytes back and any other region gives back
/// nothing yet.
pub open spec fn deallocated(pre: ArenaView, region: Region) -> ArenaView {
    ArenaView {
        live: pre.live.remove(region),
        current: if pre.live.len() == 1 {
            0
        } else {
            pre.current
        },
        offsets: if pre.live.len() == 1 {
            Seq::new(pre.offsets.len(), |i: int| 0int)
        } else if region == pre.last {
            pre.offsets.update(pre.current, region.start as int)
        } else {
            pre.offsets
        },
        ..pre
    }
}

impl ArenaView {
    /// The invariant of an arena.
    pub closed spec fn wf(self) -> bool {
        &&& self.memory.len() == self.offsets.len()
        &&& self.memory.len() <= usize::MAX
        &&& 0 <= self.current
        &&& self.memory.len() > 0 ==> self.current < self.memory.len()
        &&& forall|i: int|
            0 <= i < self.memory.len() ==> 0 <= #[trigger] self.offsets[i] <= self.memory[i].len()
        &&& forall|i: int|
            0 <= i < self.memory.len() ==> self.block_size <= (#[trigger] self.memory[i]).len()
                <= usize::MAX
        &&& forall|i: int|
            self.current < i < self.memory.len() ==> #[trigger] self.offsets[i] == 0
        &&& forall|r: Region| #[trigger]
            self.live.contains(r) ==> r.block < self.memory.len() && r.end()
                <= self.offsets[r.block as int]
        &&& self.live.len() > 0 ==> self.last.block == self.current
        &&& forall|r: Region| #[trigger]
            self.live.contains(r) && r.block == self.last.block ==> r.end() <= self.last.start
                || r == self.last
        &&& forall|r: Region| #[trigger] self.live.count(r) >= 2 ==> r.len == 0
        &&& forall|a: Region, b: Region|
            #![trigger self.live.contains(a), self.live.contains(b)]
            self.live.contains(a) && self.live.contains(b) && a != b ==> a.disjoint(b)
        &&& self.live.len() == 0 ==> self.current == 0 && forall|i: int|
            0 <= i < self.memory.len() ==> #[trigger] self.offsets[i] == 0
    }

    /// An arena that has not answered any request yet.
    pub open spec fn empty(block_size: usize) -> ArenaView {
        ArenaView {
            block_size,
            memory: Seq::empty(),
            offsets: Seq::empty(),
            current: 0,
            last: Region { block: 0, start: 0, len: 0 },
            live: Multiset::empty(),
        }
    }

    /// A live region lies inside its block, below the block's bump offset.
    pub proof fn lemma_live_region_within(self, r: Region)
        requires
            self.wf(),
            self.live.contains(r),
        ensures
            r.within(self.memory),
            r.end() <= self.offsets[r.block as int],
            r.end() <= usize::MAX,
    {
    }

    /// Two live regions share no byte.
    pub proof fn lemma_live_regions_apart(self, a: Region, b: Region)
        requires
            self.wf(),
            self.live.contains(a),
            self.live.contains(b),
            a != b,
        ensures
            a.disjoint(b),
    {
    }
}

/// Answering a request keeps the invariant. The region handed out has the
/// size asked for, starts at a multiple of `align`, lies inside its block and
/// shares no byte with a region that was live before.
pub proof fn lemma_allocated(
    pre: ArenaView,
    post: ArenaView,
    size: usize,
    align: usize,
    region: Region,
)
    requires
        pre.wf(),
        align > 0,
        allocated(pre, post, size, align, region),
        post.memory.len() <= usize::MAX,
    ensures
        post.wf(),
        region.len == size,
        region.start % align == 0,
        region.within(post.memory),
        forall|r: Region| pre.live.contains(r) ==> r.disjoint(region),
{
    let blocks = pre.memory.len() as int;
    if blocks > 0 {
        lemma_align_up(pre.offsets[pre.current], align as int);
    }
    vstd::arithmetic::div_mod::lemma_small_mod(0, align as nat);
    assert forall|i: int| 0 <= i < blocks implies #[trigger] post.memory[i] == pre.memory[i] by {
        if post.memory.len() > blocks {
            assert(post.memory.subrange(0, blocks)[i] == post.memory[i]);
        }
    }
    assert forall|r: Region| pre.live.contains(r) implies r.disjoint(region) && r.block < blocks
        && (r.block == region.block ==> r.end() <= region.start) by {
        if r.block == region.block {
            assert(r.end() <= pre.offsets[r.block as int]);
        }
    }
    assert forall|r: Region| #[trigger] post.live.contains(r) implies r == region
        || pre.live.contains(r) by {}
    assert forall|i: int| 0 <= i < post.memory.len() implies pre.block_size <= (
    #[trigger] post.memory[i]).len() <= usize::MAX by {
        if i < blocks {
            assert(post.memory[i] == pre.memory[i]);
        }
    }
    assert forall|i: int| 0 <= i < post.memory.len() implies 0 <= #[trigger] post.offsets[i]
        <= post.memory[i].len() by {
        if i < blocks {
            assert(post.memory[i] == pre.memory[i]);
            assert(0 <= pre.offsets[i] <= pre.memory[i].len());
        }
    }
    assert forall|r: Region| #[trigger] post.live.contains(r) implies r.block
        < post.memory.len() && r.end() <= post.offsets[r.block as int] by {
        if r != region {
            assert(pre.live.contains(r));
        }
    }
    assert forall|r: Region| #[trigger]
        post.live.contains(r) && r.block == post.last.block implies r.end() <= post.last.start
        || r == post.last by {
        if r != region {
            assert(pre.live.contains(r));
        }
    }
    assert forall|r: Region| #[trigger] post.live.count(r) >= 2 implies r.len == 0 by {
        if r == region {
            assert(pre.live.contains(region));
        } else {
            assert(pre.live.count(r) >= 2);
        }
    }
    assert forall|a: Region, b: Region|
        #![trigger post.live.contains(a), post.live.contains(b)]
        post.live.contains(a) && post.live.contains(b) && a != b implies a.disjoint(b) by {
        if a != region {
            assert(pre.live.contains(a));
        }
        if b != region {
            assert(pre.live.contains(b));
        }
    }
}

/// Answering a request leaves the bytes of every earlier block as they are:
/// what was stored in a range is still stored there.
pub proof fn lemma_allocated_keeps_bytes(
    pre: ArenaView,
    post: ArenaView,
    size: usize,
    align: usize,
    region: Region,
    other: Region,
)
    requires
        allocated(pre, post, size, align, region),
        other.within(pre.memory),
    ensures
        other.within(post.memory),
        stored(post.memory, other) == stored(pre.memory, other),
{
    let blocks = pre.memory.len() as int;
    if post.memory.len() > blocks {
        assert(post.memory.subrange(0, blocks)[other.block as int] == post.memory[other.block as int]);
    }
}

/// Taking a live region back keeps the invariant.
pub proof fn lemma_deallocated(pre: ArenaView, region: Region)
    requires
        pre.wf(),
        pre.live.contains(region),
    ensures
        deallocated(pre, region).wf(),
        deallocated(pre, region).live.len() == pre.live.len() - 1,
{
    let post = deallocated(pre, region);
    assert(Multiset::singleton(region).subset_of(pre.live));
    assert forall|r: Region| #[trigger] post.live.contains(r) implies pre.live.contains(r) && (r
        == region ==> pre.live.count(r) >= 2) by {}
    if pre.live.len() == 1 {
        assert(post.live.len() == 0);
    } else {
        assert forall|r: Region| #[trigger] post.live.contains(r) implies r.block
            < post.memory.len() && r.end() <= post.offsets[r.block as int] by {
            assert(pre.live.contains(r));
        }
        assert forall|r: Region| #[trigger]
            post.live.contains(r) && r.block == post.last.block implies r.end()
            <= post.last.start || r == post.last by {
            assert(pre.live.contains(r));
        }
    }
    assert forall|r: Region| #[trigger] post.live.count(r) >= 2 implies r.len == 0 by {
        assert(pre.live.count(r) >= 2);
    }
    assert forall|a: Region, b: Region|
        #![trigger post.live.contains(a), post.live.contains(b)]
        post.live.contains(a) && post.live.contains(b) && a != b implies a.disjoint(b) by {
        assert(pre.live.contains(a) && pre.live.contains(b));
    }
}

/// A request that no longer fits in the current block is placed at the start
/// of another one: the block after the current one where there is one, a new
/// block of the ordinary size where there is none.
pub proof fn lemma_block_growth(
    pre: ArenaView,
    post: ArenaView,
    size: usize,
    align: usize,
    region: Region,
)
    requires
        pre.wf(),
        allocated(pre, post, size, align, region),
        align > 0,
        size <= pre.block_size,
        pre.memory.len() > 0,
        align_up(pre.offsets[pre.current], align as int) + size > pre.memory[pre.current].len(),
    ensures
        region.block != pre.current,
        region.start == 0,
        post.current == region.block,
        pre.current + 1 < pre.memory.len() ==> region.block == pre.current + 1 && post.memory
            == pre.memory,
        pre.current + 1 >= pre.memory.len() ==> region.block == pre.memory.len()
            && post.memory.len() == pre.memory.len() + 1 && post.memory[region.block as int].len()
            == pre.block_size,
{
}

/// A request larger than the block size gets a new block that is exactly as
/// large as the request, and starts at its first byte.
pub proof fn lemma_dedicated_block(
    pre: ArenaView,
    post: ArenaView,
    size: usize,
    align: usize,
    region: Region,
)
    requires
        pre.wf(),
        allocated(pre, post, size, align, region),
        size > pre.block_size,
    ensures
        post.memory.len() == pre.memory.len() + 1,
        region.block == pre.memory.len(),
        region.start == 0,
        post.memory[region.block as int].len() == size,
        post.offsets[region.block as int] == size,
{
}

/// Returning the region handed out most recently gives back exactly its
/// bytes: the same request, made again, is answered with the same region.
/// This is stated for requests that do not exceed the block size; a larger
/// one gets a new block every time.
pub proof fn lemma_latest_is_reused(
    pre: ArenaView,
    mid: ArenaView,
    post: ArenaView,
    size: usize,
    align: usize,
    first: Region,
    second: Region,
)
    requires
        pre.wf(),
        align > 0,
        size <= pre.block_size,
        allocated(pre, mid, size, align, first),
        allocated(deallocated(mid, first), post, size, align, second),
    ensures
        second == first,
        deallocated(mid, first).live == pre.live,
        deallocated(mid, first).memory == mid.memory,
        pre.live.len() > 0 ==> deallocated(mid, first).offsets[mid.current] == first.start,
{
    let back = deallocated(mid, first);
    assert(back.live =~= pre.live);
    assert(mid.live.len() == pre.live.len() + 1);
    if pre.memory.len() > 0 {
        lemma_align_up(pre.offsets[pre.current], align as int);
    }
    lemma_align_up(first.start as int, align as int);
    lemma_align_up(0, align as int);
    assert(first.block < mid.memory.len());
    assert(first.end() <= mid.memory[first.block as int].len()) by {
        if first.block < pre.memory.len() {
            assert(mid.memory[first.block as int] == pre.memory[first.block as int]);
        }
    }
    if pre.live.len() == 0 {
        if pre.memory.len() > 0 {
            assert(pre.offsets[pre.current] == 0);
        }
        assert(first.start == 0);
        assert(back.offsets[first.block as int] == 0);
    } else {
        assert(back.offsets[first.block as int] == first.start);
    }
    assert(back.current == first.block);
    assert(back.memory.len() > 0);
    assert(align_up(back.offsets[back.current], align as int) == first.start);
}

/// Returning a region that is not the most recent one, while others are
/// live, gives nothing back; returning the last live region empties every
/// block and keeps the blocks.
pub proof fn lemma_deferred_reclaim(pre: ArenaView, region: Region)
    requires
        pre.wf(),
        pre.live.contains(region),
    ensures
        pre.live.len() > 1 && region != pre.last ==> deallocated(pre, region).offsets
            == pre.offsets,
        pre.live.len() == 1 ==> forall|i: int|
            0 <= i < pre.offsets.len() ==> #[trigger] deallocated(pre, region).offsets[i] == 0,
        deallocated(pre, region).live.len() == pre.live.len() - 1,
        deallocated(pre, region).memory == pre.memory,
{
    assert(Multiset::singleton(region).subset_of(pre.live));
}

struct Block {
    data: Vec<u8>,
    offset: usize,
}

/// A bump allocator over a list of blocks that only grows.
pub struct Arena {
    blocks: Vec<Block>,
    current: usize,
    alloc_count: usize,
    last_alloc: Region,
    block_size: usize,
    live: Ghost<Multiset<Region>>,
}

impl View for Arena {
    type V = ArenaView;

    closed spec fn view(&self) -> ArenaView {
        ArenaView {
            block_size: self.block_size,
            memory: Seq::new(self.blocks@.len(), |i: int| self.blocks@[i].data@),
            offsets: Seq::new(self.blocks@.len(), |i: int| self.blocks@[i].offset as int),
            current: self.current as int,
            last: self.last_alloc,
            live: self.live@,
        }
    }
}

impl Arena {
    /// The invariant that every method keeps.
    pub closed spec fn wf(&self) -> bool {
        &&& self@.wf()
        &&& self.alloc_count == self.live@.len()
    }

    /// What holds of an arena holds of its view.
    pub proof fn lemma_view_wf(&self)
        requires
            self.wf(),
        ensures
            self@.wf(),
    {
    }

    /// An arena whose ordinary blocks hold one mebibyte.
    pub fn new() -> (arena: Arena)
        ensures
            arena.wf(),
            arena@ == ArenaView::empty(1048576),
    {
        Self::with_block_size(1048576)
    }

    /// An arena without blocks: the first one is created by the first request.
    pub fn with_block_size(block_size: usize) -> (arena: Arena)
        ensures
            arena.wf(),
            arena@ == ArenaView::empty(block_size),
    {
        let arena = Arena {
            blocks: Vec::new(),
            current: 0,
            alloc_count: 0,
            last_alloc: Region { block: 0, start: 0, len: 0 },
            block_size,
            live: Ghost(Multiset::empty()),
        };
        proof {
            assert(arena@.memory =~= Seq::empty());
            assert(arena@.offsets =~= Seq::empty());
        }
        arena
    }

    /// Number of regions handed out and not yet returned.
    pub fn live_count(&self) -> (n: usize)
        requires
            self.wf(),
        ensures
            n == self@.live.len(),
    {
        self.alloc_count
    }

    /// Number of blocks created so far.
    pub fn block_count(&self) -> (n: usize)
        ensures
            n == self@.memory.len(),
    {
        self.blocks.len()
    }

    /// Empties every block; the bytes stay as they are.
    fn reset_all_blocks(blocks: &mut Vec<Block>)
        ensures
            final(blocks)@.len() == old(blocks)@.len(),
            forall|i: int|
                0 <= i < old(blocks)@.len() ==> (#[trigger] final(blocks)@[i]).offset == 0
                    && final(blocks)@[i].data@ == old(blocks)@[i].data@,
    {
        let mut i: usize = 0;
        while i < blocks.len()
            invariant
                i <= blocks@.len(),
                blocks@.len() == old(blocks)@.len(),
                forall|k: int| 0 <= k < i ==> (#[trigger] blocks@[k]).offset == 0,
                forall|k: int|
                    0 <= k < blocks@.len() ==> (#[trigger] blocks@[k]).data@ == old(blocks)@[k].data@,
            decreases blocks@.len() - i,
        {
            blocks[i].offset = 0;
            i += 1;
        }
    }

    fn allocate_block(size: usize) -> (block: Block)
        ensures
            block.data@.len() == size,
            block.offset == 0,
    {
        Block { data: vec![0u8; size], offset: 0 }
    }

    /// Appends an empty block of `size` bytes and makes it the current one.
    fn extend(&mut self, size: usize) -> (index: usize)
        ensures
            index == old(self).blocks@.len(),
            final(self).blocks@.len() == index + 1,
            forall|i: int| 0 <= i < index ==> final(self).blocks@[i] == old(self).blocks@[i],
            final(self).blocks@[index as int].data@.len() == size,
            final(self).blocks@[index as int].offset == 0,
            final(self).current == index,
            final(self).alloc_count == old(self).alloc_count,
            final(self).last_alloc == old(self).last_alloc,
            final(self).block_size == old(self).block_size,
            final(self).live == old(self).live,
    {
        let index = self.blocks.len();
        self.blocks.push(Self::allocate_block(size));
        self.current = index;
        index
    }

    /// The bump offset of the current block, moved up to a multiple of
    /// `align`; `None` where that is beyond every `usize`.
    fn aligned_offset(&self, align: usize) -> (aligned: Option<usize>)
        requires
            self.current < self.blocks@.len(),
            align > 0,
        ensures
            match aligned {
                Some(a) => a == align_up(self.blocks@[self.current as int].offset as int, align as int),
                None => align_up(self.blocks@[self.current as int].offset as int, align as int)
                    > usize::MAX,
            },
    {
        let offset = self.blocks[self.current].offset;
        let rem = offset % align;
        if rem == 0 {
            Some(offset)
        } else {
            let pad = align - rem;
            if pad > usize::MAX - offset {
                None
            } else {
                Some(offset + pad)
            }
        }
    }

    /// Hands out `size` bytes whose offset in their block is a multiple of
    /// `align`.
    ///
    /// A request larger than the block size gets a block of its own, exactly
    /// as large as the request. Any other request is placed in the current
    /// block where it fits; else in the next block, where one exists; else in
    /// a new block of the ordinary size.
    pub fn allocate(&mut self, size: usize, align: usize) -> (region: Region)
        requires
            old(self).wf(),
            align > 0,
            old(self)@.live.len() < usize::MAX,
        ensures
            final(self).wf(),
            allocated(old(self)@, final(self)@, size, align, region),
            region.len == size,
            region.start % align == 0,
            region.within(final(self)@.memory),
            forall|r: Region| old(self)@.live.contains(r) ==> r.disjoint(region),
    {
        let ghost pre = self@;
        let region = if size > self.block_size {
            let block = self.extend(size);
            self.blocks[block].offset = size;
            Region { block, start: 0, len: size }
        } else {
            if self.blocks.len() == 0 {
                self.extend(self.block_size);
            }
            let capacity = self.blocks[self.current].data.len();
            proof {
                lemma_align_up(self.blocks@[self.current as int].offset as int, align as int);
            }
            let start = match self.aligned_offset(align) {
                Some(aligned) if aligned <= capacity && size <= capacity - aligned => aligned,
                _ => {
                    if self.current + 1 < self.blocks.len() {
                        self.current = self.current + 1;
                    } else {
                        self.extend(self.block_size);
                    }
                    0
                },
            };
            let block = self.current;
            self.blocks[block].offset = start + size;
            Region { block, start, len: size }
        };
        proof {
            assert forall|i: int| 0 <= i < pre.memory.len() implies self.blocks@[i].data@
                == old(self).blocks@[i].data@ && (i != region.block ==> self.blocks@[i].offset
                == old(self).blocks@[i].offset) by {}
        }
        self.alloc_count += 1;
        self.last_alloc = region;
        self.live = Ghost(self.live@.insert(region));
        proof {
            let post = self@;
            let (place, grown) = placement(pre, size, align);
            assert(region == place);
            match grown {
                Some(_) => {
                    assert(post.offsets =~= pre.offsets.push(size as int));
                    assert(post.memory.subrange(0, pre.memory.len() as int) =~= pre.memory);
                },
                None => {
                    assert(post.offsets =~= pre.offsets.update(region.block as int, region.end()));
                    assert(post.memory =~= pre.memory);
                },
            }
            assert(post.memory.len() == self.blocks.len());
            lemma_allocated(pre, post, size, align, region);
        }
        region
    }

    /// Takes `region` back.
    ///
    /// When it was the last live region, every block becomes empty and the
    /// first block is the current one again, so that the blocks are reused in
    /// the order they were created. Otherwise,
    /// when it is the region handed out most recently, the current block's
    /// offset returns to where the region began. Any other region gives its
    /// bytes back only when every block is emptied.
    pub fn deallocate(&mut self, region: Region)
        requires
            old(self).wf(),
            old(self)@.live.contains(region),
        ensures
            final(self).wf(),
            final(self)@ == deallocated(old(self)@, region),
    {
        let ghost pre = self@;
        self.alloc_count -= 1;
        self.live = Ghost(self.live@.remove(region));
        if self.alloc_count == 0 {
            Self::reset_all_blocks(&mut self.blocks);
            self.current = 0;
        } else if region == self.last_alloc {
            let current = self.current;
            self.blocks[current].offset = region.start;
        }
        proof {
            let post = self@;
            assert(post.offsets =~= deallocated(pre, region).offsets);
            assert(post.memory =~= pre.memory);
            assert(post == deallocated(pre, region));
            lemma_deallocated(pre, region);
        }
    }

    /// Copies `bytes` into a live region.
    pub fn write(&mut self, region: Region, bytes: &[u8])
        requires
            old(self).wf(),
            old(self)@.live.contains(region),
            bytes@.len() == region.len,
        ensures
            final(self).wf(),
            final(self)@ == (ArenaView {
                memory: written(old(self)@.memory, region, bytes@),
                ..old(self)@
            }),
            stored(final(self)@.memory, region) == bytes@,
    {
        let ghost pre = self@;
        let ghost block = self.blocks@[region.block as int].data@;
        proof {
            pre.lemma_live_region_within(region);
        }
        let mut i: usize = 0;
        while i < region.len
            invariant
                i <= region.len,
                bytes@.len() == region.len,
                region.block < self.blocks@.len(),
                region.end() <= block.len(),
                region.end() <= usize::MAX,
                block == old(self).blocks@[region.block as int].data@,
                self.blocks@.len() == old(self).blocks@.len(),
                self.current == old(self).current,
                self.alloc_count == old(self).alloc_count,
                self.last_alloc == old(self).last_alloc,
                self.block_size == old(self).block_size,
                self.live == old(self).live,
                forall|k: int|
                    0 <= k < self.blocks@.len() ==> (#[trigger] self.blocks@[k]).offset == old(self).blocks@[k].offset,
                forall|k: int|
                    0 <= k < self.blocks@.len() && k != region.block ==> (#[trigger] self.blocks@[k]).data@
                        == old(self).blocks@[k].data@,
                self.blocks@[region.block as int].data@ == block.subrange(0, region.start as int)
                    + bytes@.subrange(0, i as int) + block.subrange(
                    region.start + i,
                    block.len() as int,
                ),
            decreases region.len - i,
        {
            self.blocks[region.block].data[region.start + i] = bytes[i];
            i += 1;
            assert(self.blocks@[region.block as int].data@ =~= block.subrange(0, region.start as int)
                + bytes@.subrange(0, i as int) + block.subrange(region.start + i, block.len() as int));
        }
        proof {
            let post = self@;
            assert(bytes@.subrange(0, region.len as int) =~= bytes@);
            assert(post.memory =~= written(pre.memory, region, bytes@));
            assert(post.offsets =~= pre.offsets);
            lemma_write_then_read(pre.memory, region, bytes@);
            assert(post.wf());
        }
    }

    /// Copies the bytes of a live region out.
    pub fn read(&self, region: Region) -> (bytes: Vec<u8>)
        requires
            self.wf(),
            self@.live.contains(region),
        ensures
            bytes@ == stored(self@.memory, region),
    {
        let mut bytes: Vec<u8> = Vec::new();
        let mut i: usize = 0;
        proof {
            self@.lemma_live_region_within(region);
        }
        while i < region.len
            invariant
                i <= region.len,
                region.block < self.blocks@.len(),
                region.end() <= self.blocks@[region.block as int].data@.len(),
                region.end() <= usize::MAX,
                bytes@ == self.blocks@[region.block as int].data@.subrange(
                    region.start as int,
                    region.start + i,
                ),
            decreases region.len - i,
        {
            bytes.push(self.blocks[region.block].data[region.start + i]);
            i += 1;
            assert(bytes@ =~= self.blocks@[region.block as int].data@.subrange(
                region.start as int,
                region.start + i,
            ));
        }
        bytes
    }
}

} // verus!
