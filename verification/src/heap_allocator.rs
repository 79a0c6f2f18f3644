//! Linked-list heap allocator. The heap is tiled by blocks, each a header
//! followed by its payload; allocation takes the first free block that is
//! large enough and splits off the rest, freeing merges neighbouring free
//! blocks back together.
//!
//! The list of headers is held here as a vector of `BlockHeader` values in
//! address order: block `i + 1` starts right after the payload of block `i`.
use vstd::prelude::*;
use crate::heap::{HEAP_START, HEAP_SIZE};
use crate::numfmt::{digits, hex_text, format_dec, format_hex, append_bytes};
use crate::vga::text_bytes;

verus! {

/// Bytes taken by a block header in front of each payload.
pub const HEADER_SIZE: usize = 24;

/// Alignment of every payload size.
pub const ALIGN: usize = 8;

/// One block of the heap: the address of its header, the size of its
/// payload and whether it is free.
#[derive(Debug, Clone, Copy, PartialEq, Eq, Structural)]
pub struct BlockHeader {
    pub addr: usize,
    pub size: usize,
    pub free: bool,
}

/// First heap address (as a `usize`).
pub open spec fn heap_start() -> int {
    HEAP_START as int
}

/// First address past the heap.
pub open spec fn heap_end() -> int {
    HEAP_START as int + HEAP_SIZE as int
}

/// Address of the payload of block `b`.
pub open spec fn payload(b: BlockHeader) -> int {
    b.addr + HEADER_SIZE
}

/// First address past block `b`.
pub open spec fn block_end(b: BlockHeader) -> int {
    b.addr + HEADER_SIZE + b.size
}

/// `size` rounded up to a multiple of `align`.
pub open spec fn align_up_spec(size: int, align: int) -> int {
    ((size + align - 1) / align) * align
}

/// The payload size actually handed out for a request of `size` bytes.
pub open spec fn request_size(size: int) -> int {
    align_up_spec(if size < 1 { 1 } else { size }, ALIGN as int)
}

/// Each block starts right where the previous one ends.
pub open spec fn chained(s: Seq<BlockHeader>) -> bool {
    forall|i: int, j: int|
        #![trigger s[i], s[j]]
        0 <= i && j == i + 1 && j < s.len() ==> s[j].addr == block_end(s[i])
}

/// Every payload size is a multiple of the alignment.
pub open spec fn aligned_sizes(s: Seq<BlockHeader>) -> bool {
    forall|i: int| 0 <= i < s.len() ==> (#[trigger] s[i]).size % ALIGN == 0
}

/// Every block ends at or before `e`.
pub open spec fn ends_within(s: Seq<BlockHeader>, e: int) -> bool {
    forall|i: int| 0 <= i < s.len() ==> block_end(#[trigger] s[i]) <= e
}

/// The blocks tile the heap: they start at its first byte, follow each other
/// without gap and end at its last byte; every payload size is a multiple of
/// the alignment.
pub open spec fn tiles_heap(s: Seq<BlockHeader>) -> bool {
    &&& s.len() >= 1
    &&& s[0].addr == heap_start()
    &&& chained(s)
    &&& block_end(s.last()) == heap_end()
    &&& aligned_sizes(s)
    &&& ends_within(s, heap_end())
}

/// No two neighbouring blocks are both free.
pub open spec fn no_adjacent_free(s: Seq<BlockHeader>) -> bool {
    forall|i: int, j: int|
        #![trigger s[i], s[j]]
        0 <= i && j == i + 1 && j < s.len() ==> !(s[i].free && s[j].free)
}

/// Block `b` can serve a request of `need` bytes.
pub open spec fn fits(b: BlockHeader, need: int) -> bool {
    b.free && b.size >= need
}

/// `i` is the first block that can serve `need` bytes.
pub open spec fn is_first_fit(s: Seq<BlockHeader>, need: int, i: int) -> bool {
    &&& 0 <= i < s.len()
    &&& fits(s[i], need)
    &&& forall|j: int| 0 <= j < i ==> !fits(#[trigger] s[j], need)
}

/// No block can serve `need` bytes.
pub open spec fn no_fit(s: Seq<BlockHeader>, need: int) -> bool {
    forall|j: int| 0 <= j < s.len() ==> !fits(#[trigger] s[j], need)
}

/// The blocks after block `i` has served `need` bytes: the block becomes
/// used; when more than a header and one alignment unit would be left over,
/// the rest is split off as a new free block right after it.
pub open spec fn carve(s: Seq<BlockHeader>, i: int, need: int) -> Seq<BlockHeader> {
    let b = s[i];
    let remaining = b.size - need;
    if remaining > HEADER_SIZE + ALIGN {
        s.subrange(0, i) + seq![
            BlockHeader { addr: b.addr, size: need as usize, free: false },
            BlockHeader {
                addr: (b.addr + HEADER_SIZE + need) as usize,
                size: (remaining - HEADER_SIZE) as usize,
                free: true,
            },
        ] + s.subrange(i + 1, s.len() as int)
    } else {
        s.update(i, BlockHeader { free: false, ..b })
    }
}

/// Block `a` grown over the block `b` that follows it.
pub open spec fn merge(a: BlockHeader, b: BlockHeader) -> BlockHeader {
    BlockHeader { addr: a.addr, size: (a.size + HEADER_SIZE + b.size) as usize, free: true }
}

/// The blocks after merging every run of neighbouring free blocks, scanning
/// from the first block.
pub open spec fn coalesce(s: Seq<BlockHeader>) -> Seq<BlockHeader>
    decreases s.len(),
{
    if s.len() < 2 {
        s
    } else if s[0].free && s[1].free {
        coalesce(seq![merge(s[0], s[1])] + s.subrange(2, s.len() as int))
    } else {
        seq![s[0]] + coalesce(s.subrange(1, s.len() as int))
    }
}

/// Block `k` has its payload at address `p`.
pub open spec fn payload_at(s: Seq<BlockHeader>, k: int, p: int) -> bool {
    0 <= k < s.len() && payload(s[k]) == p
}

/// Total payload bytes of the free blocks.
pub open spec fn free_bytes(s: Seq<BlockHeader>) -> nat
    decreases s.len(),
{
    if s.len() == 0 {
        0
    } else {
        free_bytes(s.drop_last()) + if s.last().free { s.last().size as nat } else { 0nat }
    }
}

/// Total payload bytes of the used blocks.
pub open spec fn used_bytes(s: Seq<BlockHeader>) -> nat
    decreases s.len(),
{
    if s.len() == 0 {
        0
    } else {
        used_bytes(s.drop_last()) + if s.last().free { 0nat } else { s.last().size as nat }
    }
}

/// Merging runs of free blocks keeps the blocks chained, aligned and within
/// their bounds, keeps the first block's start and state and the last block's
/// end, and leaves no two neighbouring free blocks.
pub proof fn lemma_coalesce(s: Seq<BlockHeader>, e: int)
    requires
        s.len() >= 1,
        chained(s),
        aligned_sizes(s),
        ends_within(s, e),
        e <= usize::MAX,
    ensures
        coalesce(s).len() >= 1,
        coalesce(s).len() <= s.len(),
        coalesce(s)[0].addr == s[0].addr,
        coalesce(s)[0].free == s[0].free,
        block_end(coalesce(s).last()) == block_end(s.last()),
        chained(coalesce(s)),
        aligned_sizes(coalesce(s)),
        ends_within(coalesce(s), e),
        no_adjacent_free(coalesce(s)),
    decreases s.len(),
{
    if s.len() < 2 {
    } else if s[0].free && s[1].free {
        let m = merge(s[0], s[1]);
        assert(block_end(s[1]) <= e);
        assert(s[1].addr == block_end(s[0]));
        assert(m.size == s[0].size + HEADER_SIZE + s[1].size);
        assert(s[0].size % ALIGN == 0);
        assert(s[1].size % ALIGN == 0);
        let t = seq![m] + s.subrange(2, s.len() as int);
        assert(t.len() == s.len() - 1);
        assert forall|i: int, j: int|
            #![trigger t[i], t[j]]
            0 <= i && j == i + 1 && j < t.len() implies t[j].addr == block_end(t[i]) by {
            if i == 0 {
                assert(t[1] == s[2]);
                assert(s[2].addr == block_end(s[1]));
            } else {
                assert(t[i] == s[i + 1]);
                assert(t[i + 1] == s[i + 2]);
            }
        }
        assert forall|i: int| 0 <= i < t.len() implies (#[trigger] t[i]).size % ALIGN == 0 by {
            if i > 0 {
                assert(t[i] == s[i + 1]);
            }
        }
        assert forall|i: int| 0 <= i < t.len() implies block_end(#[trigger] t[i]) <= e by {
            if i > 0 {
                assert(t[i] == s[i + 1]);
            }
        }
        if s.len() == 2 {
            assert(t.last() == m);
        } else {
            assert(t.last() == s.last());
        }
        lemma_coalesce(t, e);
    } else {
        let r = s.subrange(1, s.len() as int);
        assert forall|i: int, j: int|
            #![trigger r[i], r[j]]
            0 <= i && j == i + 1 && j < r.len() implies r[j].addr == block_end(r[i]) by {
            assert(r[i] == s[i + 1]);
            assert(r[i + 1] == s[i + 2]);
        }
        assert forall|i: int| 0 <= i < r.len() implies (#[trigger] r[i]).size % ALIGN == 0 by {
            assert(r[i] == s[i + 1]);
        }
        assert forall|i: int| 0 <= i < r.len() implies block_end(#[trigger] r[i]) <= e by {
            assert(r[i] == s[i + 1]);
        }
        lemma_coalesce(r, e);
        let c = coalesce(r);
        let res = seq![s[0]] + c;
        assert(coalesce(s) == res);
        assert(c[0].addr == s[1].addr);
        assert(c[0].free == s[1].free);
        assert(s[1].addr == block_end(s[0]));
        assert forall|i: int, j: int|
            #![trigger res[i], res[j]]
            0 <= i && j == i + 1 && j < res.len() implies res[j].addr == block_end(res[i]) by {
            if i == 0 {
                assert(res[1] == c[0]);
            } else {
                assert(res[i] == c[i - 1]);
                assert(res[i + 1] == c[i]);
            }
        }
        assert forall|i: int, j: int|
            #![trigger res[i], res[j]]
            0 <= i && j == i + 1 && j < res.len() implies !(res[i].free && res[j].free) by {
            if i == 0 {
                assert(res[1] == c[0]);
            } else {
                assert(res[i] == c[i - 1]);
                assert(res[i + 1] == c[i]);
            }
        }
        assert forall|i: int| 0 <= i < res.len() implies (#[trigger] res[i]).size % ALIGN == 0 by {
            if i > 0 {
                assert(res[i] == c[i - 1]);
            }
        }
        assert forall|i: int| 0 <= i < res.len() implies block_end(#[trigger] res[i]) <= e by {
            if i > 0 {
                assert(res[i] == c[i - 1]);
            }
        }
        assert(res.last() == c.last());
        assert(r.last() == s.last());
    }
}

/// Serving `need` bytes from the first block that fits keeps the blocks
/// tiling the heap with no two neighbouring free blocks, and leaves the
/// served block used, at the same address, with a payload of at least `need`.
pub proof fn lemma_carve(s: Seq<BlockHeader>, i: int, need: int)
    requires
        tiles_heap(s),
        no_adjacent_free(s),
        0 <= i < s.len(),
        fits(s[i], need),
        need >= 1,
        need % (ALIGN as int) == 0,
    ensures
        tiles_heap(carve(s, i, need)),
        no_adjacent_free(carve(s, i, need)),
        carve(s, i, need)[i].addr == s[i].addr,
        !carve(s, i, need)[i].free,
        carve(s, i, need)[i].size >= need,
{
    let b = s[i];
    let remaining = b.size - need;
    let c = carve(s, i, need);
    assert(block_end(b) <= heap_end());
    if remaining > HEADER_SIZE + ALIGN {
        let u = BlockHeader { addr: b.addr, size: need as usize, free: false };
        let f = BlockHeader {
            addr: (b.addr + HEADER_SIZE + need) as usize,
            size: (remaining - HEADER_SIZE) as usize,
            free: true,
        };
        assert(c.len() == s.len() + 1);
        assert(c[i] == u);
        assert(c[i + 1] == f);
        assert(block_end(f) == block_end(b));
        assert(b.size % ALIGN == 0);
        assert forall|k: int| 0 <= k < i implies #[trigger] c[k] == s[k] by {}
        assert forall|k: int| i + 1 < k < c.len() implies #[trigger] c[k] == s[k - 1] by {}
        assert forall|k: int, j: int|
            #![trigger c[k], c[j]]
            0 <= k && j == k + 1 && j < c.len() implies c[j].addr == block_end(c[k]) by {
            if j < i {
                assert(s[j].addr == block_end(s[k]));
            } else if j == i {
                assert(s[i].addr == block_end(s[k]));
            } else if j == i + 1 {
            } else if j == i + 2 {
                assert(s[i + 1].addr == block_end(s[i]));
            } else {
                assert(s[j - 1].addr == block_end(s[k - 1]));
            }
        }
        assert forall|k: int, j: int|
            #![trigger c[k], c[j]]
            0 <= k && j == k + 1 && j < c.len() implies !(c[k].free && c[j].free) by {
            if j < i {
                assert(!(s[k].free && s[j].free));
            } else if j == i || j == i + 1 {
            } else if j == i + 2 {
                assert(!(s[i].free && s[i + 1].free));
            } else {
                assert(!(s[k - 1].free && s[j - 1].free));
            }
        }
        assert forall|k: int| 0 <= k < c.len() implies (#[trigger] c[k]).size % ALIGN == 0 by {
            if k < i {
                assert(s[k].size % ALIGN == 0);
            } else if k > i + 1 {
                assert(s[k - 1].size % ALIGN == 0);
            }
        }
        assert forall|k: int| 0 <= k < c.len() implies block_end(#[trigger] c[k]) <= heap_end() by {
            if k < i {
                assert(block_end(s[k]) <= heap_end());
            } else if k > i + 1 {
                assert(block_end(s[k - 1]) <= heap_end());
            }
        }
        if i == s.len() - 1 {
            assert(c.last() == f);
        } else {
            assert(c.last() == s.last());
        }
        if i == 0 {
            assert(c[0] == u);
        } else {
            assert(c[0] == s[0]);
        }
    } else {
        assert forall|k: int, j: int|
            #![trigger c[k], c[j]]
            0 <= k && j == k + 1 && j < c.len() implies c[j].addr == block_end(c[k]) by {
            assert(s[j].addr == block_end(s[k]));
        }
        assert forall|k: int, j: int|
            #![trigger c[k], c[j]]
            0 <= k && j == k + 1 && j < c.len() implies !(c[k].free && c[j].free) by {
            assert(!(s[k].free && s[j].free));
        }
        assert forall|k: int| 0 <= k < c.len() implies (#[trigger] c[k]).size % ALIGN == 0 by {
            assert(s[k].size % ALIGN == 0);
        }
        assert forall|k: int| 0 <= k < c.len() implies block_end(#[trigger] c[k]) <= heap_end() by {
            assert(block_end(s[k]) <= heap_end());
        }
    }
}

/// In a chained list the blocks start at strictly increasing addresses, so
/// at most one block has its payload at a given address.
pub proof fn lemma_addrs_increasing(s: Seq<BlockHeader>, i: int, j: int)
    requires
        chained(s),
        0 <= i < j < s.len(),
    ensures
        s[i].addr < s[j].addr,
        block_end(s[i]) <= s[j].addr,
    decreases j - i,
{
    assert(s[j].addr == block_end(s[j - 1]));
    if i < j - 1 {
        lemma_addrs_increasing(s, i, j - 1);
    }
}

/// At most one block has its payload at address `p`.
pub proof fn lemma_payload_unique(s: Seq<BlockHeader>, k1: int, k2: int, p: int)
    requires
        chained(s),
        payload_at(s, k1, p),
        payload_at(s, k2, p),
    ensures
        k1 == k2,
{
    if k1 < k2 {
        lemma_addrs_increasing(s, k1, k2);
    } else if k2 < k1 {
        lemma_addrs_increasing(s, k2, k1);
    }
}

/// Heap bytes are conserved: the span of a chained list of blocks is made
/// of one header per block plus the free and the used payload bytes.
pub proof fn lemma_bytes_conserved(s: Seq<BlockHeader>)
    requires
        s.len() >= 1,
        chained(s),
    ensures
        block_end(s.last()) == s[0].addr + free_bytes(s) + used_bytes(s) + HEADER_SIZE * s.len(),
    decreases s.len(),
{
    if s.len() > 1 {
        let t = s.drop_last();
        assert forall|i: int, j: int|
            #![trigger t[i], t[j]]
            0 <= i && j == i + 1 && j < t.len() implies t[j].addr == block_end(t[i]) by {
            assert(s[j].addr == block_end(s[i]));
        }
        lemma_bytes_conserved(t);
        assert(s[s.len() - 1].addr == block_end(s[s.len() - 2]));
        assert(t.last() == s[s.len() - 2]);
        assert(t[0] == s[0]);
        assert(free_bytes(s) == free_bytes(t) + if s.last().free { s.last().size as nat } else { 0nat });
        assert(used_bytes(s) == used_bytes(t) + if s.last().free { 0nat } else { s.last().size as nat });
    } else {
        assert(s.drop_last().len() == 0);
        assert(free_bytes(s.drop_last()) == 0);
        assert(used_bytes(s.drop_last()) == 0);
        assert(free_bytes(s) == if s.last().free { s.last().size as nat } else { 0nat });
        assert(used_bytes(s) == if s.last().free { 0nat } else { s.last().size as nat });
    }
}

/// A request of `size` bytes is served with the least multiple of eight
/// that is at least `size` and at least one: never fewer bytes than asked,
/// and fewer than eight more.
pub proof fn law_request_covers_size(size: int)
    requires
        size >= 0,
    ensures
        request_size(size) >= size,
        request_size(size) >= 1,
        request_size(size) % 8 == 0,
        size >= 1 ==> request_size(size) < size + 8,
        size == 0 ==> request_size(size) == 8,
{
    let m: int = if size < 1 { 1 } else { size };
    assert(((m + 7) / 8) * 8 >= m && ((m + 7) / 8) * 8 < m + 8 && (((m + 7) / 8) * 8) % 8 == 0)
        by (nonlinear_arith)
        requires
            m >= 1,
    ;
}

/// The heap is fully accounted for: one header per block plus the free and
/// the used payload bytes make up exactly the size of the heap.
pub proof fn law_heap_bytes_conserved(s: Seq<BlockHeader>)
    requires
        tiles_heap(s),
    ensures
        free_bytes(s) + used_bytes(s) + HEADER_SIZE * s.len() == HEAP_SIZE,
{
    lemma_bytes_conserved(s);
}

/// The payload `allocate` returns can be freed: after the allocation the
/// block serving it is the used block whose payload starts at that address.
pub proof fn law_free_after_allocate(s: Seq<BlockHeader>, need: int, i: int)
    requires
        tiles_heap(s),
        no_adjacent_free(s),
        is_first_fit(s, need, i),
        need >= 1,
        need % (ALIGN as int) == 0,
    ensures
        payload_at(carve(s, i, need), i, payload(s[i])),
        !carve(s, i, need)[i].free,
        carve(s, i, need)[i].size >= need,
{
    lemma_carve(s, i, need);
}

/// Every block lies inside the heap and every payload is 8-byte aligned.
pub proof fn law_blocks_inside_heap(s: Seq<BlockHeader>, k: int)
    requires
        tiles_heap(s),
        0 <= k < s.len(),
    ensures
        heap_start() <= s[k].addr,
        block_end(s[k]) <= heap_end(),
        payload(s[k]) % (ALIGN as int) == 0,
    decreases k,
{
    if k > 0 {
        law_blocks_inside_heap(s, k - 1);
        assert(s[k].addr == block_end(s[k - 1]));
        assert(s[k - 1].size % ALIGN == 0);
    } else {
        assert(HEAP_START % 8 == 0);
    }
}

/// Label of a block in the heap map.
pub open spec fn block_label(b: BlockHeader) -> Seq<u8> {
    if b.free {
        text_bytes("LIBRE")
    } else {
        text_bytes("UTILISE")
    }
}

/// Heap map line of block `i`.
pub open spec fn block_line(i: int, b: BlockHeader) -> Seq<u8> {
    text_bytes("  Bloc ") + digits(i as nat, 10) + text_bytes(" @ ") + hex_text(b.addr as nat)
        + text_bytes(" | size=") + digits(b.size as nat, 10) + text_bytes(" | ") + block_label(b)
        + text_bytes("\n")
}

/// Heap map lines of the first `n` blocks of `s`.
pub open spec fn block_lines(s: Seq<BlockHeader>, n: int) -> Seq<u8>
    decreases n,
{
    if n <= 0 {
        Seq::empty()
    } else {
        block_lines(s, n - 1) + block_line(n - 1, s[n - 1])
    }
}

/// Text of the heap map line of block `i`.
fn block_line_text(i: usize, b: BlockHeader) -> (r: Vec<u8>)
    ensures
        r@ == block_line(i as int, b),
{
    let mut out: Vec<u8> = Vec::new();
    append_bytes(&mut out, "  Bloc ".as_bytes());
    let index_text = format_dec(i as u64);
    append_bytes(&mut out, index_text.as_slice());
    append_bytes(&mut out, " @ ".as_bytes());
    let addr_text = format_hex(b.addr as u64);
    append_bytes(&mut out, addr_text.as_slice());
    append_bytes(&mut out, " | size=".as_bytes());
    let size_text = format_dec(b.size as u64);
    append_bytes(&mut out, size_text.as_slice());
    append_bytes(&mut out, " | ".as_bytes());
    if b.free {
        append_bytes(&mut out, "LIBRE".as_bytes());
    } else {
        append_bytes(&mut out, "UTILISE".as_bytes());
    }
    append_bytes(&mut out, "\n".as_bytes());
    proof {
        assert(out@ =~= block_line(i as int, b));
    }
    out
}

/// `size + align - 1` with the bits below `align` cleared: the least
/// multiple of `align` that is at least `size` when `align` is a power of
/// two, as for the allocator's alignment.
fn align_up(size: usize, align: usize) -> (r: usize)
    requires
        align >= 1,
        size + align - 1 <= usize::MAX,
    ensures
        r == (size + align - 1) as usize & !((align - 1) as usize),
        r >= size,
        r - size < align,
        r & ((align - 1) as usize) == 0,
        align == ALIGN ==> r == align_up_spec(size as int, align as int),
{
    let mask: usize = align - 1;
    let x: usize = size + mask;
    let r: usize = x & !mask;
    assert(r <= x && x - r <= mask && r & mask == 0) by (bit_vector)
        requires
            r == x & !mask,
    ;
    if align == ALIGN {
        assert(r == (x / 8) * 8) by (bit_vector)
            requires
                r == x & !mask,
                mask == 7,
        ;
    }
    r
}

/// Heap allocator keeping the list of block headers in address order.
pub struct LinkedListAllocator {
    blocks: Vec<BlockHeader>,
    initialized: bool,
}

impl LinkedListAllocator {
    /// The blocks of the heap, in address order (empty before `init`).
    pub closed spec fn blocks(&self) -> Seq<BlockHeader> {
        self.blocks@
    }

    /// `init` has been called.
    pub closed spec fn is_initialized(&self) -> bool {
        self.initialized
    }

    /// Internal consistency: before `init` there is no block; after it the
    /// blocks tile the heap and no two neighbouring blocks are free.
    pub open spec fn wf(&self) -> bool {
        &&& !self.is_initialized() ==> self.blocks().len() == 0
        &&& self.is_initialized() ==> tiles_heap(self.blocks()) && no_adjacent_free(self.blocks())
    }

    /// An allocator that has not been given its heap yet.
    pub fn new() -> (r: Self)
        ensures
            r.wf(),
            !r.is_initialized(),
            r.blocks().len() == 0,
    {
        LinkedListAllocator { blocks: Vec::new(), initialized: false }
    }

    /// Takes the whole heap as one free block.
    pub fn init(&mut self)
        ensures
            final(self).wf(),
            final(self).is_initialized(),
            final(self).blocks() == seq![
                BlockHeader {
                    addr: HEAP_START as usize,
                    size: (HEAP_SIZE - HEADER_SIZE) as usize,
                    free: true,
                },
            ],
    {
        let heap_start: usize = HEAP_START as usize;
        let heap_size: usize = HEAP_SIZE as usize;
        let first = BlockHeader { addr: heap_start, size: heap_size - HEADER_SIZE, free: true };
        self.blocks = vec![first];
        self.initialized = true;
        proof {
            let s = self.blocks@;
            assert(s[0] == first);
            assert(s.last() == first);
            assert forall|i: int| 0 <= i < s.len() implies (#[trigger] s[i]).size % ALIGN == 0 by {
                assert(s[i] == first);
            }
            assert forall|i: int| 0 <= i < s.len() implies block_end(#[trigger] s[i]) <= heap_end() by {
                assert(s[i] == first);
            }
        }
    }

    /// Allocates `size` bytes (at least one, rounded up to the alignment)
    /// from the first free block large enough, splitting off what is left
    /// when more than a header and one alignment unit remain. Returns the
    /// address of the payload; `None` before `init` or when no free block is
    /// large enough, leaving the blocks unchanged.
    pub fn allocate(&mut self, size: usize) -> (r: Option<usize>)
        requires
            old(self).wf(),
            old(self).is_initialized() ==> size <= usize::MAX - (ALIGN - 1),
        ensures
            final(self).wf(),
            final(self).is_initialized() == old(self).is_initialized(),
            r is None <==> !old(self).is_initialized() || no_fit(old(self).blocks(), request_size(size as int)),
            r is None ==> final(self).blocks() == old(self).blocks(),
            r matches Some(p) ==> exists|i: int|
                #![trigger is_first_fit(old(self).blocks(), request_size(size as int), i)]
                is_first_fit(old(self).blocks(), request_size(size as int), i)
                    && p == payload(old(self).blocks()[i])
                    && final(self).blocks() == carve(old(self).blocks(), i, request_size(size as int)),
            r matches Some(p) ==> exists|i: int|
                #![trigger final(self).blocks()[i]]
                0 <= i < final(self).blocks().len() && payload(final(self).blocks()[i]) == p
                    && !final(self).blocks()[i].free && final(self).blocks()[i].size >= size
                    && final(self).blocks()[i].size % 8 == 0,
    {
        if !self.initialized {
            return None;
        }
        let at_least_one: usize = if size < 1 { 1 } else { size };
        let need: usize = align_up(at_least_one, ALIGN);
        assert(need == request_size(size as int));
        assert(need >= 1 && need % ALIGN == 0) by (nonlinear_arith)
            requires
                need == ((at_least_one + 7) / 8) * 8,
                at_least_one >= 1,
        ;
        let mut i: usize = 0;
        while i < self.blocks.len()
            invariant
                self.wf(),
                self.is_initialized(),
                self.blocks() == old(self).blocks(),
                old(self).is_initialized(),
                need == request_size(size as int),
                need >= 1,
                need % ALIGN == 0,
                0 <= i <= self.blocks().len(),
                forall|j: int| 0 <= j < i ==> !fits(#[trigger] self.blocks()[j], need as int),
            decreases self.blocks().len() - i,
        {
            let b = self.blocks[i];
            if b.free && b.size >= need {
                let ghost s = self.blocks@;
                proof {
                    law_request_covers_size(size as int);
                    assert(is_first_fit(s, need as int, i as int));
                    lemma_carve(s, i as int, need as int);
                    assert(block_end(s[i as int]) <= heap_end());
                }
                let remaining: usize = b.size - need;
                if remaining > HEADER_SIZE + ALIGN {
                    let used = BlockHeader { addr: b.addr, size: need, free: false };
                    let rest = BlockHeader {
                        addr: b.addr + HEADER_SIZE + need,
                        size: remaining - HEADER_SIZE,
                        free: true,
                    };
                    self.blocks.set(i, used);
                    self.blocks.insert(i + 1, rest);
                    proof {
                        assert(self.blocks@ =~= carve(s, i as int, need as int));
                        assert(self.blocks@[i as int] == used);
                    }
                } else {
                    let used = BlockHeader { addr: b.addr, size: b.size, free: false };
                    self.blocks.set(i, used);
                    proof {
                        assert(self.blocks@ =~= carve(s, i as int, need as int));
                        assert(self.blocks@[i as int] == used);
                        assert(s[i as int].size % ALIGN == 0);
                    }
                }
                return Some(b.addr + HEADER_SIZE);
            }
            i = i + 1;
        }
        None
    }

    /// Frees the block whose payload starts at `ptr`, then merges every run
    /// of neighbouring free blocks. Returns `false`, changing nothing, for a
    /// null pointer, for an address that is not the payload of a block, and
    /// for a block that is already free (a double free).
    pub fn free(&mut self, ptr: usize) -> (r: bool)
        requires
            old(self).wf(),
        ensures
            final(self).wf(),
            final(self).is_initialized() == old(self).is_initialized(),
            r <==> exists|k: int|
                #![trigger payload_at(old(self).blocks(), k, ptr as int)]
                payload_at(old(self).blocks(), k, ptr as int) && !old(self).blocks()[k].free,
            r ==> exists|k: int|
                #![trigger payload_at(old(self).blocks(), k, ptr as int)]
                payload_at(old(self).blocks(), k, ptr as int) && final(self).blocks() == coalesce(
                    old(self).blocks().update(k, BlockHeader { free: true, ..old(self).blocks()[k] }),
                ),
            !r ==> final(self).blocks() == old(self).blocks(),
    {
        if ptr == 0 {
            proof {
                if self.initialized {
                    assert forall|k: int| #![trigger payload_at(self.blocks@, k, ptr as int)]
                        payload_at(self.blocks@, k, ptr as int) implies false by {}
                }
            }
            return false;
        }
        let mut k: usize = 0;
        while k < self.blocks.len()
            invariant
                self.wf(),
                self.blocks() == old(self).blocks(),
                self.is_initialized() == old(self).is_initialized(),
                0 <= k <= self.blocks().len(),
                forall|j: int| 0 <= j < k ==> !payload_at(self.blocks(), j, ptr as int),
            decreases self.blocks().len() - k,
        {
            let b = self.blocks[k];
            proof {
                assert(block_end(self.blocks@[k as int]) <= heap_end());
            }
            if b.addr + HEADER_SIZE == ptr {
                let ghost s = self.blocks@;
                proof {
                    assert(payload_at(s, k as int, ptr as int));
                    assert forall|k2: int| #![trigger payload_at(s, k2, ptr as int)]
                        payload_at(s, k2, ptr as int) implies k2 == k by {
                        lemma_payload_unique(s, k as int, k2, ptr as int);
                    }
                }
                if b.free {
                    return false;
                }
                let freed = BlockHeader { addr: b.addr, size: b.size, free: true };
                self.blocks.set(k, freed);
                let ghost t = self.blocks@;
                proof {
                    assert(t == s.update(k as int, BlockHeader { free: true, ..s[k as int] }));
                    assert forall|i: int, j: int|
                        #![trigger t[i], t[j]]
                        0 <= i && j == i + 1 && j < t.len() implies t[j].addr == block_end(t[i]) by {
                        assert(s[j].addr == block_end(s[i]));
                    }
                    assert forall|i: int| 0 <= i < t.len() implies (#[trigger] t[i]).size % ALIGN
                        == 0 by {
                        assert(s[i].size % ALIGN == 0);
                    }
                    assert forall|i: int| 0 <= i < t.len() implies block_end(#[trigger] t[i])
                        <= heap_end() by {
                        assert(block_end(s[i]) <= heap_end());
                    }
                    lemma_coalesce(t, heap_end());
                    assert(t[0].addr == s[0].addr);
                    if k as int == t.len() - 1 {
                        assert(t.last().addr == s.last().addr);
                    } else {
                        assert(t.last() == s.last());
                    }
                }
                let merged = coalesce_blocks(&self.blocks);
                self.blocks = merged;
                return true;
            }
            k = k + 1;
        }
        false
    }

    /// Free payload bytes, used payload bytes and number of blocks.
    pub fn stats(&self) -> (r: (usize, usize, usize))
        requires
            self.wf(),
        ensures
            r.0 == free_bytes(self.blocks()),
            r.1 == used_bytes(self.blocks()),
            r.2 == self.blocks().len(),
    {
        let mut free_b: usize = 0;
        let mut used_b: usize = 0;
        let mut count: usize = 0;
        let ghost s = self.blocks@;
        while count < self.blocks.len()
            invariant
                self.wf(),
                s == self.blocks(),
                0 <= count <= s.len(),
                free_b == free_bytes(s.subrange(0, count as int)),
                used_b == used_bytes(s.subrange(0, count as int)),
            decreases s.len() - count,
        {
            let b = self.blocks[count];
            let ghost p = s.subrange(0, count + 1);
            proof {
                assert(p.drop_last() =~= s.subrange(0, count as int));
                assert(p.last() == b);
                assert forall|i: int, j: int|
                    #![trigger p[i], p[j]]
                    0 <= i && j == i + 1 && j < p.len() implies p[j].addr == block_end(p[i]) by {
                    assert(s[j].addr == block_end(s[i]));
                }
                lemma_bytes_conserved(p);
                assert(block_end(s[count as int]) <= heap_end());
                assert(p[0] == s[0]);
            }
            if b.free {
                free_b = free_b + b.size;
            } else {
                used_b = used_b + b.size;
            }
            count = count + 1;
        }
        proof {
            assert(s.subrange(0, s.len() as int) =~= s);
        }
        (free_b, used_b, count)
    }

    /// The heap map: one line per block with its index, header address,
    /// payload size and state, between a title line and a closing line.
    pub fn print_map(&self) -> (r: Vec<u8>)
        ensures
            r@ == text_bytes("\n=== Linked List Allocateur ===\n") + block_lines(self.blocks(), self.blocks().len() as int)
                + text_bytes("=== Fin linked list ===\n\n"),
    {
        let mut out: Vec<u8> = Vec::new();
        append_bytes(&mut out, "\n=== Linked List Allocateur ===\n".as_bytes());
        let ghost head = out@;
        let mut i: usize = 0;
        while i < self.blocks.len()
            invariant
                0 <= i <= self.blocks().len(),
                out@ == head + block_lines(self.blocks(), i as int),
            decreases self.blocks().len() - i,
        {
            let b = self.blocks[i];
            let ghost before = out@;
            let line = block_line_text(i, b);
            append_bytes(&mut out, line.as_slice());
            proof {
                assert(block_lines(self.blocks(), i + 1) == block_lines(self.blocks(), i as int)
                    + block_line(i as int, self.blocks()[i as int]));
                assert(head + block_lines(self.blocks(), i + 1) =~= out@);
            }
            i = i + 1;
        }
        append_bytes(&mut out, "=== Fin linked list ===\n\n".as_bytes());
        out
    }

    /// Whether `init` has been called.
    pub fn initialized(&self) -> (r: bool)
        ensures
            r == self.is_initialized(),
    {
        self.initialized
    }

    /// Number of blocks.
    pub fn block_count(&self) -> (r: usize)
        ensures
            r == self.blocks().len(),
    {
        self.blocks.len()
    }

    /// Block `i`, in address order.
    pub fn block(&self, i: usize) -> (r: BlockHeader)
        requires
            i < self.blocks().len(),
        ensures
            r == self.blocks()[i as int],
    {
        self.blocks[i]
    }
}

/// Merges every run of neighbouring free blocks, scanning from the first.
fn coalesce_blocks(blocks: &Vec<BlockHeader>) -> (r: Vec<BlockHeader>)
    requires
        blocks@.len() >= 1,
        chained(blocks@),
        ends_within(blocks@, heap_end()),
    ensures
        r@ == coalesce(blocks@),
{
    let ghost s = blocks@;
    let mut out: Vec<BlockHeader> = Vec::new();
    let mut cur: BlockHeader = blocks[0];
    let mut i: usize = 1;
    proof {
        assert(seq![cur] + s.subrange(1, s.len() as int) =~= s);
    }
    while i < blocks.len()
        invariant
            s == blocks@,
            s.len() >= 1,
            chained(s),
            ends_within(s, heap_end()),
            1 <= i <= s.len(),
            coalesce(s) == out@ + coalesce(seq![cur] + s.subrange(i as int, s.len() as int)),
            cur.addr + HEADER_SIZE + cur.size == s[i - 1].addr + HEADER_SIZE + s[i - 1].size,
        decreases s.len() - i,
    {
        let nb = blocks[i];
        let ghost t = seq![cur] + s.subrange(i as int, s.len() as int);
        proof {
            assert(t[0] == cur);
            assert(t[1] == nb);
            assert(s[i as int].addr == block_end(s[i - 1]));
            assert(block_end(s[i as int]) <= heap_end());
        }
        if cur.free && nb.free {
            let merged = BlockHeader { addr: cur.addr, size: cur.size + HEADER_SIZE + nb.size, free: true };
            proof {
                assert(merged == merge(cur, nb));
                assert(seq![merged] + t.subrange(2, t.len() as int) =~= seq![merged] + s.subrange(
                    i + 1,
                    s.len() as int,
                ));
            }
            cur = merged;
        } else {
            let ghost old_out = out@;
            out.push(cur);
            proof {
                assert(t.subrange(1, t.len() as int) =~= seq![nb] + s.subrange(i + 1, s.len() as int));
                assert(old_out + (seq![cur] + coalesce(t.subrange(1, t.len() as int))) =~= out@ + coalesce(
                    seq![nb] + s.subrange(i + 1, s.len() as int),
                ));
            }
            cur = nb;
        }
        i = i + 1;
    }
    let ghost before = out@;
    out.push(cur);
    proof {
        assert(seq![cur] + s.subrange(s.len() as int, s.len() as int) =~= seq![cur]);
        assert(out@ =~= before + seq![cur]);
    }
    out
}

} // verus!
