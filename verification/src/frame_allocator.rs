//! Physical frame allocator: the first 32 MiB of physical memory split into
//! sixteen 2 MiB frames, each free, used or reserved.
use vstd::prelude::*;
use crate::numfmt::{digits, hex_text, format_dec, format_hex, append_bytes};
use crate::vga::text_bytes;

verus! {

/// Size of one frame (a 2 MiB huge page).
pub const FRAME_SIZE: u64 = 2 * 1024 * 1024;

/// Number of frames managed by the allocator (32 MiB / 2 MiB).
pub const FRAME_COUNT: usize = 16;

/// Physical address of the first frame.
pub const MAPPING_START: u64 = 0;

/// State of one physical frame.
#[derive(Debug, Clone, Copy, PartialEq, Eq, Structural)]
pub enum FrameState {
    Free,
    Used,
    /// Kernel image, page tables and the low zone: never handed out.
    Reserved,
}

/// Physical address of frame `i`.
pub open spec fn frame_addr(i: int) -> int {
    MAPPING_START + i * FRAME_SIZE
}

/// Number of free frames in `s`.
pub open spec fn count_free(s: Seq<FrameState>) -> nat
    decreases s.len(),
{
    if s.len() == 0 {
        0
    } else {
        count_free(s.drop_last()) + if s.last() == FrameState::Free { 1nat } else { 0nat }
    }
}

/// `i` is the lowest index of a free frame in `s`.
pub open spec fn is_first_free(s: Seq<FrameState>, i: int) -> bool {
    &&& 0 <= i < s.len()
    &&& s[i] == FrameState::Free
    &&& forall|j: int| 0 <= j < i ==> s[j] != FrameState::Free
}

/// `s` holds no free frame.
pub open spec fn none_free(s: Seq<FrameState>) -> bool {
    forall|j: int| 0 <= j < s.len() ==> s[j] != FrameState::Free
}

pub proof fn lemma_count_free_update(s: Seq<FrameState>, i: int, v: FrameState)
    requires
        0 <= i < s.len(),
    ensures
        count_free(s.update(i, v)) + (if s[i] == FrameState::Free { 1int } else { 0int })
            == count_free(s) + (if v == FrameState::Free { 1int } else { 0int }),
    decreases s.len(),
{
    let t = s.update(i, v);
    if i == s.len() - 1 {
        assert(t.drop_last() =~= s.drop_last());
    } else {
        lemma_count_free_update(s.drop_last(), i, v);
        assert(t.drop_last() =~= s.drop_last().update(i, v));
    }
}

pub proof fn lemma_count_free_bounds(s: Seq<FrameState>)
    ensures
        count_free(s) <= s.len(),
        none_free(s) <==> count_free(s) == 0,
    decreases s.len(),
{
    if s.len() > 0 {
        lemma_count_free_bounds(s.drop_last());
        if !none_free(s) {
            let j = choose|j: int| 0 <= j < s.len() && s[j] == FrameState::Free;
            if j < s.len() - 1 {
                assert(s.drop_last()[j] == FrameState::Free);
            }
        } else {
            assert forall|j: int| 0 <= j < s.drop_last().len() implies s.drop_last()[j]
                != FrameState::Free by {
                assert(s[j] != FrameState::Free);
            }
        }
    }
}

/// Frame allocator over a fixed table of frame states.
pub struct FrameAllocator {
    frames: [FrameState; FRAME_COUNT],
    free_count: usize,
}

impl View for FrameAllocator {
    type V = Seq<FrameState>;

    closed spec fn view(&self) -> Seq<FrameState> {
        self.frames@
    }
}

impl FrameAllocator {
    /// The cached counter of free frames matches the table.
    pub closed spec fn counter_matches(&self) -> bool {
        self.free_count == count_free(self.frames@)
    }

    /// The allocator's internal consistency: one state per frame, and the
    /// cached counter matches the table.
    pub open spec fn wf(&self) -> bool {
        &&& self@.len() == FRAME_COUNT
        &&& self.counter_matches()
    }

    /// A consistent allocator has one state per frame, so its free count
    /// never exceeds the number of frames.
    pub proof fn lemma_wf_frames(&self)
        requires
            self.wf(),
        ensures
            self@.len() == FRAME_COUNT,
            count_free(self@) <= FRAME_COUNT,
    {
        lemma_count_free_bounds(self.frames@);
    }

    /// A new allocator with every frame free.
    pub fn new() -> (r: Self)
        ensures
            r.wf(),
            r@.len() == FRAME_COUNT,
            forall|i: int| 0 <= i < FRAME_COUNT ==> r@[i] == FrameState::Free,
    {
        let r = FrameAllocator { frames: [FrameState::Free; FRAME_COUNT], free_count: FRAME_COUNT };
        proof {
            assert(r.frames@.len() == FRAME_COUNT);
            assert forall|k: int| 0 <= k <= FRAME_COUNT implies count_free(r.frames@.subrange(0, k))
                == k by {
                lemma_count_free_prefix_all_free(r.frames@, k);
            }
            assert(r.frames@.subrange(0, FRAME_COUNT as int) =~= r.frames@);
        }
        r
    }

    /// Marks frame `index` reserved when it exists and is free.
    fn reserve_frame(&mut self, index: usize)
        requires
            old(self).wf(),
        ensures
            final(self).wf(),
            final(self)@ == if index < FRAME_COUNT && old(self)@[index as int] == FrameState::Free {
                old(self)@.update(index as int, FrameState::Reserved)
            } else {
                old(self)@
            },
    {
        if index < FRAME_COUNT && self.frames[index] == FrameState::Free {
            proof {
                lemma_count_free_update(self.frames@, index as int, FrameState::Reserved);
            }
            self.frames[index] = FrameState::Reserved;
            self.free_count = self.free_count - 1;
        }
    }

    /// Reserves the low zone (frame 0), the kernel image (frame 1) and the
    /// page tables (frame 2); the other frames keep their state.
    pub fn init(&mut self)
        requires
            old(self).wf(),
        ensures
            final(self).wf(),
            final(self)@ == reserve_low_frames(old(self)@),
            final(self)@.len() == FRAME_COUNT,
    {
        self.reserve_frame(0);
        self.reserve_frame(1);
        self.reserve_frame(2);
    }

    /// Allocates the free frame with the lowest index and returns its
    /// physical address; `None` when no frame is free.
    pub fn allocate(&mut self) -> (r: Option<u64>)
        requires
            old(self).wf(),
        ensures
            final(self).wf(),
            r is None <==> none_free(old(self)@),
            r is None ==> final(self)@ == old(self)@,
            r matches Some(a) ==> exists|i: int|
                #![trigger is_first_free(old(self)@, i)]
                is_first_free(old(self)@, i) && a == frame_addr(i)
                    && final(self)@ == old(self)@.update(i, FrameState::Used),
            final(self)@.len() == FRAME_COUNT,
            r is Some ==> count_free(final(self)@) + 1 == count_free(old(self)@),
    {
        let mut i: usize = 0;
        while i < FRAME_COUNT
            invariant
                self.wf(),
                self@ == old(self)@,
                0 <= i <= FRAME_COUNT,
                forall|j: int| 0 <= j < i ==> self@[j] != FrameState::Free,
            decreases FRAME_COUNT - i,
        {
            if self.frames[i] == FrameState::Free {
                proof {
                    lemma_count_free_update(self.frames@, i as int, FrameState::Used);
                    assert(is_first_free(old(self)@, i as int));
                }
                self.frames[i] = FrameState::Used;
                self.free_count = self.free_count - 1;
                assert((i as u64) * FRAME_SIZE <= 15 * FRAME_SIZE) by (nonlinear_arith)
                    requires i < 16;
                let phys_addr: u64 = MAPPING_START + (i as u64) * FRAME_SIZE;
                return Some(phys_addr);
            }
            i = i + 1;
        }
        None
    }

    /// Frees the used frame at physical address `phys_addr`. Returns `false`,
    /// and changes nothing, for an address past the last frame, a reserved
    /// frame or a frame that is already free.
    pub fn free(&mut self, phys_addr: u64) -> (r: bool)
        requires
            old(self).wf(),
        ensures
            final(self).wf(),
            r <==> frame_index(phys_addr as int) < FRAME_COUNT
                && old(self)@[frame_index(phys_addr as int)] == FrameState::Used,
            r ==> final(self)@ == old(self)@.update(frame_index(phys_addr as int), FrameState::Free),
            !r ==> final(self)@ == old(self)@,
            final(self)@.len() == FRAME_COUNT,
            r ==> count_free(final(self)@) == count_free(old(self)@) + 1,
    {
        let index: u64 = (phys_addr - MAPPING_START) / FRAME_SIZE;
        if index >= FRAME_COUNT as u64 {
            return false;
        }
        let index: usize = index as usize;
        if self.frames[index] == FrameState::Reserved {
            return false;
        }
        if self.frames[index] == FrameState::Used {
            proof {
                lemma_count_free_update(self.frames@, index as int, FrameState::Free);
                lemma_count_free_bounds(self.frames@.update(index as int, FrameState::Free));
            }
            self.frames[index] = FrameState::Free;
            self.free_count = self.free_count + 1;
            return true;
        }
        false
    }

    /// Number of free frames.
    pub fn free_count(&self) -> (r: usize)
        requires
            self.wf(),
        ensures
            r == count_free(self@),
            r <= FRAME_COUNT,
    {
        proof {
            lemma_count_free_bounds(self.frames@);
        }
        self.free_count
    }

    /// Total number of frames.
    pub fn total_count(&self) -> (r: usize)
        ensures
            r == FRAME_COUNT,
    {
        FRAME_COUNT
    }

    /// The statistics line: free frames and total frames.
    pub fn print_stats(&self) -> (r: Vec<u8>)
        requires
            self.wf(),
        ensures
            r@ == text_bytes("  Frames : ") + digits(count_free(self@), 10) + text_bytes(" libres / ")
                + digits(FRAME_COUNT as nat, 10) + text_bytes(" total\n"),
    {
        let mut out: Vec<u8> = Vec::new();
        append_bytes(&mut out, "  Frames : ".as_bytes());
        let free_text = format_dec(self.free_count as u64);
        append_bytes(&mut out, free_text.as_slice());
        append_bytes(&mut out, " libres / ".as_bytes());
        let total_text = format_dec(FRAME_COUNT as u64);
        append_bytes(&mut out, total_text.as_slice());
        append_bytes(&mut out, " total\n".as_bytes());
        out
    }

    /// The memory map: one line per frame with its index, its address range
    /// and its state, between a title line and a closing line.
    pub fn print_map(&self) -> (r: Vec<u8>)
        requires
            self.wf(),
        ensures
            r@ == text_bytes("\n=== Carte memoire (frames 2Mo) ===\n") + frame_lines(self@, FRAME_COUNT as int)
                + text_bytes("=== Fin carte memoire ===\n\n"),
    {
        let mut out: Vec<u8> = Vec::new();
        append_bytes(&mut out, "\n=== Carte memoire (frames 2Mo) ===\n".as_bytes());
        let ghost head = out@;
        let mut i: usize = 0;
        while i < FRAME_COUNT
            invariant
                self.wf(),
                0 <= i <= FRAME_COUNT,
                out@ == head + frame_lines(self@, i as int),
            decreases FRAME_COUNT - i,
        {
            assert((i as u64) * FRAME_SIZE <= 15 * FRAME_SIZE) by (nonlinear_arith)
                requires
                    i < 16,
            ;
            let addr: u64 = MAPPING_START + (i as u64) * FRAME_SIZE;
            let ghost before = out@;
            append_bytes(&mut out, "  Frame ".as_bytes());
            let index_text = format_dec(i as u64);
            append_bytes(&mut out, index_text.as_slice());
            append_bytes(&mut out, " [".as_bytes());
            let start_text = format_hex(addr);
            append_bytes(&mut out, start_text.as_slice());
            append_bytes(&mut out, " - ".as_bytes());
            let end_text = format_hex(addr + FRAME_SIZE - 1);
            append_bytes(&mut out, end_text.as_slice());
            append_bytes(&mut out, "] : ".as_bytes());
            match self.frames[i] {
                FrameState::Free => append_bytes(&mut out, "LIBRE".as_bytes()),
                FrameState::Used => append_bytes(&mut out, "UTILISE".as_bytes()),
                FrameState::Reserved => append_bytes(&mut out, "RESERVE".as_bytes()),
            }
            append_bytes(&mut out, "\n".as_bytes());
            proof {
                assert(out@ =~= before + frame_line(i as int, self@[i as int]));
                assert(frame_lines(self@, i + 1) == frame_lines(self@, i as int) + frame_line(
                    i as int,
                    self@[i as int],
                ));
                assert(head + frame_lines(self@, i + 1) =~= out@);
            }
            i = i + 1;
        }
        append_bytes(&mut out, "=== Fin carte memoire ===\n\n".as_bytes());
        out
    }

    /// State of frame `i`.
    pub fn state(&self, i: usize) -> (r: FrameState)
        requires
            self.wf(),
            i < FRAME_COUNT,
        ensures
            r == self@[i as int],
    {
        self.frames[i]
    }
}

/// Freeing the address that `allocate` returned succeeds and gives back the
/// table as it was before the allocation.
pub proof fn law_free_undoes_allocate(s: Seq<FrameState>, i: int)
    requires
        s.len() == FRAME_COUNT,
        is_first_free(s, i),
    ensures
        frame_index(frame_addr(i)) == i,
        0 <= frame_addr(i) <= u64::MAX,
        frame_index(frame_addr(i)) < FRAME_COUNT,
        s.update(i, FrameState::Used)[frame_index(frame_addr(i))] == FrameState::Used,
        s.update(i, FrameState::Used).update(frame_index(frame_addr(i)), FrameState::Free) == s,
        count_free(s.update(i, FrameState::Used)) + 1 == count_free(s),
        is_first_free(s.update(i, FrameState::Used).update(frame_index(frame_addr(i)), FrameState::Free), i),
{
    lemma_count_free_update(s, i, FrameState::Used);
    assert(frame_addr(i) / (FRAME_SIZE as int) == i) by (nonlinear_arith)
        requires
            0 <= i < 16,
            frame_addr(i) == i * 2097152,
    ;
    assert(frame_addr(i) <= 15 * 2097152) by (nonlinear_arith)
        requires
            0 <= i < 16,
            frame_addr(i) == i * 2097152,
    ;
    assert(s.update(i, FrameState::Used).update(i, FrameState::Free) =~= s);
}

/// Every address handed out is the start of a 2 MiB frame inside the
/// 32 MiB managed by the allocator.
pub proof fn law_frame_addresses(i: int)
    requires
        0 <= i < FRAME_COUNT,
    ensures
        frame_addr(i) % (FRAME_SIZE as int) == 0,
        0 <= frame_addr(i),
        frame_addr(i) + FRAME_SIZE <= FRAME_COUNT * FRAME_SIZE,
{
    assert(frame_addr(i) % 2097152 == 0 && frame_addr(i) + 2097152 <= 16 * 2097152) by (nonlinear_arith)
        requires
            0 <= i < 16,
            frame_addr(i) == i * 2097152,
    ;
}

/// Reserved frames stay reserved: allocating turns a free frame into a used
/// one and freeing a used frame into a free one, nothing else changes.
pub proof fn law_reserved_frames_stay_reserved(s: Seq<FrameState>, i: int, j: int)
    requires
        0 <= i < s.len(),
        0 <= j < s.len(),
        s[j] == FrameState::Reserved,
    ensures
        s[i] == FrameState::Free ==> s.update(i, FrameState::Used)[j] == FrameState::Reserved,
        s[i] == FrameState::Used ==> s.update(i, FrameState::Free)[j] == FrameState::Reserved,
{
}

/// On a fresh allocator, `init` reserves the low zone, the kernel and the
/// page tables and leaves the other thirteen frames free.
pub proof fn law_init_reserves_low_frames(s: Seq<FrameState>)
    requires
        s.len() == FRAME_COUNT,
        forall|i: int| 0 <= i < FRAME_COUNT ==> s[i] == FrameState::Free,
    ensures
        forall|i: int| 0 <= i < 3 ==> reserve_low_frames(s)[i] == FrameState::Reserved,
        forall|i: int| 3 <= i < FRAME_COUNT ==> reserve_low_frames(s)[i] == FrameState::Free,
        count_free(reserve_low_frames(s)) == 13,
{
    let r = reserve_low_frames(s);
    lemma_count_free_update(s, 0, FrameState::Reserved);
    lemma_count_free_update(s.update(0, FrameState::Reserved), 1, FrameState::Reserved);
    lemma_count_free_update(s.update(0, FrameState::Reserved).update(1, FrameState::Reserved), 2, FrameState::Reserved);
    assert forall|k: int| 0 <= k <= FRAME_COUNT implies count_free(s.subrange(0, k)) == k by {
        lemma_count_free_prefix_all_free(s, k);
    }
    assert(s.subrange(0, FRAME_COUNT as int) =~= s);
}

/// Label of a frame state in the memory map.
pub open spec fn state_label(st: FrameState) -> Seq<u8> {
    match st {
        FrameState::Free => text_bytes("LIBRE"),
        FrameState::Used => text_bytes("UTILISE"),
        FrameState::Reserved => text_bytes("RESERVE"),
    }
}

/// Memory map line of frame `i` in state `st`.
pub open spec fn frame_line(i: int, st: FrameState) -> Seq<u8> {
    text_bytes("  Frame ") + digits(i as nat, 10) + text_bytes(" [") + hex_text(frame_addr(i) as nat)
        + text_bytes(" - ") + hex_text((frame_addr(i) + FRAME_SIZE - 1) as nat) + text_bytes("] : ")
        + state_label(st) + text_bytes("\n")
}

/// Memory map lines of the first `n` frames of `s`.
pub open spec fn frame_lines(s: Seq<FrameState>, n: int) -> Seq<u8>
    decreases n,
{
    if n <= 0 {
        Seq::empty()
    } else {
        frame_lines(s, n - 1) + frame_line(n - 1, s[n - 1])
    }
}

/// Index of the frame holding physical address `a`.
pub open spec fn frame_index(a: int) -> int {
    (a - MAPPING_START) / (FRAME_SIZE as int)
}

/// `s` after reserving frame `i` if it is free.
pub open spec fn reserve_if_free(s: Seq<FrameState>, i: int) -> Seq<FrameState> {
    if s[i] == FrameState::Free {
        s.update(i, FrameState::Reserved)
    } else {
        s
    }
}

/// `s` after reserving the low zone, the kernel image and the page tables.
pub open spec fn reserve_low_frames(s: Seq<FrameState>) -> Seq<FrameState> {
    reserve_if_free(reserve_if_free(reserve_if_free(s, 0), 1), 2)
}

proof fn lemma_count_free_prefix_all_free(s: Seq<FrameState>, k: int)
    requires
        0 <= k <= s.len(),
        forall|i: int| 0 <= i < s.len() ==> s[i] == FrameState::Free,
    ensures
        count_free(s.subrange(0, k)) == k,
    decreases k,
{
    if k > 0 {
        lemma_count_free_prefix_all_free(s, k - 1);
        assert(s.subrange(0, k).drop_last() =~= s.subrange(0, k - 1));
    }
}

} // verus!
