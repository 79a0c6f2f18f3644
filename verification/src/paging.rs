//! x86_64 page-table entries: decoding the flags and the physical address,
//! locating entries in their tables, and the entries the kernel writes
//! (the no-execute bit on data pages, the huge pages of the heap).
use vstd::prelude::*;
use crate::frame_allocator::{FrameAllocator, FrameState, none_free, is_first_free, frame_addr};
use crate::heap::HEAP_START;

verus! {

/// Present flag (bit 0).
pub const PRESENT: u64 = 1;

/// Writable flag (bit 1).
pub const WRITABLE: u64 = 2;

/// Huge page flag (bit 7): the entry maps a 2 MiB (PD) or 1 GiB (PDPT) page.
pub const HUGE: u64 = 0x80;

/// No-execute flag (bit 63).
pub const NX_BIT: u64 = 0x8000_0000_0000_0000;

/// Bits 12 to 51 of an entry: the physical address it points to.
pub const ADDR_MASK: u64 = 0x000F_FFFF_FFFF_F000;

/// Entries per table.
pub const ENTRIES_PER_TABLE: usize = 512;

/// Size of a huge page mapped by a page directory entry.
pub const HUGE_PAGE_SIZE: u64 = 2 * 1024 * 1024;

/// Physical address of the 2 MiB page holding the kernel code.
pub const KERNEL_TEXT_PAGE: u64 = 0x200000;

/// Number of huge pages backing the heap.
pub const HEAP_PAGES: u64 = 4;

/// Flags of a heap page directory entry: present, writable, huge.
pub const HEAP_ENTRY_FLAGS: u64 = 0x83;

/// The entry's present flag.
pub open spec fn present(e: u64) -> bool {
    e & PRESENT != 0
}

/// The entry's huge page flag.
pub open spec fn huge(e: u64) -> bool {
    e & HUGE != 0
}

/// The entry's no-execute flag.
pub open spec fn no_execute(e: u64) -> bool {
    e & NX_BIT != 0
}

/// The entry's writable flag.
pub open spec fn writable(e: u64) -> bool {
    e & WRITABLE != 0
}

/// The physical address an entry points to.
pub open spec fn entry_phys(e: u64) -> u64 {
    e & ADDR_MASK
}

/// Whether the entry maps something.
pub fn is_present(entry: u64) -> (r: bool)
    ensures
        r == present(entry),
{
    entry & PRESENT != 0
}

/// Whether the entry maps a huge page instead of pointing to a table.
pub fn is_huge(entry: u64) -> (r: bool)
    ensures
        r == huge(entry),
{
    entry & HUGE != 0
}

/// Whether the entry forbids instruction fetches.
pub fn is_nx(entry: u64) -> (r: bool)
    ensures
        r == no_execute(entry),
{
    entry & NX_BIT != 0
}

/// Physical address the entry points to (bits 12 to 51).
pub fn phys_addr(entry: u64) -> (r: u64)
    ensures
        r == entry_phys(entry),
        r % 4096 == 0,
        r < 0x10_0000_0000_0000,
{
    let r: u64 = entry & ADDR_MASK;
    assert(r % 4096 == 0 && r < 0x10_0000_0000_0000) by (bit_vector)
        requires
            r == entry & 0x000F_FFFF_FFFF_F000u64,
    ;
    r
}

/// The table an entry leads to: its physical address when the entry is
/// present, `None` when it is not.
pub fn next_table(entry: u64) -> (r: Option<u64>)
    ensures
        r == if present(entry) { Some(entry_phys(entry)) } else { None::<u64> },
{
    if is_present(entry) {
        Some(phys_addr(entry))
    } else {
        None
    }
}

/// Physical address of the top-level table (PML4) held in CR3, without
/// the flag bits.
pub fn table_base(cr3: u64) -> (r: u64)
    ensures
        r == cr3 & !0xFFFu64,
        r % 4096 == 0,
        r <= cr3,
{
    let r: u64 = cr3 & !0xFFFu64;
    assert(r % 4096 == 0 && r <= cr3) by (bit_vector)
        requires
            r == cr3 & !0xFFFu64,
    ;
    r
}

/// Physical address of entry `index` of the table at `table`.
pub fn entry_address(table: u64, index: usize) -> (r: u64)
    requires
        index < ENTRIES_PER_TABLE,
        table + 8 * index <= u64::MAX,
    ensures
        r == table + 8 * index,
{
    table + (index * 8) as u64
}

/// Last byte of the huge page starting at `page`.
pub fn huge_page_last_byte(page: u64) -> (r: u64)
    requires
        page + 0x1FFFFF <= u64::MAX,
    ensures
        r == page + 0x1FFFFF,
{
    page + 0x1FFFFF
}

/// What `enable_nx_on_data_pages` does with one page directory entry.
#[derive(Debug, Clone, Copy, PartialEq, Eq, Structural)]
pub enum NxAction {
    /// Not a present huge page: left alone.
    Skip,
    /// The huge page holding the kernel code: kept executable.
    KeepKernelText,
    /// Any other huge page: rewritten with this value, the no-execute bit set.
    SetNx(u64),
}

/// The action for a page directory entry when marking data pages
/// non-executable.
pub open spec fn nx_action(e: u64) -> NxAction {
    if !present(e) || !huge(e) {
        NxAction::Skip
    } else if entry_phys(e) == KERNEL_TEXT_PAGE {
        NxAction::KeepKernelText
    } else {
        NxAction::SetNx(e | NX_BIT)
    }
}

/// Only present huge pages are touched; of those, the page at physical
/// 0x200000 (the kernel code) alone stays executable, and every other one is
/// rewritten with bit 63 set and nothing else changed.
pub proof fn law_nx_only_kernel_text_stays_executable(e: u64)
    ensures
        e & 1 == 0 || e & 0x80 == 0 ==> nx_action(e) == NxAction::Skip,
        e & 1 != 0 && e & 0x80 != 0 && e & 0x000F_FFFF_FFFF_F000 == 0x200000
            ==> nx_action(e) == NxAction::KeepKernelText,
        e & 1 != 0 && e & 0x80 != 0 && e & 0x000F_FFFF_FFFF_F000 != 0x200000
            ==> nx_action(e) == NxAction::SetNx(e | 0x8000_0000_0000_0000),
        nx_action(e) == NxAction::KeepKernelText ==> e & 0x000F_FFFF_FFFF_F000 == 0x200000,
{
}

/// Decides how to treat a page directory entry when marking every data
/// page non-executable: only present huge pages other than the kernel code
/// page get the no-execute bit.
pub fn nx_decision(pd_entry: u64) -> (r: NxAction)
    ensures
        r == nx_action(pd_entry),
        pd_entry & 1 == 0 || pd_entry & 0x80 == 0 ==> r == NxAction::Skip,
        pd_entry & 1 != 0 && pd_entry & 0x80 != 0 && pd_entry & 0x000F_FFFF_FFFF_F000 == 0x200000
            ==> r == NxAction::KeepKernelText,
        pd_entry & 1 != 0 && pd_entry & 0x80 != 0 && pd_entry & 0x000F_FFFF_FFFF_F000 != 0x200000
            ==> r == NxAction::SetNx(pd_entry | 0x8000_0000_0000_0000),
{
    proof {
        law_nx_only_kernel_text_stays_executable(pd_entry);
    }
    if !is_present(pd_entry) {
        return NxAction::Skip;
    }
    if !is_huge(pd_entry) {
        return NxAction::Skip;
    }
    let page_phys: u64 = phys_addr(pd_entry);
    if page_phys == KERNEL_TEXT_PAGE {
        NxAction::KeepKernelText
    } else {
        NxAction::SetNx(pd_entry | NX_BIT)
    }
}

/// Setting the no-execute bit changes nothing else: the entry stays present,
/// huge, with the same address, and is now non-executable.
pub proof fn lemma_nx_keeps_mapping(e: u64)
    ensures
        no_execute(e | NX_BIT),
        present(e | NX_BIT) == present(e),
        huge(e | NX_BIT) == huge(e),
        writable(e | NX_BIT) == writable(e),
        entry_phys(e | NX_BIT) == entry_phys(e),
{
    assert((e | 0x8000_0000_0000_0000u64) & 0x8000_0000_0000_0000u64 != 0) by (bit_vector);
    assert(((e | 0x8000_0000_0000_0000u64) & 1u64 != 0) == (e & 1u64 != 0)) by (bit_vector);
    assert(((e | 0x8000_0000_0000_0000u64) & 0x80u64 != 0) == (e & 0x80u64 != 0)) by (bit_vector);
    assert(((e | 0x8000_0000_0000_0000u64) & 2u64 != 0) == (e & 2u64 != 0)) by (bit_vector);
    assert((e | 0x8000_0000_0000_0000u64) & 0x000F_FFFF_FFFF_F000u64 == e & 0x000F_FFFF_FFFF_F000u64)
        by (bit_vector);
}

/// The entries of `table[..n]` that satisfy `keep`, with their index, in
/// table order.
pub open spec fn selected(table: Seq<u64>, n: int, keep: spec_fn(u64) -> bool) -> Seq<(usize, u64)>
    decreases n,
{
    if n <= 0 {
        Seq::empty()
    } else if keep(table[n - 1]) {
        selected(table, n - 1, keep).push(((n - 1) as usize, table[n - 1]))
    } else {
        selected(table, n - 1, keep)
    }
}

/// What a selection holds: entries of `table[..n]` that satisfy `keep`, each
/// with its own index, in increasing index order, and every such entry.
pub proof fn lemma_selected(table: Seq<u64>, n: int, keep: spec_fn(u64) -> bool)
    requires
        0 <= n <= table.len(),
        table.len() <= usize::MAX,
    ensures
        forall|k: int|
            0 <= k < selected(table, n, keep).len() ==> {
                let p = #[trigger] selected(table, n, keep)[k];
                0 <= p.0 < n && table[p.0 as int] == p.1 && keep(p.1)
            },
        forall|k1: int, k2: int|
            0 <= k1 < k2 < selected(table, n, keep).len() ==> (#[trigger] selected(table, n, keep)[k1]).0
                < (#[trigger] selected(table, n, keep)[k2]).0,
        forall|i: int|
            0 <= i < n && #[trigger] keep(table[i]) ==> selected(table, n, keep).contains((i as usize, table[i])),
    decreases n,
{
    if n > 0 {
        lemma_selected(table, n - 1, keep);
        let prev = selected(table, n - 1, keep);
        let cur = selected(table, n, keep);
        if keep(table[n - 1]) {
            assert(cur == prev.push(((n - 1) as usize, table[n - 1])));
            assert forall|k1: int, k2: int| 0 <= k1 < k2 < cur.len() implies (#[trigger] cur[k1]).0
                < (#[trigger] cur[k2]).0 by {
                if k2 == prev.len() {
                    assert(cur[k1] == prev[k1]);
                } else {
                    assert(cur[k1] == prev[k1] && cur[k2] == prev[k2]);
                }
            }
            assert forall|i: int| 0 <= i < n && #[trigger] keep(table[i]) implies cur.contains(
                (i as usize, table[i]),
            ) by {
                if i < n - 1 {
                    let k = choose|k: int| 0 <= k < prev.len() && prev[k] == (i as usize, table[i]);
                    assert(cur[k] == prev[k]);
                } else {
                    assert(cur[prev.len() as int] == (i as usize, table[i]));
                }
            }
        } else {
            assert forall|i: int| 0 <= i < n && #[trigger] keep(table[i]) implies cur.contains(
                (i as usize, table[i]),
            ) by {
                assert(i < n - 1);
            }
        }
    }
}

/// An entry the walk descends through: present, and not a huge page when
/// huge pages end the walk at this level.
pub open spec fn descends(e: u64, huge_ends_walk: bool) -> bool {
    present(e) && !(huge_ends_walk && huge(e))
}

/// Entries of a table that lead to a lower-level table: the present ones,
/// leaving out huge pages when `huge_ends_walk`. Each comes with its index.
pub fn present_children(table: &[u64], huge_ends_walk: bool) -> (r: Vec<(usize, u64)>)
    ensures
        r@ == selected(table@, table@.len() as int, |e: u64| descends(e, huge_ends_walk)),
        forall|k: int|
            0 <= k < r@.len() ==> {
                let p = #[trigger] r@[k];
                &&& p.0 < table@.len()
                &&& table@[p.0 as int] == p.1
                &&& p.1 & 1 != 0
                &&& !(huge_ends_walk && p.1 & 0x80 != 0)
            },
        forall|k1: int, k2: int| 0 <= k1 < k2 < r@.len() ==> (#[trigger] r@[k1]).0 < (#[trigger] r@[k2]).0,
        forall|i: int|
            0 <= i < table@.len() && #[trigger] table@[i] & 1 != 0 && !(huge_ends_walk && table@[i] & 0x80 != 0)
                ==> r@.contains((i as usize, table@[i])),
{
    let mut out: Vec<(usize, u64)> = Vec::new();
    let mut i: usize = 0;
    while i < table.len()
        invariant
            0 <= i <= table@.len(),
            out@ == selected(table@, i as int, |e: u64| descends(e, huge_ends_walk)),
        decreases table@.len() - i,
    {
        let e: u64 = table[i];
        if is_present(e) && !(huge_ends_walk && is_huge(e)) {
            out.push((i, e));
        }
        i = i + 1;
    }
    proof {
        let keep = |e: u64| descends(e, huge_ends_walk);
        assert(table@.len() <= usize::MAX);
        lemma_selected(table@, table@.len() as int, keep);
        assert forall|i: int|
            0 <= i < table@.len() && #[trigger] table@[i] & 1 != 0 && !(huge_ends_walk && table@[i] & 0x80 != 0)
            implies out@.contains((i as usize, table@[i])) by {
            assert(keep(table@[i]));
        }
    }
    out
}

/// Entry `e` of a page directory needs an action when marking data pages
/// non-executable.
pub open spec fn needs_nx_action(e: u64) -> bool {
    nx_action(e) != NxAction::Skip
}

/// Actions on one page directory when marking data pages non-executable:
/// for every present huge page, in table order, its index and whether it is
/// kept executable (the kernel code) or rewritten with the no-execute bit.
pub fn nx_table_updates(pd: &[u64]) -> (r: Vec<(usize, NxAction)>)
    ensures
        r@ == selected(pd@, pd@.len() as int, |e: u64| needs_nx_action(e)).map_values(
            |p: (usize, u64)| (p.0, nx_action(p.1)),
        ),
{
    let mut out: Vec<(usize, NxAction)> = Vec::new();
    let mut i: usize = 0;
    while i < pd.len()
        invariant
            0 <= i <= pd@.len(),
            out@ == selected(pd@, i as int, |e: u64| needs_nx_action(e)).map_values(
                |p: (usize, u64)| (p.0, nx_action(p.1)),
            ),
        decreases pd@.len() - i,
    {
        let e: u64 = pd[i];
        let action = nx_decision(e);
        let ghost before = out@;
        match action {
            NxAction::Skip => {},
            _ => {
                out.push((i, action));
            },
        }
        proof {
            let sel = selected(pd@, i as int, |e: u64| needs_nx_action(e));
            let f = |p: (usize, u64)| (p.0, nx_action(p.1));
            if needs_nx_action(e) {
                assert(sel.push((i, e)).map_values(f) =~= sel.map_values(f).push((i, action)));
            }
        }
        i = i + 1;
    }
    out
}

/// Present entries of a page table: the first three (index and physical
/// address of the page) and how many there are in all.
pub fn pt_summary(pt: &[u64]) -> (r: (Vec<(usize, u64)>, usize))
    ensures
        r.1 == selected(pt@, pt@.len() as int, |e: u64| present(e)).len(),
        r.0@ == selected(pt@, pt@.len() as int, |e: u64| present(e)).take(
            if r.1 < 3 { r.1 as int } else { 3 },
        ).map_values(|p: (usize, u64)| (p.0, entry_phys(p.1))),
{
    let mut shown: Vec<(usize, u64)> = Vec::new();
    let mut count: usize = 0;
    let mut i: usize = 0;
    while i < pt.len()
        invariant
            0 <= i <= pt@.len(),
            count == selected(pt@, i as int, |e: u64| present(e)).len(),
            count <= i,
            shown@ == selected(pt@, i as int, |e: u64| present(e)).take(
                if count < 3 { count as int } else { 3 },
            ).map_values(|p: (usize, u64)| (p.0, entry_phys(p.1))),
        decreases pt@.len() - i,
    {
        let e: u64 = pt[i];
        let ghost sel = selected(pt@, i as int, |e: u64| present(e));
        if is_present(e) {
            if count < 3 {
                shown.push((i, phys_addr(e)));
            }
            count = count + 1;
            proof {
                let f = |p: (usize, u64)| (p.0, entry_phys(p.1));
                let sel2 = sel.push((i, e));
                if count <= 3 {
                    assert(sel2.take(count as int) =~= sel.take((count - 1) as int).push((i, e)));
                    assert(sel2.take(count as int).map_values(f) =~= sel.take((count - 1) as int).map_values(
                        f,
                    ).push((i, entry_phys(e))));
                } else {
                    assert(sel2.take(3) =~= sel.take(3));
                }
            }
        }
        i = i + 1;
    }
    (shown, count)
}

/// Index of the page directory entry that maps the first heap page.
pub fn heap_pd_start() -> (r: usize)
    ensures
        r == HEAP_START / HUGE_PAGE_SIZE,
        r == 32,
{
    (HEAP_START / HUGE_PAGE_SIZE) as usize
}

/// Virtual address of heap page `i`.
pub fn heap_page_address(i: u64) -> (r: u64)
    requires
        i < HEAP_PAGES,
    ensures
        r == HEAP_START + i * HUGE_PAGE_SIZE,
{
    assert(i * HUGE_PAGE_SIZE <= 3 * HUGE_PAGE_SIZE) by (nonlinear_arith)
        requires
            i < 4,
    ;
    HEAP_START + i * HUGE_PAGE_SIZE
}

/// Page directory entry mapping the huge page at `phys` for the heap:
/// present, writable, huge.
pub fn heap_pd_entry(phys: u64) -> (r: u64)
    ensures
        r == phys | HEAP_ENTRY_FLAGS,
{
    phys | HEAP_ENTRY_FLAGS
}

/// A heap entry for a frame-aligned address maps exactly that frame as a
/// present, writable, executable huge page.
pub proof fn lemma_heap_entry_maps_frame(phys: u64)
    requires
        phys % HUGE_PAGE_SIZE == 0,
        phys < 0x10_0000_0000_0000,
    ensures
        present(phys | HEAP_ENTRY_FLAGS),
        writable(phys | HEAP_ENTRY_FLAGS),
        huge(phys | HEAP_ENTRY_FLAGS),
        !no_execute(phys | HEAP_ENTRY_FLAGS),
        entry_phys(phys | HEAP_ENTRY_FLAGS) == phys,
{
    assert((phys | 0x83u64) & 1u64 != 0) by (bit_vector);
    assert((phys | 0x83u64) & 2u64 != 0) by (bit_vector);
    assert((phys | 0x83u64) & 0x80u64 != 0) by (bit_vector);
    assert((phys | 0x83u64) & 0x8000_0000_0000_0000u64 == 0) by (bit_vector)
        requires
            phys < 0x10_0000_0000_0000u64,
    ;
    assert((phys | 0x83u64) & 0x000F_FFFF_FFFF_F000u64 == phys) by (bit_vector)
        requires
            phys % 0x200000u64 == 0,
            phys < 0x10_0000_0000_0000u64,
    ;
}

/// What happens to one heap page directory slot.
#[derive(Debug, Clone, Copy, PartialEq, Eq, Structural)]
pub enum HeapSlot {
    /// The entry is already present: left as it is.
    AlreadyMapped,
    /// A frame was allocated at `phys`; `entry` is to be written in the slot.
    Mapped { phys: u64, entry: u64 },
    /// No frame is left: mapping stops.
    OutOfFrames,
}

/// Decides how to fill one heap slot holding `existing`: a present entry is
/// kept; otherwise a frame is allocated and an entry mapping it is returned.
pub fn map_heap_slot(existing: u64, frames: &mut FrameAllocator) -> (r: HeapSlot)
    requires
        old(frames).wf(),
    ensures
        final(frames).wf(),
        present(existing) ==> r == HeapSlot::AlreadyMapped && final(frames)@ == old(frames)@,
        !present(existing) && none_free(old(frames)@) ==> r == HeapSlot::OutOfFrames
            && final(frames)@ == old(frames)@,
        !present(existing) && !none_free(old(frames)@) ==> exists|i: int|
            #![trigger is_first_free(old(frames)@, i)]
            is_first_free(old(frames)@, i) && final(frames)@ == old(frames)@.update(i, FrameState::Used)
                && r == (HeapSlot::Mapped {
                    phys: frame_addr(i) as u64,
                    entry: (frame_addr(i) as u64) | HEAP_ENTRY_FLAGS,
                }),
{
    if is_present(existing) {
        return HeapSlot::AlreadyMapped;
    }
    match frames.allocate() {
        Some(phys) => HeapSlot::Mapped { phys, entry: heap_pd_entry(phys) },
        None => HeapSlot::OutOfFrames,
    }
}

/// The lowest index of a free frame in `s` (meaningful when one is free).
pub open spec fn first_free_index(s: Seq<FrameState>) -> int {
    choose|i: int| is_first_free(s, i)
}

/// What `map_heap_slot` gives for a slot holding `e` when the frames are
/// `s`, with the frames after it.
pub open spec fn slot_step(e: u64, s: Seq<FrameState>) -> (HeapSlot, Seq<FrameState>) {
    if present(e) {
        (HeapSlot::AlreadyMapped, s)
    } else if none_free(s) {
        (HeapSlot::OutOfFrames, s)
    } else {
        let i = first_free_index(s);
        (
            HeapSlot::Mapped {
                phys: frame_addr(i) as u64,
                entry: (frame_addr(i) as u64) | HEAP_ENTRY_FLAGS,
            },
            s.update(i, FrameState::Used),
        )
    }
}

/// The outcomes of filling the slots holding `es`, in order, from frames
/// `s`, stopping after the first slot for which no frame is left; with the
/// frames at the end.
pub open spec fn slots_plan(es: Seq<u64>, s: Seq<FrameState>) -> (Seq<HeapSlot>, Seq<FrameState>)
    decreases es.len(),
{
    if es.len() == 0 {
        (Seq::empty(), s)
    } else {
        let (h, s1) = slot_step(es[0], s);
        if h == HeapSlot::OutOfFrames {
            (seq![h], s1)
        } else {
            let (t, s2) = slots_plan(es.drop_first(), s1);
            (seq![h] + t, s2)
        }
    }
}

proof fn lemma_first_free_unique(s: Seq<FrameState>, i: int)
    requires
        is_first_free(s, i),
    ensures
        first_free_index(s) == i,
{
    let j = first_free_index(s);
    assert(is_first_free(s, j));
    if j < i {
        assert(s[j] != FrameState::Free);
    } else if i < j {
        assert(s[i] != FrameState::Free);
    }
}

/// Fills the heap's page directory slots in order, given the entries they
/// hold: each slot is decided as by `map_heap_slot`, and filling stops
/// after the first slot for which no frame is left.
pub fn map_heap_slots(existing: &[u64], frames: &mut FrameAllocator) -> (r: Vec<HeapSlot>)
    requires
        old(frames).wf(),
    ensures
        final(frames).wf(),
        r@ == slots_plan(existing@, old(frames)@).0,
        final(frames)@ == slots_plan(existing@, old(frames)@).1,
{
    let mut out: Vec<HeapSlot> = Vec::new();
    let mut i: usize = 0;
    proof {
        assert(existing@.skip(0) =~= existing@);
        assert(out@ + slots_plan(existing@, frames@).0 =~= slots_plan(existing@, frames@).0);
    }
    while i < existing.len()
        invariant
            0 <= i <= existing@.len(),
            frames.wf(),
            slots_plan(existing@, old(frames)@).0 == out@ + slots_plan(existing@.skip(i as int), frames@).0,
            slots_plan(existing@, old(frames)@).1 == slots_plan(existing@.skip(i as int), frames@).1,
        decreases existing@.len() - i,
    {
        let ghost before = frames@;
        let ghost rest = existing@.skip(i as int);
        let slot = map_heap_slot(existing[i], frames);
        proof {
            assert(rest[0] == existing@[i as int]);
            assert(rest.drop_first() =~= existing@.skip(i + 1));
            if !present(existing@[i as int]) && !none_free(before) {
                let k = choose|k: int| #[trigger] is_first_free(before, k)
                    && frames@ == before.update(k, FrameState::Used)
                    && slot == (HeapSlot::Mapped {
                        phys: frame_addr(k) as u64,
                        entry: (frame_addr(k) as u64) | HEAP_ENTRY_FLAGS,
                    });
                lemma_first_free_unique(before, k);
            }
            assert(slot_step(existing@[i as int], before) == (slot, frames@));
        }
        out.push(slot);
        match slot {
            HeapSlot::OutOfFrames => {
                proof {
                    assert(slots_plan(rest, before).0 =~= seq![slot]);
                    assert(out@ =~= out@.drop_last() + slots_plan(rest, before).0);
                }
                return out;
            },
            _ => {},
        }
        proof {
            let t = slots_plan(existing@.skip(i + 1), frames@);
            assert(slots_plan(rest, before).0 == seq![slot] + t.0);
            assert(out@.drop_last() + (seq![slot] + t.0) =~= out@ + t.0);
        }
        i = i + 1;
    }
    proof {
        assert(existing@.skip(i as int).len() == 0);
        assert(out@ + Seq::<HeapSlot>::empty() =~= out@);
    }
    out
}

} // verus!
