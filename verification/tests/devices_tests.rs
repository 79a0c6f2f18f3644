use os_kernel::context::{SwitchTrace, ThreadContext};
use os_kernel::executor::{Executor, FixedLine};
use os_kernel::fault::page_fault_cause;
use os_kernel::keyboard::{scancode_to_ascii, KeyboardFuture, ScancodeQueue, QUEUE_SIZE};
use os_kernel::numfmt::{base_digits, format_dec, format_hex};
use os_kernel::paging::{
    entry_address, heap_page_address, heap_pd_entry, heap_pd_start, huge_page_last_byte, is_huge,
    is_nx, is_present, map_heap_slot, map_heap_slots, next_table, nx_decision, nx_table_updates,
    phys_addr, present_children, pt_summary, table_base, HeapSlot, NxAction,
};
use os_kernel::frame_allocator::FrameAllocator;
use os_kernel::pic::{eoi_ports, init_sequence, irq_vector};
use os_kernel::scheduler::{Scheduler, Switch};
use os_kernel::test_runner::{exit_code_value, num_to_str, qemu_process_status, QemuExitCode};
use os_kernel::timer::{on_tick, pit_divisor, pit_program, uptime_ms, uptime_seconds};
use os_kernel::vga::{ScreenBuffer, VGA_WIDTH};

#[test]
fn test_scancode_queue_fifo() {
    let mut q = ScancodeQueue::new();
    assert!(q.is_empty());
    assert!(q.push(1));
    assert!(q.push(2));
    assert!(q.push(3));
    assert!(!q.is_empty());
    assert_eq!(q.pop(), Some(1));
    assert_eq!(q.pop(), Some(2));
    assert!(q.push(4));
    assert_eq!(q.pop(), Some(3));
    assert_eq!(q.pop(), Some(4));
    assert_eq!(q.pop(), None);
    assert!(q.is_empty());
}

#[test]
fn test_scancode_queue_full() {
    let mut q = ScancodeQueue::new();
    for i in 0..QUEUE_SIZE {
        assert!(q.push(i as u8));
    }
    assert!(!q.push(200));
    assert_eq!(q.pop(), Some(0));
    assert!(q.push(201));
    for i in 1..QUEUE_SIZE {
        assert_eq!(q.pop(), Some(i as u8));
    }
    assert_eq!(q.pop(), Some(201));
    assert_eq!(q.pop(), None);
}

#[test]
fn test_scancode_to_ascii() {
    assert_eq!(scancode_to_ascii(0x1E), Some('a'));
    assert_eq!(scancode_to_ascii(0x2C), Some('z'));
    assert_eq!(scancode_to_ascii(0x39), Some(' '));
    assert_eq!(scancode_to_ascii(0x1C), Some('\n'));
    assert_eq!(scancode_to_ascii(0x9E), None);
    assert_eq!(scancode_to_ascii(0x01), None);
}

#[test]
fn test_keyboard_poll_skips_releases() {
    let mut q = ScancodeQueue::new();
    q.push(0x9E); // release of 'a'
    q.push(0x01); // escape, not handled
    q.push(0x23); // 'h'
    q.push(0x17); // 'i'
    let task = KeyboardFuture;
    assert_eq!(task.poll(&mut q), Some('h'));
    assert_eq!(task.poll(&mut q), Some('i'));
    assert_eq!(task.poll(&mut q), None);
    q.push(0xA3);
    assert_eq!(task.poll(&mut q), None);
    assert!(q.is_empty());
}

#[test]
fn test_timer() {
    assert_eq!(pit_divisor(), 11931);
    assert_eq!(pit_program(), vec![(0x43, 0x36), (0x40, 0x9B), (0x40, 0x2E)]);
    assert_eq!(on_tick(0), 1);
    assert_eq!(on_tick(u64::MAX), 0);
    assert_eq!(uptime_seconds(0), 0);
    assert_eq!(uptime_seconds(99), 0);
    assert_eq!(uptime_seconds(250), 2);
    assert_eq!(uptime_ms(250), 2500);
    assert_eq!(uptime_ms(1), 10);
}

#[test]
fn test_scheduler_round_robin() {
    let mut s = Scheduler::new();
    for _ in 0..20 {
        assert_eq!(s.on_timer_tick(), None);
    }
    s.init();
    assert!(s.is_enabled());
    let mut switches = Vec::new();
    for _ in 0..30 {
        if let Some(sw) = s.on_timer_tick() {
            switches.push(sw);
        }
    }
    assert_eq!(
        switches,
        vec![Switch { from: 0, to: 1 }, Switch { from: 1, to: 2 }, Switch { from: 2, to: 0 }]
    );
    assert_eq!(s.switches(), 3);
    assert_eq!(s.current_task(), 0);
}

#[test]
fn test_scheduler_quantum() {
    let mut s = Scheduler::new();
    s.init();
    for _ in 0..9 {
        assert_eq!(s.on_timer_tick(), None);
    }
    assert_eq!(s.on_timer_tick(), Some(Switch { from: 0, to: 1 }));
    assert_eq!(s.current_task(), 1);
}

#[test]
fn test_context_empty() {
    let c = ThreadContext::empty();
    assert_eq!(c.rsp, 0);
    assert_eq!(c.rip, 0);
    assert_eq!(c.rflags, 0);
    assert!(c.fx.iter().all(|&b| b == 0));
}

#[test]
fn test_context_prepare() {
    let mut c = ThreadContext::empty();
    c.rbx = 7;
    c.prepare(0x1234, 0x10_0003, 4096);
    // top = (0x100003 + 4096) & !0xF = 0x101000, rsp = top - 8
    assert_eq!(c.rsp, 0x100ff8);
    assert_eq!(c.rsp % 16, 8);
    assert_eq!(c.rip, 0x1234);
    assert_eq!(c.rflags, 0x202);
    assert_eq!(c.rbx, 0);
    assert_eq!(&c.fx[0..2], &[0x7F, 0x03]);
    assert_eq!(&c.fx[24..28], &[0x80, 0x1F, 0, 0]);
    assert!(c.fx[2..24].iter().all(|&b| b == 0));
    assert!(c.fx[28..].iter().all(|&b| b == 0));
    let mut d = ThreadContext::empty();
    d.prepare(1, 0, 4);
    assert_eq!(d.rsp, 0);
}

#[test]
fn test_number_formatting() {
    assert_eq!(format_hex(0), b"0x0".to_vec());
    assert_eq!(format_hex(0x200000), b"0x200000".to_vec());
    assert_eq!(format_hex(0xDEADBEEF), b"0xdeadbeef".to_vec());
    assert_eq!(format_hex(u64::MAX), b"0xffffffffffffffff".to_vec());
    assert_eq!(format_dec(0), b"0".to_vec());
    assert_eq!(format_dec(1337), b"1337".to_vec());
    assert_eq!(format_dec(u64::MAX), b"18446744073709551615".to_vec());
    assert_eq!(base_digits(5, 2), b"101".to_vec());
}

#[test]
fn test_num_to_str() {
    assert_eq!(num_to_str(0), "0");
    assert_eq!(num_to_str(5), "5");
    assert_eq!(num_to_str(15), "15");
    assert_eq!(num_to_str(16), "?");
}

#[test]
fn test_qemu_exit_codes() {
    assert_eq!(exit_code_value(QemuExitCode::Success), 0x10);
    assert_eq!(exit_code_value(QemuExitCode::Failed), 0x11);
    assert_eq!(qemu_process_status(QemuExitCode::Success), 33);
    assert_eq!(qemu_process_status(QemuExitCode::Failed), 35);
}

#[test]
fn test_page_entry_bits() {
    let e: u64 = 0x8000_0000_0020_0083;
    assert!(is_present(e));
    assert!(is_huge(e));
    assert!(is_nx(e));
    assert_eq!(phys_addr(e), 0x200000);
    assert!(!is_present(0x200082));
    assert!(!is_huge(0x3));
    assert_eq!(phys_addr(0xFFF0_0000_0000_0FFF), 0);
    assert_eq!(table_base(0x70_0018), 0x70_0000);
    assert_eq!(entry_address(0x70000, 3), 0x70018);
    assert_eq!(huge_page_last_byte(0x400000), 0x5FFFFF);
}

#[test]
fn test_nx_decision() {
    assert_eq!(nx_decision(0x0), NxAction::Skip);
    assert_eq!(nx_decision(0x400003), NxAction::Skip);
    assert_eq!(nx_decision(0x200083), NxAction::KeepKernelText);
    assert_eq!(
        nx_decision(0x400083),
        NxAction::SetNx(0x8000_0000_0040_0083)
    );
}

#[test]
fn test_heap_mapping() {
    assert_eq!(heap_pd_start(), 32);
    assert_eq!(heap_page_address(0), 0x4000000);
    assert_eq!(heap_page_address(3), 0x4600000);
    assert_eq!(heap_pd_entry(0x600000), 0x600083);
    let mut frames = FrameAllocator::new();
    frames.init();
    assert_eq!(map_heap_slot(0x800083, &mut frames), HeapSlot::AlreadyMapped);
    assert_eq!(frames.free_count(), 13);
    assert_eq!(
        map_heap_slot(0, &mut frames),
        HeapSlot::Mapped { phys: 0x600000, entry: 0x600083 }
    );
    assert_eq!(frames.free_count(), 12);
    while frames.allocate().is_some() {}
    assert_eq!(map_heap_slot(0, &mut frames), HeapSlot::OutOfFrames);
}

#[test]
fn test_pic() {
    assert_eq!(eoi_ports(0), vec![0x20]);
    assert_eq!(eoi_ports(1), vec![0x20]);
    assert_eq!(eoi_ports(8), vec![0xA0, 0x20]);
    assert_eq!(irq_vector(0), 32);
    assert_eq!(irq_vector(1), 33);
    assert_eq!(irq_vector(9), 41);
    let seq = init_sequence();
    assert_eq!(seq.len(), 10);
    assert_eq!(seq[2], (0x21, 32));
    assert_eq!(seq[8], (0x21, 0xFC));
    assert_eq!(seq[9], (0xA1, 0xFF));
}

#[test]
fn test_page_fault_cause() {
    let c = page_fault_cause(0b11);
    assert!(c.protection_violation);
    assert!(c.write);
    let c = page_fault_cause(0b100);
    assert!(!c.protection_violation);
    assert!(!c.write);
    let c = page_fault_cause(0b10);
    assert!(!c.protection_violation);
    assert!(c.write);
}

#[test]
fn test_fixed_line() {
    let mut line = FixedLine::new();
    line.push_str("ab");
    line.push_dec(0);
    line.push_dec(42);
    assert_eq!(line.text(), b"ab042".to_vec());
    for _ in 0..20 {
        line.push_str("0123456789");
    }
    assert_eq!(line.text().len(), VGA_WIDTH);
}

#[test]
fn test_executor_status() {
    let mut ex = Executor::new();
    assert!(ex.on_uptime(0));
    assert!(!ex.on_uptime(0));
    assert!(ex.on_uptime(1));
    let mut q = ScancodeQueue::new();
    q.push(0x1E);
    assert_eq!(ex.poll_keyboard(&mut q), Some('a'));
    assert_eq!(ex.poll_keyboard(&mut q), None);
    assert_eq!(ex.keys_typed(), 1);
    let line = ex.status_line(3, 312);
    assert_eq!(line.text(), b" Uptime 3 s | 312 ticks | 1 touches ".to_vec());
    let mut screen = ScreenBuffer::new();
    ex.draw_status_bar(&mut screen, 3, 312);
    let off = 24 * VGA_WIDTH * 2;
    assert_eq!(screen.byte(off), b' ');
    assert_eq!(screen.byte(off + 1), 0x70);
    assert_eq!(screen.byte(off + 2), b'U');
}

#[test]
fn test_status_line_clamped() {
    let ex = Executor::new();
    let line = ex.status_line(u64::MAX, u64::MAX);
    assert_eq!(
        line.text(),
        b" Uptime 18446744073709551615 s | 18446744073709551615 ticks | 0 touches ".to_vec()
    );
    let mut long = FixedLine::new();
    long.push_str(" Uptime ");
    long.push_dec(u64::MAX);
    long.push_str(" s | ");
    long.push_dec(u64::MAX);
    long.push_str(" ticks | ");
    long.push_dec(u64::MAX);
    assert_eq!(long.text().len(), VGA_WIDTH);
}

#[test]
fn test_switch_trace() {
    let mut t = SwitchTrace::new();
    t.record(b'A');
    t.record(b'B');
    t.record(b'A');
    let (buf, n) = t.sequence();
    assert_eq!(n, 3);
    assert_eq!(&buf[..3], b"ABA");
    assert_eq!(&buf[3..], &[0, 0, 0, 0, 0]);
    assert_eq!(t.switches(), 3);
    for _ in 0..10 {
        t.record(b'C');
    }
    let (buf, n) = t.sequence();
    assert_eq!(n, 8);
    assert_eq!(&buf, b"ABACCCCC");
    assert_eq!(t.switches(), 13);
}

#[test]
fn test_status_bar_on_writer_screen() {
    let mut w = os_kernel::vga::Writer::new();
    w.clear();
    w.write_string("abc");
    let ex = Executor::new();
    ex.draw_status_bar(w.screen_mut(), 0, 0);
    let off = 24 * VGA_WIDTH * 2;
    assert_eq!(w.screen().byte(off + 2), b'U');
    assert_eq!(w.screen().byte(0), b'a');
    assert_eq!(w.position(), (0, 3));
}

#[test]
fn test_table_walk_helpers() {
    let mut table = [0u64; 512];
    table[0] = 0x1000 | 0x3;
    table[5] = 0x400000 | 0x83;
    table[7] = 0x200000 | 0x83;
    table[9] = 0x600000 | 0x82; // huge but not present
    assert_eq!(present_children(&table, false), vec![(0, 0x1003), (5, 0x400083), (7, 0x200083)]);
    assert_eq!(present_children(&table, true), vec![(0, 0x1003)]);
    assert_eq!(
        nx_table_updates(&table),
        vec![(5, NxAction::SetNx(0x8000_0000_0040_0083)), (7, NxAction::KeepKernelText)]
    );
    let mut pt = [0u64; 512];
    for i in [2usize, 4, 6, 8, 10] {
        pt[i] = ((i as u64) << 12) | 1;
    }
    let (shown, count) = pt_summary(&pt);
    assert_eq!(count, 5);
    assert_eq!(shown, vec![(2, 0x2000), (4, 0x4000), (6, 0x6000)]);
    let (shown, count) = pt_summary(&[0u64; 512]);
    assert_eq!(count, 0);
    assert!(shown.is_empty());
}

#[test]
fn test_next_table() {
    assert_eq!(next_table(0x123003), Some(0x123000));
    assert_eq!(next_table(0x123002), None);
    assert_eq!(next_table(0), None);
}

#[test]
fn test_heap_mapping_slots() {
    let mut frames = FrameAllocator::new();
    frames.init();
    let slots = map_heap_slots(&[0, 0x800083, 0, 0], &mut frames);
    assert_eq!(
        slots,
        vec![
            HeapSlot::Mapped { phys: 0x600000, entry: 0x600083 },
            HeapSlot::AlreadyMapped,
            HeapSlot::Mapped { phys: 0x800000, entry: 0x800083 },
            HeapSlot::Mapped { phys: 0xA00000, entry: 0xA00083 },
        ]
    );
    assert_eq!(frames.free_count(), 10);
    let mut frames = FrameAllocator::new();
    frames.init();
    for _ in 0..12 {
        frames.allocate();
    }
    let slots = map_heap_slots(&[0, 0, 0, 0], &mut frames);
    assert_eq!(
        slots,
        vec![HeapSlot::Mapped { phys: 0x1E00000, entry: 0x1E00083 }, HeapSlot::OutOfFrames]
    );
    assert_eq!(frames.free_count(), 0);
}

#[test]
fn test_scheduler_many_ticks() {
    let mut s = Scheduler::new();
    s.init();
    for k in 1..=95u64 {
        let sw = s.on_timer_tick();
        if k % 10 == 0 {
            let from = ((k / 10 - 1) % 3) as usize;
            assert_eq!(sw, Some(Switch { from, to: (from + 1) % 3 }));
        } else {
            assert_eq!(sw, None);
        }
        assert_eq!(s.switches(), k / 10);
        assert_eq!(s.current_task(), ((k / 10) % 3) as usize);
    }
}

#[test]
fn test_executor_run_pass() {
    let mut ex = Executor::new();
    let mut screen = ScreenBuffer::new();
    let mut q = ScancodeQueue::new();
    q.push(0x9E);
    q.push(0x1E);
    q.push(0x30);
    let off = 24 * VGA_WIDTH * 2;
    assert_eq!(ex.run_pass(0, 5, &mut screen, &mut q), (true, Some('a')));
    assert_eq!(screen.byte(off + 2), b'U');
    assert_eq!(ex.keys_typed(), 1);
    let mut other = ScreenBuffer::new();
    assert_eq!(ex.run_pass(0, 50, &mut other, &mut q), (false, Some('b')));
    assert_eq!(other.byte(off + 2), ScreenBuffer::new().byte(off + 2));
    assert_eq!(ex.run_pass(1, 100, &mut other, &mut q), (true, None));
    assert_eq!(other.byte(off + 2), b'U');
    assert_eq!(ex.keys_typed(), 2);
    assert_eq!(ex.status_line(1, 100).text(), b" Uptime 1 s | 100 ticks | 2 touches ".to_vec());
}
