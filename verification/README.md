# os_kernel

The logic of a small x86_64 teaching kernel, written in Verus and proved
against its contracts.

`src/` is the verified library:

- `vga` — colour attributes, the 80x25 text buffer, the free-standing
  drawing functions and the scrolling `Writer`.
- `numfmt` — decimal and hexadecimal digits without a formatter.
- `frame_allocator` — sixteen 2 MiB physical frames, free, used or reserved.
- `heap`, `heap_allocator` — the heap range and the first-fit linked-list
  allocator with splitting and coalescing, modelled as the ordered list of
  its block headers.
- `paging` — page-table entry flags and addresses, the no-execute decision
  and the heap page directory entries.
- `keyboard` — the scancode ring buffer, the scancode table and the polling task.
- `timer`, `pic` — PIT and 8259 programming, uptime arithmetic.
- `scheduler`, `context` — round-robin preemption decisions and saved task contexts.
- `executor` — the status bar line and the executor's task state.
- `fault` — page fault error codes, through the `x86_64` crate.
- `test_runner` — QEMU exit codes and the test count label.

`app/` is the kernel around it: port I/O, the hardware text buffer, the
page-table walks over physical memory, the GDT/IDT, interrupt handlers,
context switching and the boot sequence. `tests/` exercises the library.
