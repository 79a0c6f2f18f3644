//! Saved CPU context of a kernel task: the callee-saved registers, the
//! stack pointer, the resume address, the flags and the FXSAVE image of the
//! x87/SSE state.
use vstd::prelude::*;

verus! {

/// Size of the FXSAVE area.
pub const FX_SIZE: usize = 512;

/// Default x87 control word (all exceptions masked, extended precision).
pub const FCW_DEFAULT: u16 = 0x037F;

/// Default MXCSR (all SSE exceptions masked).
pub const MXCSR_DEFAULT: u32 = 0x1F80;

/// RFLAGS of a fresh task: interrupts enabled (IF) and the reserved bit 1.
pub const RFLAGS_INITIAL: u64 = 0x202;

/// Saved context of one task.
#[derive(Clone, Copy)]
pub struct ThreadContext {
    pub fx: [u8; 512],
    pub r15: u64,
    pub r14: u64,
    pub r13: u64,
    pub r12: u64,
    pub rbx: u64,
    pub rbp: u64,
    pub rsp: u64,
    pub rip: u64,
    pub rflags: u64,
}

/// Every register is zero and the FX area is all zero bytes.
pub open spec fn is_empty_context(c: ThreadContext) -> bool {
    &&& c.r15 == 0 && c.r14 == 0 && c.r13 == 0 && c.r12 == 0
    &&& c.rbx == 0 && c.rbp == 0 && c.rsp == 0 && c.rip == 0 && c.rflags == 0
    &&& forall|i: int| 0 <= i < FX_SIZE ==> c.fx@[i] == 0
}

/// The FX area is a valid image for `fxrstor`: all zero but the control word
/// 0x037F at offset 0 and MXCSR 0x1F80 at offset 24, little endian.
pub open spec fn is_default_fx(fx: Seq<u8>) -> bool {
    &&& fx.len() == FX_SIZE
    &&& fx[0] == 0x7F && fx[1] == 0x03
    &&& fx[24] == 0x80 && fx[25] == 0x1F && fx[26] == 0 && fx[27] == 0
    &&& forall|i: int| 0 <= i < FX_SIZE && i != 0 && i != 1 && i != 24 && i != 25 ==> fx[i] == 0
}

/// Top of a stack at `stack` of `stack_len` bytes, rounded down to 16 bytes.
pub open spec fn stack_top(stack: int, stack_len: int) -> int {
    ((stack + stack_len) / 16) * 16
}

impl ThreadContext {
    /// A context with every register and the FX area zeroed.
    pub fn empty() -> (r: Self)
        ensures
            is_empty_context(r),
    {
        ThreadContext {
            fx: [0; 512],
            r15: 0,
            r14: 0,
            r13: 0,
            r12: 0,
            rbx: 0,
            rbp: 0,
            rsp: 0,
            rip: 0,
            rflags: 0,
        }
    }

    /// Writes the default FX image: zeros, the x87 control word and MXCSR.
    fn init_fx(&mut self)
        ensures
            is_default_fx(final(self).fx@),
            final(self).r15 == old(self).r15,
            final(self).r14 == old(self).r14,
            final(self).r13 == old(self).r13,
            final(self).r12 == old(self).r12,
            final(self).rbx == old(self).rbx,
            final(self).rbp == old(self).rbp,
            final(self).rsp == old(self).rsp,
            final(self).rip == old(self).rip,
            final(self).rflags == old(self).rflags,
    {
        let mut i: usize = 0;
        while i < FX_SIZE
            invariant
                i <= FX_SIZE,
                forall|j: int| 0 <= j < i ==> self.fx@[j] == 0,
                self.r15 == old(self).r15,
                self.r14 == old(self).r14,
                self.r13 == old(self).r13,
                self.r12 == old(self).r12,
                self.rbx == old(self).rbx,
                self.rbp == old(self).rbp,
                self.rsp == old(self).rsp,
                self.rip == old(self).rip,
                self.rflags == old(self).rflags,
            decreases FX_SIZE - i,
        {
            self.fx[i] = 0;
            i = i + 1;
        }
        let fcw: u16 = FCW_DEFAULT;
        let mxcsr: u32 = MXCSR_DEFAULT;
        self.fx[0] = (fcw & 0xFF) as u8;
        self.fx[1] = (fcw >> 8) as u8;
        self.fx[24] = (mxcsr & 0xFF) as u8;
        self.fx[25] = ((mxcsr >> 8) & 0xFF) as u8;
        self.fx[26] = ((mxcsr >> 16) & 0xFF) as u8;
        self.fx[27] = (mxcsr >> 24) as u8;
        assert((fcw & 0xFF) as u8 == 0x7F && (fcw >> 8) as u8 == 0x03) by (bit_vector)
            requires
                fcw == 0x037F,
        ;
        assert((mxcsr & 0xFF) as u8 == 0x80 && ((mxcsr >> 8) & 0xFF) as u8 == 0x1F && ((mxcsr >> 16)
            & 0xFF) as u8 == 0 && (mxcsr >> 24) as u8 == 0) by (bit_vector)
            requires
                mxcsr == 0x1F80,
        ;
    }

    /// Prepares a fresh task that starts at `entry` on the stack of
    /// `stack_len` bytes at `stack`: every register cleared, the default FX
    /// image, RSP 8 bytes below the 16-byte aligned stack top (as right after
    /// a `call`, clamped at zero), interrupts enabled.
    pub fn prepare(&mut self, entry: u64, stack: u64, stack_len: u64)
        requires
            stack + stack_len <= u64::MAX,
        ensures
            is_default_fx(final(self).fx@),
            final(self).r15 == 0 && final(self).r14 == 0 && final(self).r13 == 0 && final(self).r12 == 0,
            final(self).rbx == 0 && final(self).rbp == 0,
            final(self).rsp == if stack_top(stack as int, stack_len as int) >= 8 {
                stack_top(stack as int, stack_len as int) - 8
            } else {
                0
            },
            stack_top(stack as int, stack_len as int) >= 8 ==> final(self).rsp % 16 == 8,
            final(self).rsp <= stack + stack_len,
            final(self).rip == entry,
            final(self).rflags == RFLAGS_INITIAL,
    {
        *self = Self::empty();
        self.init_fx();
        let end: u64 = stack + stack_len;
        let top: u64 = end & !0xFu64;
        assert(top == (end / 16) * 16) by (bit_vector)
            requires
                top == end & !0xFu64,
        ;
        assert(top >= 8 ==> (top - 8) % 16 == 8) by (nonlinear_arith)
            requires
                top == (end / 16) * 16,
        ;
        assert(top <= end) by (nonlinear_arith)
            requires
                top == (end / 16) * 16,
        ;
        self.rsp = top.saturating_sub(8);
        self.rip = entry;
        self.rflags = RFLAGS_INITIAL;
    }
}

/// Capacity of the trace of task tags.
pub const TRACE_CAPACITY: usize = 8;

/// Trace of a cooperative switching demo: the tags of the first eight task
/// runs and the number of switches.
pub struct SwitchTrace {
    tags: [u8; 8],
    len: usize,
    switches: u64,
}

impl SwitchTrace {
    /// Recorded tags, in order.
    pub closed spec fn tags(&self) -> Seq<u8> {
        self.tags@.subrange(0, self.len as int)
    }

    /// Number of switches recorded.
    pub closed spec fn switch_count(&self) -> u64 {
        self.switches
    }

    /// At most `TRACE_CAPACITY` tags are kept.
    pub closed spec fn wf(&self) -> bool {
        self.len <= TRACE_CAPACITY
    }

    /// An empty trace.
    pub fn new() -> (r: Self)
        ensures
            r.wf(),
            r.tags() == Seq::<u8>::empty(),
            r.switch_count() == 0,
    {
        SwitchTrace { tags: [0; 8], len: 0, switches: 0 }
    }

    /// Records that the task tagged `tag` runs and switches away: the tag is
    /// kept while there is room, the switch is always counted.
    pub fn record(&mut self, tag: u8)
        requires
            old(self).wf(),
            old(self).switch_count() < u64::MAX,
        ensures
            final(self).wf(),
            final(self).tags() == if old(self).tags().len() < TRACE_CAPACITY {
                old(self).tags().push(tag)
            } else {
                old(self).tags()
            },
            final(self).switch_count() == old(self).switch_count() + 1,
    {
        let ghost before = self.tags();
        let n: usize = self.len;
        if n < TRACE_CAPACITY {
            self.tags[n] = tag;
            self.len = n + 1;
            proof {
                assert(self.tags() =~= before.push(tag));
            }
        }
        self.switches = self.switches + 1;
    }

    /// The recorded tags in an 8-byte buffer (zero past the end) and their
    /// number.
    pub fn sequence(&self) -> (r: ([u8; 8], usize))
        requires
            self.wf(),
        ensures
            r.1 == self.tags().len(),
            r.0@.subrange(0, r.1 as int) == self.tags(),
            forall|i: int| r.1 <= i < TRACE_CAPACITY ==> r.0@[i] == 0,
    {
        let n: usize = self.len;
        let mut buf: [u8; 8] = [0; 8];
        let mut i: usize = 0;
        while i < n
            invariant
                self.wf(),
                n == self.len,
                i <= n,
                forall|j: int| 0 <= j < i ==> buf@[j] == self.tags@[j],
                forall|j: int| n <= j < TRACE_CAPACITY ==> buf@[j] == 0,
            decreases n - i,
        {
            buf[i] = self.tags[i];
            i = i + 1;
        }
        proof {
            assert(buf@.subrange(0, n as int) =~= self.tags());
        }
        (buf, n)
    }

    /// Number of switches recorded.
    pub fn switches(&self) -> (r: u64)
        ensures
            r == self.switch_count(),
    {
        self.switches
    }
}

} // verus!
