//! The cooperative executor's two tasks: the timer task, which redraws an
//! uptime status bar on the bottom line once per second, and the keyboard
//! task, which echoes typed characters.
use vstd::prelude::*;
use crate::keyboard::{KeyboardFuture, ScancodeQueue, skipped_prefix, scancode_char};
use crate::numfmt::{digits, base_digits};
use crate::vga::{ScreenBuffer, VGA_BYTES, VGA_HEIGHT, VGA_WIDTH, Color, attribute, make_color,
    put_prefix, fitting, text_bytes, write_bytes};

verus! {

/// `s` cut to the width of the screen.
pub open spec fn clamp_line(s: Seq<u8>) -> Seq<u8> {
    if s.len() <= VGA_WIDTH {
        s
    } else {
        s.subrange(0, VGA_WIDTH as int)
    }
}

/// One screen line of text built without allocation: what does not fit in
/// the width of the screen is dropped.
pub struct FixedLine {
    buf: [u8; 80],
    len: usize,
}

impl View for FixedLine {
    type V = Seq<u8>;

    closed spec fn view(&self) -> Seq<u8> {
        self.buf@.subrange(0, self.len as int)
    }
}

impl FixedLine {
    /// The line holds at most one screen width.
    pub closed spec fn wf(&self) -> bool {
        self.len <= VGA_WIDTH
    }

    /// An empty line.
    pub fn new() -> (r: Self)
        ensures
            r.wf(),
            r@ == Seq::<u8>::empty(),
    {
        FixedLine { buf: [32u8; 80], len: 0 }
    }

    /// Appends `bytes`, dropping what goes past the width of the screen.
    pub fn push_bytes(&mut self, bytes: &[u8])
        requires
            old(self).wf(),
        ensures
            final(self).wf(),
            final(self)@ == clamp_line(old(self)@ + bytes@),
    {
        let mut i: usize = 0;
        while i < bytes.len()
            invariant
                self.wf(),
                0 <= i <= bytes@.len(),
                self@ == clamp_line(old(self)@ + bytes@.subrange(0, i as int)),
            decreases bytes@.len() - i,
        {
            let ghost before = self@;
            if self.len < VGA_WIDTH {
                self.buf[self.len] = bytes[i];
                self.len = self.len + 1;
                proof {
                    assert(self@ =~= before.push(bytes@[i as int]));
                }
            }
            proof {
                assert(old(self)@ + bytes@.subrange(0, i + 1) =~= (old(self)@ + bytes@.subrange(
                    0,
                    i as int,
                )).push(bytes@[i as int]));
                assert(self@ =~= clamp_line(old(self)@ + bytes@.subrange(0, i + 1)));
            }
            i = i + 1;
        }
        proof {
            assert(bytes@.subrange(0, bytes@.len() as int) =~= bytes@);
        }
    }

    /// Appends the bytes of `s`, dropping what goes past the width of the screen.
    pub fn push_str(&mut self, s: &str)
        requires
            old(self).wf(),
        ensures
            final(self).wf(),
            final(self)@ == clamp_line(old(self)@ + text_bytes(s)),
    {
        self.push_bytes(s.as_bytes());
    }

    /// Appends `value` in decimal, dropping what goes past the width of the screen.
    pub fn push_dec(&mut self, value: u64)
        requires
            old(self).wf(),
        ensures
            final(self).wf(),
            final(self)@ == clamp_line(old(self)@ + digits(value as nat, 10)),
    {
        let d = base_digits(value, 10);
        self.push_bytes(d.as_slice());
    }

    /// The text of the line.
    pub fn text(&self) -> (r: Vec<u8>)
        requires
            self.wf(),
        ensures
            r@ == self@,
    {
        let mut out: Vec<u8> = Vec::new();
        let mut i: usize = 0;
        while i < self.len
            invariant
                self.wf(),
                0 <= i <= self.len,
                out@ == self@.subrange(0, i as int),
            decreases self.len - i,
        {
            out.push(self.buf[i]);
            proof {
                assert(out@ =~= self@.subrange(0, i + 1));
            }
            i = i + 1;
        }
        proof {
            assert(self@.subrange(0, self.len as int) =~= self@);
        }
        out
    }
}

/// Text of the status bar.
pub open spec fn status_text(seconds: u64, ticks: u64, keys: u64) -> Seq<u8> {
    clamp_line(
        text_bytes(" Uptime ") + digits(seconds as nat, 10) + text_bytes(" s | ") + digits(
            ticks as nat,
            10,
        ) + text_bytes(" ticks | ") + digits(keys as nat, 10) + text_bytes(" touches "),
    )
}

/// Executor state: the keyboard task, the number of keys typed and the last
/// second shown in the status bar.
pub struct Executor {
    keyboard_task: KeyboardFuture,
    keys_typed: u64,
    last_second: u64,
}

impl Executor {
    pub closed spec fn keys(&self) -> u64 {
        self.keys_typed
    }

    pub closed spec fn last_second(&self) -> u64 {
        self.last_second
    }

    /// No key typed yet; the last second shown is `u64::MAX`, so the first
    /// check redraws the status bar at once.
    pub fn new() -> (r: Self)
        ensures
            r.keys() == 0,
            r.last_second() == u64::MAX,
    {
        Executor { keyboard_task: KeyboardFuture, keys_typed: 0, last_second: u64::MAX }
    }

    /// Timer task: records the current uptime and tells whether it differs
    /// from the second shown last, so that the status bar must be redrawn.
    pub fn on_uptime(&mut self, seconds: u64) -> (r: bool)
        ensures
            r == (seconds != old(self).last_second()),
            final(self).last_second() == seconds,
            final(self).keys() == old(self).keys(),
    {
        if seconds != self.last_second {
            self.last_second = seconds;
            true
        } else {
            false
        }
    }

    /// Keyboard task: the next typed character waiting in `queue`, if any,
    /// counted as one more key typed.
    pub fn poll_keyboard(&mut self, queue: &mut ScancodeQueue) -> (r: Option<char>)
        requires
            old(queue).wf(),
            old(self).keys() < u64::MAX,
        ensures
            final(queue).wf(),
            final(self).last_second() == old(self).last_second(),
            ({
                let s = old(queue)@;
                let k = skipped_prefix(s);
                if k == s.len() {
                    r is None && final(queue)@ == Seq::<u8>::empty() && final(self).keys() == old(self).keys()
                } else {
                    r == scancode_char(s[k as int]) && final(queue)@ == s.subrange((k + 1) as int, s.len() as int)
                        && final(self).keys() == old(self).keys() + 1
                }
            }),
            final(self).keys() == old(self).keys() + if r is Some { 1int } else { 0int },
    {
        let ghost s = old(queue)@;
        let ch = self.keyboard_task.poll(queue);
        if ch.is_some() {
            self.keys_typed = self.keys_typed + 1;
        }
        proof {
            let k = skipped_prefix(s);
            if k == s.len() {
                assert(ch is None);
                assert(self.keys() == old(self).keys());
            } else {
                assert(ch == scancode_char(s[k as int]));
                assert(self.keys() == old(self).keys() + 1);
            }
        }
        ch
    }

    /// One pass of the executor loop: the timer task, which redraws the
    /// status bar on `screen` when the uptime `seconds` differs from the one
    /// shown last, then the keyboard task, which takes the next typed
    /// character from `queue`. Returns whether the bar was redrawn and the
    /// character, if any.
    pub fn run_pass(&mut self, seconds: u64, ticks: u64, screen: &mut ScreenBuffer, queue: &mut ScancodeQueue) -> (r: (bool, Option<char>))
        requires
            old(queue).wf(),
            old(screen)@.len() == VGA_BYTES,
            old(self).keys() < u64::MAX,
        ensures
            final(queue).wf(),
            r.0 == (seconds != old(self).last_second()),
            r.0 ==> final(screen)@ == put_prefix(
                old(screen)@,
                VGA_HEIGHT - 1,
                0,
                status_text(seconds, ticks, old(self).keys()),
                attribute(Color::Black, Color::LightGray),
                fitting(0, status_text(seconds, ticks, old(self).keys()).len() as int),
            ),
            !r.0 ==> final(screen)@ == old(screen)@,
            (final(self).keys() as int, final(self).last_second()) == after_pass(
                old(self).keys() as int,
                old(self).last_second(),
                seconds,
                r.1 is Some,
            ),
            ({
                let s = old(queue)@;
                let k = skipped_prefix(s);
                if k == s.len() {
                    r.1 is None && final(queue)@ == Seq::<u8>::empty()
                } else {
                    r.1 == scancode_char(s[k as int]) && final(queue)@ == s.subrange((k + 1) as int, s.len() as int)
                }
            }),
    {
        let redraw = self.on_uptime(seconds);
        if redraw {
            self.draw_status_bar(screen, seconds, ticks);
        }
        let key = self.poll_keyboard(queue);
        (redraw, key)
    }

    /// Number of keys typed so far.
    pub fn keys_typed(&self) -> (r: u64)
        ensures
            r == self.keys(),
    {
        self.keys_typed
    }

    /// The status bar text: uptime in seconds, ticks and keys typed.
    pub fn status_line(&self, seconds: u64, ticks: u64) -> (r: FixedLine)
        ensures
            r.wf(),
            r@ == status_text(seconds, ticks, self.keys()),
    {
        let mut line = FixedLine::new();
        line.push_str(" Uptime ");
        line.push_dec(seconds);
        line.push_str(" s | ");
        line.push_dec(ticks);
        line.push_str(" ticks | ");
        line.push_dec(self.keys_typed);
        line.push_str(" touches ");
        proof {
            let a = text_bytes(" Uptime ");
            let b = digits(seconds as nat, 10);
            let c = text_bytes(" s | ");
            let d = digits(ticks as nat, 10);
            let e = text_bytes(" ticks | ");
            let f = digits(self.keys_typed as nat, 10);
            let g = text_bytes(" touches ");
            lemma_clamp_append(Seq::empty() + a, b);
            lemma_clamp_append(Seq::empty() + a + b, c);
            lemma_clamp_append(Seq::empty() + a + b + c, d);
            lemma_clamp_append(Seq::empty() + a + b + c + d, e);
            lemma_clamp_append(Seq::empty() + a + b + c + d + e, f);
            lemma_clamp_append(Seq::empty() + a + b + c + d + e + f, g);
            assert(Seq::<u8>::empty() + a =~= a);
        }
        line
    }

    /// Draws the status bar on the bottom line of `screen`, black on light gray.
    pub fn draw_status_bar(&self, screen: &mut ScreenBuffer, seconds: u64, ticks: u64)
        requires
            old(screen)@.len() == VGA_BYTES,
        ensures
            final(screen)@ == put_prefix(
                old(screen)@,
                VGA_HEIGHT - 1,
                0,
                status_text(seconds, ticks, self.keys()),
                attribute(Color::Black, Color::LightGray),
                fitting(0, status_text(seconds, ticks, self.keys()).len() as int),
            ),
    {
        let line = self.status_line(seconds, ticks);
        let text = line.text();
        let colour: u8 = make_color(Color::Black, Color::LightGray);
        write_bytes(screen, VGA_HEIGHT - 1, 0, text.as_slice(), colour);
    }
}

/// Keys typed and last second shown after one pass of the executor loop
/// that saw uptime `seconds` and found a typed character when `typed`.
pub open spec fn after_pass(keys: int, last: u64, seconds: u64, typed: bool) -> (int, u64) {
    (if typed { keys + 1 } else { keys }, seconds)
}

/// Keys typed and last second shown after the first `n` passes, starting
/// from `start`, with the uptimes `seconds` and key outcomes `typed`.
pub open spec fn after_passes(start: (int, u64), seconds: Seq<u64>, typed: Seq<bool>, n: int) -> (int, u64)
    decreases n,
{
    if n <= 0 {
        start
    } else {
        let prev = after_passes(start, seconds, typed, n - 1);
        after_pass(prev.0, prev.1, seconds[n - 1], typed[n - 1])
    }
}

/// Number of passes among the first `n` that found a typed character.
pub open spec fn count_typed(typed: Seq<bool>, n: int) -> int
    decreases n,
{
    if n <= 0 {
        0
    } else {
        count_typed(typed, n - 1) + if typed[n - 1] { 1int } else { 0int }
    }
}

/// Over any run of the executor loop from `Executor::new`, the key count is
/// the number of characters the keyboard task delivered, the last second
/// shown is the uptime of the latest pass, and pass `i` redraws the status
/// bar exactly when its uptime differs from the previous pass's (the first
/// pass always redraws unless the uptime is `u64::MAX`).
pub proof fn law_executor_passes(seconds: Seq<u64>, typed: Seq<bool>, n: int)
    requires
        0 <= n <= seconds.len(),
        n <= typed.len(),
    ensures
        after_passes((0, u64::MAX), seconds, typed, n).0 == count_typed(typed, n),
        after_passes((0, u64::MAX), seconds, typed, n).1 == if n == 0 { u64::MAX } else { seconds[n - 1] },
        forall|i: int|
            0 <= i < n ==> (seconds[i] != #[trigger] after_passes((0, u64::MAX), seconds, typed, i).1
                <==> seconds[i] != if i == 0 { u64::MAX } else { seconds[i - 1] }),
    decreases n,
{
    if n > 0 {
        law_executor_passes(seconds, typed, n - 1);
        assert forall|i: int|
            0 <= i < n implies (seconds[i] != #[trigger] after_passes((0, u64::MAX), seconds, typed, i).1
                <==> seconds[i] != if i == 0 { u64::MAX } else { seconds[i - 1] }) by {
            if i < n - 1 {
            } else {
                law_executor_passes(seconds, typed, i);
            }
        }
    }
}

/// Cutting to the screen width before appending more text gives the same
/// line as cutting once at the end.
pub proof fn lemma_clamp_append(a: Seq<u8>, b: Seq<u8>)
    ensures
        clamp_line(clamp_line(a) + b) == clamp_line(a + b),
{
    if a.len() > VGA_WIDTH {
        assert(clamp_line(clamp_line(a) + b) =~= clamp_line(a + b));
    } else {
        assert(clamp_line(a) == a);
    }
}

} // verus!
