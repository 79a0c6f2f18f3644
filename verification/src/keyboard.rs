//! Keyboard input: a fixed-size ring buffer of scancodes filled by the IRQ1
//! handler and drained by the polling task, and the scancode set 1 table.
use vstd::prelude::*;

verus! {

/// Capacity of the scancode queue.
pub const QUEUE_SIZE: usize = 64;

/// Ring buffer of scancodes: filled by the interrupt handler, emptied by
/// the keyboard task, first in first out.
pub struct ScancodeQueue {
    buffer: [u8; QUEUE_SIZE],
    head: usize,
    tail: usize,
    count: usize,
}

impl View for ScancodeQueue {
    type V = Seq<u8>;

    /// The queued scancodes, oldest first.
    closed spec fn view(&self) -> Seq<u8> {
        Seq::new(self.count as nat, |i: int| self.buffer@[(self.head + i) % (QUEUE_SIZE as int)])
    }
}

impl ScancodeQueue {
    /// Internal consistency of the ring buffer.
    pub closed spec fn wf(&self) -> bool {
        &&& self.buffer@.len() == QUEUE_SIZE
        &&& self.head < QUEUE_SIZE
        &&& self.count <= QUEUE_SIZE
        &&& self.tail == (self.head + self.count) % (QUEUE_SIZE as int)
    }

    /// An empty queue.
    pub fn new() -> (r: Self)
        ensures
            r.wf(),
            r@ == Seq::<u8>::empty(),
    {
        let r = ScancodeQueue { buffer: [0; QUEUE_SIZE], head: 0, tail: 0, count: 0 };
        proof {
            assert(r@ =~= Seq::<u8>::empty());
        }
        r
    }

    /// Appends `scancode`; returns `false`, and drops it, when the queue is full.
    pub fn push(&mut self, scancode: u8) -> (r: bool)
        requires
            old(self).wf(),
        ensures
            final(self).wf(),
            r <==> old(self)@.len() < QUEUE_SIZE,
            r ==> final(self)@ == old(self)@.push(scancode),
            !r ==> final(self)@ == old(self)@,
    {
        if self.count >= QUEUE_SIZE {
            return false;
        }
        let ghost old_view = self@;
        self.buffer[self.tail] = scancode;
        self.tail = (self.tail + 1) % QUEUE_SIZE;
        self.count = self.count + 1;
        proof {
            assert forall|i: int| 0 <= i < self@.len() implies #[trigger] self@[i] == old_view.push(
                scancode,
            )[i] by {
                if i < old_view.len() {
                    assert((self.head + i) % 64 != (self.head + self.count - 1) % 64);
                }
            }
            assert(self@ =~= old_view.push(scancode));
        }
        true
    }

    /// Removes and returns the oldest scancode; `None` when the queue is empty.
    pub fn pop(&mut self) -> (r: Option<u8>)
        requires
            old(self).wf(),
        ensures
            final(self).wf(),
            old(self)@.len() == 0 ==> r is None && final(self)@ == old(self)@,
            old(self)@.len() > 0 ==> r == Some(old(self)@[0]) && final(self)@ == old(self)@.drop_first(),
    {
        if self.count == 0 {
            return None;
        }
        let ghost old_view = self@;
        let val: u8 = self.buffer[self.head];
        self.head = (self.head + 1) % QUEUE_SIZE;
        self.count = self.count - 1;
        proof {
            assert(old_view[0] == val);
            assert forall|i: int| 0 <= i < self@.len() implies #[trigger] self@[i]
                == old_view.drop_first()[i] by {
                assert(old_view[i + 1] == self.buffer@[(old(self).head + i + 1) % 64]);
                assert((old(self).head + i + 1) % 64 == (self.head + i) % 64);
            }
            assert(self@ =~= old_view.drop_first());
        }
        Some(val)
    }

    /// The queue holds no scancode.
    pub fn is_empty(&self) -> (r: bool)
        requires
            self.wf(),
        ensures
            r <==> self@.len() == 0,
    {
        self.count == 0
    }
}

/// Character typed by the key press `scancode` (set 1): the letters, space
/// and enter; `None` for key releases (bit 7 set) and for other keys.
pub open spec fn scancode_char(scancode: u8) -> Option<char> {
    if scancode & 0x80 != 0 {
        None
    } else {
        match scancode {
            0x1E => Some('a'), 0x30 => Some('b'), 0x2E => Some('c'), 0x20 => Some('d'),
            0x12 => Some('e'), 0x21 => Some('f'), 0x22 => Some('g'), 0x23 => Some('h'),
            0x17 => Some('i'), 0x24 => Some('j'), 0x25 => Some('k'), 0x26 => Some('l'),
            0x32 => Some('m'), 0x31 => Some('n'), 0x18 => Some('o'), 0x19 => Some('p'),
            0x10 => Some('q'), 0x13 => Some('r'), 0x1F => Some('s'), 0x14 => Some('t'),
            0x16 => Some('u'), 0x2F => Some('v'), 0x11 => Some('w'), 0x2D => Some('x'),
            0x15 => Some('y'), 0x2C => Some('z'),
            0x39 => Some(' '),
            0x1C => Some('\n'),
            _ => None,
        }
    }
}

/// The make code of the key typing `c`, for the characters of the table.
spec fn make_code(c: char) -> u8 {
    match c {
        'a' => 0x1E, 'b' => 0x30, 'c' => 0x2E, 'd' => 0x20, 'e' => 0x12, 'f' => 0x21,
        'g' => 0x22, 'h' => 0x23, 'i' => 0x17, 'j' => 0x24, 'k' => 0x25, 'l' => 0x26,
        'm' => 0x32, 'n' => 0x31, 'o' => 0x18, 'p' => 0x19, 'q' => 0x10, 'r' => 0x13,
        's' => 0x1F, 't' => 0x14, 'u' => 0x16, 'v' => 0x2F, 'w' => 0x11, 'x' => 0x2D,
        'y' => 0x15, 'z' => 0x2C, ' ' => 0x39, '\n' => 0x1C,
        _ => 0,
    }
}

proof fn lemma_make_code(a: u8)
    ensures
        scancode_char(a) matches Some(c) ==> make_code(c) == a,
{
}

/// The letter keys follow the QWERTY rows of scancode set 1: the make codes
/// 0x10 to 0x19 type `qwertyuiop`, 0x1E to 0x26 type `asdfghjkl` and 0x2C to
/// 0x32 type `zxcvbnm`; 0x39 is the space bar and 0x1C enter. Key releases
/// (bit 7 set) type nothing, and no two scancodes type the same character.
pub proof fn law_scancode_layout()
    ensures
        forall|k: int|
            0 <= k < 10 ==> #[trigger] scancode_char((0x10 + k) as u8) == Some(
                seq!['q', 'w', 'e', 'r', 't', 'y', 'u', 'i', 'o', 'p'][k],
            ),
        forall|k: int|
            0 <= k < 9 ==> #[trigger] scancode_char((0x1E + k) as u8) == Some(
                seq!['a', 's', 'd', 'f', 'g', 'h', 'j', 'k', 'l'][k],
            ),
        forall|k: int|
            0 <= k < 7 ==> #[trigger] scancode_char((0x2C + k) as u8) == Some(
                seq!['z', 'x', 'c', 'v', 'b', 'n', 'm'][k],
            ),
        scancode_char(0x39) == Some(' '),
        scancode_char(0x1C) == Some('\n'),
        forall|a: u8| a & 0x80 != 0 ==> #[trigger] scancode_char(a) is None,
        forall|a: u8, b: u8|
            #[trigger] scancode_char(a) is Some && scancode_char(a) == #[trigger] scancode_char(b) ==> a == b,
{
    assert forall|k: int| 0 <= k < 10 implies #[trigger] scancode_char((0x10 + k) as u8) == Some(
        seq!['q', 'w', 'e', 'r', 't', 'y', 'u', 'i', 'o', 'p'][k],
    ) by {
        let x: u8 = (0x10 + k) as u8;
        assert(x & 0x80 == 0) by (bit_vector)
            requires
                x <= 0x19,
        ;
    }
    assert forall|k: int| 0 <= k < 9 implies #[trigger] scancode_char((0x1E + k) as u8) == Some(
        seq!['a', 's', 'd', 'f', 'g', 'h', 'j', 'k', 'l'][k],
    ) by {
        let x: u8 = (0x1E + k) as u8;
        assert(x & 0x80 == 0) by (bit_vector)
            requires
                x <= 0x26,
        ;
    }
    assert forall|k: int| 0 <= k < 7 implies #[trigger] scancode_char((0x2C + k) as u8) == Some(
        seq!['z', 'x', 'c', 'v', 'b', 'n', 'm'][k],
    ) by {
        let x: u8 = (0x2C + k) as u8;
        assert(x & 0x80 == 0) by (bit_vector)
            requires
                x <= 0x32,
        ;
    }
    assert(0x39u8 & 0x80 == 0 && 0x1Cu8 & 0x80 == 0) by (bit_vector);
    assert forall|a: u8, b: u8|
        #[trigger] scancode_char(a) is Some && scancode_char(a) == #[trigger] scancode_char(b) implies a == b by {
        lemma_make_code(a);
        lemma_make_code(b);
    }
}

/// Translates a set 1 scancode to the character of the key pressed.
pub fn scancode_to_ascii(scancode: u8) -> (r: Option<char>)
    ensures
        r == scancode_char(scancode),
{
    if scancode & 0x80 != 0 {
        return None;
    }
    match scancode {
        0x1E => Some('a'), 0x30 => Some('b'), 0x2E => Some('c'), 0x20 => Some('d'),
        0x12 => Some('e'), 0x21 => Some('f'), 0x22 => Some('g'), 0x23 => Some('h'),
        0x17 => Some('i'), 0x24 => Some('j'), 0x25 => Some('k'), 0x26 => Some('l'),
        0x32 => Some('m'), 0x31 => Some('n'), 0x18 => Some('o'), 0x19 => Some('p'),
        0x10 => Some('q'), 0x13 => Some('r'), 0x1F => Some('s'), 0x14 => Some('t'),
        0x16 => Some('u'), 0x2F => Some('v'), 0x11 => Some('w'), 0x2D => Some('x'),
        0x15 => Some('y'), 0x2C => Some('z'),
        0x39 => Some(' '),
        0x1C => Some('\n'),
        _ => None,
    }
}

/// Number of leading scancodes of `s` that translate to no character.
pub open spec fn skipped_prefix(s: Seq<u8>) -> nat
    decreases s.len(),
{
    if s.len() == 0 {
        0
    } else if scancode_char(s[0]) is Some {
        0
    } else {
        1 + skipped_prefix(s.drop_first())
    }
}

/// The skipped prefix is part of `s`, and when it stops before the end it
/// stops at a scancode that has a character.
pub proof fn lemma_skipped_prefix(s: Seq<u8>)
    ensures
        skipped_prefix(s) <= s.len(),
        skipped_prefix(s) < s.len() ==> scancode_char(s[skipped_prefix(s) as int]) is Some,
    decreases s.len(),
{
    if s.len() > 0 && scancode_char(s[0]) is None {
        lemma_skipped_prefix(s.drop_first());
        if skipped_prefix(s) < s.len() {
            assert(s[skipped_prefix(s) as int] == s.drop_first()[skipped_prefix(s.drop_first()) as int]);
        }
    }
}

/// The keyboard task: polled by the executor, it never blocks.
pub struct KeyboardFuture;

impl KeyboardFuture {
    /// Takes scancodes from `queue` until one translates to a character and
    /// returns that character; releases and unknown keys are dropped on the
    /// way. `None` once the queue is empty.
    pub fn poll(&self, queue: &mut ScancodeQueue) -> (r: Option<char>)
        requires
            old(queue).wf(),
        ensures
            final(queue).wf(),
            r is Some <==> skipped_prefix(old(queue)@) < old(queue)@.len(),
            skipped_prefix(old(queue)@) <= old(queue)@.len(),
            ({
                let s = old(queue)@;
                let k = skipped_prefix(s);
                if k == s.len() {
                    r is None && final(queue)@ == Seq::<u8>::empty()
                } else {
                    r == scancode_char(s[k as int]) && final(queue)@ == s.subrange((k + 1) as int, s.len() as int)
                }
            }),
    {
        let ghost s = queue@;
        assert(s == old(queue)@);
        proof {
            lemma_skipped_prefix(s);
        }
        let ghost mut taken: int = 0;
        loop
            invariant
                queue.wf(),
                s == old(queue)@,
                0 <= taken <= s.len(),
                queue@ == s.subrange(taken, s.len() as int),
                skipped_prefix(s) == taken + skipped_prefix(queue@),
            decreases queue@.len(),
        {
            let ghost before = queue@;
            match queue.pop() {
                Some(sc) => {
                    proof {
                        assert(before[0] == sc);
                    }
                    let ch = scancode_to_ascii(sc);
                    if ch.is_some() {
                        proof {
                            assert(skipped_prefix(before) == 0);
                            assert(s[taken] == sc);
                            assert(queue@ =~= s.subrange(taken + 1, s.len() as int));
                            assert(skipped_prefix(s) == taken);
                            assert(taken < s.len());
                            assert(ch == scancode_char(s[skipped_prefix(s) as int]));
                            assert(queue@ == s.subrange((skipped_prefix(s) + 1) as int, s.len() as int));
                        }
                        return ch;
                    }
                    proof {
                        assert(before.drop_first() == queue@);
                        assert(skipped_prefix(before) == 1 + skipped_prefix(queue@));
                        taken = taken + 1;
                        assert(queue@ =~= s.subrange(taken, s.len() as int));
                    }
                },
                None => {
                    proof {
                        assert(skipped_prefix(before) == 0);
                        assert(before.len() == 0);
                        assert(taken == s.len());
                        assert(skipped_prefix(s) == s.len());
                        assert(queue@ =~= Seq::<u8>::empty());
                    }
                    return None;
                },
            }
        }
    }
}

} // verus!
