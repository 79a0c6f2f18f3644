//! In-kernel test harness support: the exit codes reported to QEMU through
//! its `isa-debug-exit` device and the label of the test count.
use vstd::prelude::*;
use crate::numfmt::digits;

verus! {

/// I/O port of QEMU's `isa-debug-exit` device.
pub const QEMU_EXIT_PORT: u16 = 0xf4;

/// Outcome of a test run, as written to QEMU's exit device.
#[derive(Debug, Clone, Copy, PartialEq, Eq, Structural)]
pub enum QemuExitCode {
    Success,
    Failed,
}

/// Value written to the exit device for `code`.
pub open spec fn exit_value(code: QemuExitCode) -> u32 {
    match code {
        QemuExitCode::Success => 0x10,
        QemuExitCode::Failed => 0x11,
    }
}

/// Value written to the exit device: 0x10 for success, 0x11 for failure.
pub fn exit_code_value(code: QemuExitCode) -> (r: u32)
    ensures
        r == exit_value(code),
{
    match code {
        QemuExitCode::Success => 0x10,
        QemuExitCode::Failed => 0x11,
    }
}

/// Status of the QEMU process after writing `code`: QEMU exits with
/// `(value << 1) | 1`, so 33 for success and 35 for failure.
pub fn qemu_process_status(code: QemuExitCode) -> (r: u32)
    ensures
        r == 2 * exit_value(code) + 1,
        code == QemuExitCode::Success ==> r == 33,
        code == QemuExitCode::Failed ==> r == 35,
{
    let v: u32 = exit_code_value(code);
    let r: u32 = (v << 1) | 1;
    assert(r == 2 * v + 1) by (bit_vector)
        requires
            r == (v << 1) | 1,
            v <= 0x11,
    ;
    r
}

/// The characters of `s` read as ASCII bytes.
pub open spec fn ascii_chars(s: Seq<u8>) -> Seq<char> {
    s.map(|i: int, b: u8| b as char)
}

/// Text of a test count: decimal up to 15, `?` beyond.
pub fn num_to_str(n: u32) -> (r: &'static str)
    ensures
        n <= 15 ==> r@ == ascii_chars(digits(n as nat, 10)),
        n > 15 ==> r@ == seq!['?'],
{
    proof {
        reveal_with_fuel(digits, 3);
    }
    match n {
        0 => {
            proof { reveal_strlit("0"); assert("0"@ =~= ascii_chars(digits(0, 10))); }
            "0"
        },
        1 => {
            proof { reveal_strlit("1"); assert("1"@ =~= ascii_chars(digits(1, 10))); }
            "1"
        },
        2 => {
            proof { reveal_strlit("2"); assert("2"@ =~= ascii_chars(digits(2, 10))); }
            "2"
        },
        3 => {
            proof { reveal_strlit("3"); assert("3"@ =~= ascii_chars(digits(3, 10))); }
            "3"
        },
        4 => {
            proof { reveal_strlit("4"); assert("4"@ =~= ascii_chars(digits(4, 10))); }
            "4"
        },
        5 => {
            proof { reveal_strlit("5"); assert("5"@ =~= ascii_chars(digits(5, 10))); }
            "5"
        },
        6 => {
            proof { reveal_strlit("6"); assert("6"@ =~= ascii_chars(digits(6, 10))); }
            "6"
        },
        7 => {
            proof { reveal_strlit("7"); assert("7"@ =~= ascii_chars(digits(7, 10))); }
            "7"
        },
        8 => {
            proof { reveal_strlit("8"); assert("8"@ =~= ascii_chars(digits(8, 10))); }
            "8"
        },
        9 => {
            proof { reveal_strlit("9"); assert("9"@ =~= ascii_chars(digits(9, 10))); }
            "9"
        },
        10 => {
            proof { reveal_strlit("10"); assert("10"@ =~= ascii_chars(digits(10, 10))); }
            "10"
        },
        11 => {
            proof { reveal_strlit("11"); assert("11"@ =~= ascii_chars(digits(11, 10))); }
            "11"
        },
        12 => {
            proof { reveal_strlit("12"); assert("12"@ =~= ascii_chars(digits(12, 10))); }
            "12"
        },
        13 => {
            proof { reveal_strlit("13"); assert("13"@ =~= ascii_chars(digits(13, 10))); }
            "13"
        },
        14 => {
            proof { reveal_strlit("14"); assert("14"@ =~= ascii_chars(digits(14, 10))); }
            "14"
        },
        15 => {
            proof { reveal_strlit("15"); assert("15"@ =~= ascii_chars(digits(15, 10))); }
            "15"
        },
        _ => {
            proof { reveal_strlit("?"); assert("?"@ =~= seq!['?']); }
            "?"
        },
    }
}

} // verus!
