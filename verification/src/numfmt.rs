//! Number-to-text conversion without allocation of a formatter: decimal and
//! hexadecimal digits, most significant first, with no leading zeros.
use vstd::prelude::*;

verus! {

/// ASCII character of digit `d` (`0`-`9`, then `a`-`f`).
pub open spec fn digit_char(d: nat) -> u8 {
    if d < 10 {
        (48 + d) as u8
    } else {
        (97 + d - 10) as u8
    }
}

/// Numeric value of a digit character produced by `digit_char`.
pub open spec fn char_value(c: u8) -> nat {
    if 48 <= c <= 57 {
        (c - 48) as nat
    } else {
        (c - 97 + 10) as nat
    }
}

/// Digits of `v` in `base`, most significant first, without leading zeros
/// (zero is the single digit `0`).
pub open spec fn digits(v: nat, base: nat) -> Seq<u8>
    decreases v,
{
    if base < 2 || v < base {
        seq![digit_char(v)]
    } else {
        proof {
            assert(v / base < v) by (nonlinear_arith)
                requires
                    base >= 2,
                    v >= base,
            ;
        }
        digits(v / base, base).push(digit_char(v % base))
    }
}

/// Value of a digit string read in `base`.
pub open spec fn digits_value(s: Seq<u8>, base: nat) -> nat
    decreases s.len(),
{
    if s.len() == 0 {
        0
    } else {
        digits_value(s.drop_last(), base) * base + char_value(s.last())
    }
}

/// The text `print_hex` sends: `0x` followed by the hexadecimal digits.
pub open spec fn hex_text(v: nat) -> Seq<u8> {
    seq![48u8, 120u8] + digits(v, 16)
}

/// Reading back the digits of `v` gives `v`: the conversion loses nothing.
pub proof fn lemma_digits_value(v: nat, base: nat)
    requires
        2 <= base <= 16,
    ensures
        digits_value(digits(v, base), base) == v,
    decreases v,
{
    if v < base {
        let s = digits(v, base);
        assert(s.drop_last() =~= Seq::<u8>::empty());
        lemma_char_value(v);
        assert(digits_value(s.drop_last(), base) == 0);
        assert(digits_value(s, base) == 0 * base + char_value(s.last()));
    } else {
        assert(v / base < v) by (nonlinear_arith)
            requires
                base >= 2,
                v >= base,
        ;
        lemma_digits_value(v / base, base);
        lemma_char_value(v % base);
        let s = digits(v, base);
        assert(s.drop_last() =~= digits(v / base, base));
        assert(v % base < base) by (nonlinear_arith)
            requires
                base >= 2,
        ;
        assert((v / base) * base + v % base == v) by (nonlinear_arith)
            requires
                base >= 2,
        ;
        assert(digits_value(s, base) == digits_value(s.drop_last(), base) * base + char_value(
            s.last(),
        ));
    }
}

/// `char_value` reads back what `digit_char` writes.
pub proof fn lemma_char_value(d: nat)
    requires
        d < 16,
    ensures
        char_value(digit_char(d)) == d,
{
}

/// Every digit is a decimal digit or a lowercase hexadecimal letter, and the
/// first digit is `0` only for zero itself.
pub proof fn lemma_digits_well_formed(v: nat, base: nat)
    requires
        2 <= base <= 16,
    ensures
        digits(v, base).len() >= 1,
        forall|i: int|
            0 <= i < digits(v, base).len() ==> {
                let c = #[trigger] digits(v, base)[i];
                (48 <= c <= 57) || (97 <= c < 97 + base - 10)
            },
        (digits(v, base)[0] == 48u8) <==> v == 0,
    decreases v,
{
    if v >= base {
        assert(v / base < v) by (nonlinear_arith)
            requires
                base >= 2,
                v >= base,
        ;
        assert(v / base >= 1) by (nonlinear_arith)
            requires
                base >= 2,
                v >= base,
        ;
        assert(v % base < base) by (nonlinear_arith)
            requires
                base >= 2,
        ;
        lemma_digits_well_formed(v / base, base);
    }
}

/// ASCII character of digit `d`.
pub fn digit_to_char(d: u64) -> (c: u8)
    requires
        d < 16,
    ensures
        c == digit_char(d as nat),
{
    if d < 10 {
        48 + d as u8
    } else {
        97 + (d as u8 - 10)
    }
}

/// Digits of `v` in `base` (2 to 16), most significant first.
pub fn base_digits(v: u64, base: u64) -> (r: Vec<u8>)
    requires
        2 <= base <= 16,
    ensures
        r@ == digits(v as nat, base as nat),
{
    if v < base {
        return vec![digit_to_char(v)];
    }
    let mut out: Vec<u8> = Vec::new();
    let mut n: u64 = v;
    while n > 0
        invariant
            2 <= base <= 16,
            n >= 1 ==> digits(v as nat, base as nat) == digits(n as nat, base as nat) + out@,
            n == 0 ==> digits(v as nat, base as nat) == out@,
        decreases n,
    {
        let d: u64 = n % base;
        let c: u8 = digit_to_char(d);
        let ghost old_out = out@;
        out.insert(0, c);
        let next: u64 = n / base;
        proof {
            assert(out@ =~= seq![c] + old_out);
            if n >= base {
                assert(next >= 1) by (nonlinear_arith)
                    requires
                        base >= 2,
                        n >= base,
                        next == n / base,
                ;
                assert(digits(n as nat, base as nat) == digits(next as nat, base as nat).push(c));
                assert(digits(next as nat, base as nat).push(c) + old_out =~= digits(
                    next as nat,
                    base as nat,
                ) + out@);
            } else {
                assert(next == 0) by (nonlinear_arith)
                    requires
                        n < base,
                        next == n / base,
                        base >= 2,
                ;
                assert(d == n) by (nonlinear_arith)
                    requires
                        n < base,
                        d == n % base,
                        base >= 2,
                ;
                assert(digits(n as nat, base as nat) == seq![c]);
            }
        }
        n = next;
    }
    out
}

/// Hexadecimal text of `v` as printed on the serial port: `0x` then the
/// digits without leading zeros (`0x0` for zero).
pub fn format_hex(v: u64) -> (r: Vec<u8>)
    ensures
        r@ == hex_text(v as nat),
{
    let digits_v = base_digits(v, 16);
    let mut out: Vec<u8> = vec![48u8, 120u8];
    let mut i: usize = 0;
    while i < digits_v.len()
        invariant
            0 <= i <= digits_v.len(),
            out@ == seq![48u8, 120u8] + digits_v@.subrange(0, i as int),
        decreases digits_v.len() - i,
    {
        out.push(digits_v[i]);
        proof {
            assert(digits_v@.subrange(0, i + 1) =~= digits_v@.subrange(0, i as int).push(digits_v@[i as int]));
        }
        i = i + 1;
    }
    proof {
        assert(digits_v@.subrange(0, digits_v@.len() as int) =~= digits_v@);
    }
    out
}

/// Decimal text of `n` without leading zeros (`0` for zero).
pub fn format_dec(n: u64) -> (r: Vec<u8>)
    ensures
        r@ == digits(n as nat, 10),
{
    base_digits(n, 10)
}

/// Appends `bytes` to `out`.
pub fn append_bytes(out: &mut Vec<u8>, bytes: &[u8])
    ensures
        final(out)@ == old(out)@ + bytes@,
{
    let mut i: usize = 0;
    while i < bytes.len()
        invariant
            0 <= i <= bytes@.len(),
            out@ == old(out)@ + bytes@.subrange(0, i as int),
        decreases bytes@.len() - i,
    {
        out.push(bytes[i]);
        proof {
            assert(old(out)@ + bytes@.subrange(0, i + 1) =~= out@);
        }
        i = i + 1;
    }
    proof {
        assert(bytes@.subrange(0, bytes@.len() as int) =~= bytes@);
    }
}

} // verus!
