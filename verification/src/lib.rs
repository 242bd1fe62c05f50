//! Mailbox-negotiated framebuffer graphics for a single-board ARM computer.
//!
//! The crate covers the property-tag mailbox protocol that negotiates a
//! framebuffer with the GPU, and the pixel-format-aware rendering engine
//! built on top of the negotiated surface.

pub mod mailbox;
pub mod negotiate;
pub mod framebuffer;
pub mod glyphs;
pub mod colors;
pub mod graphics;
pub mod system;
pub mod wasm_runner;

use vstd::prelude::*;

verus! {

/// Renders an unsigned number as its ASCII decimal digits.
///
/// The byte sequence is what a console transport would transmit for `n`:
/// no leading zeros, and the single digit `0` for zero itself.
pub open spec fn spec_decimal_digits(n: nat) -> Seq<u8>
    decreases n,
{
    if n == 0 {
        Seq::empty()
    } else {
        spec_decimal_digits(n / 10).push((48 + n % 10) as u8)
    }
}

/// The exact byte sequence printed for `n`: "0" for zero, else its digits.
pub open spec fn spec_printed_number(n: nat) -> Seq<u8> {
    if n == 0 {
        seq![48u8]
    } else {
        spec_decimal_digits(n)
    }
}

/// Decimal rendering of a number, as the bytes to hand to a console sink.
pub fn print_number(n: u64) -> (digits: Vec<u8>)
    ensures
        digits@ == spec_printed_number(n as nat),
{
    if n == 0 {
        let mut v: Vec<u8> = Vec::new();
        v.push(48);
        proof {
            assert(v@ =~= spec_printed_number(0));
        }
        return v;
    }

    let mut buf: Vec<u8> = Vec::new();
    let mut rest: u64 = n;
    while rest > 0
        invariant
            spec_decimal_digits(n as nat) == spec_decimal_digits(rest as nat) + buf@.reverse(),
        decreases rest,
    {
        let digit: u8 = (rest % 10) as u8 + 48;
        proof {
            assert(spec_decimal_digits(rest as nat) == spec_decimal_digits(
                (rest / 10) as nat,
            ).push((48 + rest as nat % 10) as u8));
            assert(spec_decimal_digits((rest / 10) as nat).push(digit) + buf@.reverse()
                =~= spec_decimal_digits((rest / 10) as nat) + buf@.push(digit).reverse());
        }
        buf.push(digit);
        rest = rest / 10;
    }
    proof {
        assert(spec_decimal_digits(n as nat) =~= buf@.reverse());
    }

    let mut digits: Vec<u8> = Vec::new();
    let mut i: usize = buf.len();
    while i > 0
        invariant
            i <= buf.len(),
            digits@ == buf@.subrange(i as int, buf@.len() as int).reverse(),
        decreases i,
    {
        i = i - 1;
        let d = buf[i];
        digits.push(d);
        proof {
            assert(buf@.subrange(i as int, buf@.len() as int).reverse()
                =~= buf@.subrange(i + 1, buf@.len() as int).reverse().push(buf@[i as int]));
        }
    }
    proof {
        assert(buf@.subrange(0, buf@.len() as int) =~= buf@);
    }
    digits
}

} // verus!
