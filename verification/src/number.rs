//! Whole numbers as IEEE doubles.

use vstd::prelude::*;

verus! {

/// Two to the power 52: the weight of the exponent field of a double.
pub const FRACTION: u64 = 0x10_0000_0000_0000;

/// The largest power of two that is not above `n`, for `1 <= n < 65536`,
/// with its exponent.
pub open spec fn leading(n: nat) -> (nat, nat) {
    if n >= 32768 {
        (32768, 15)
    } else if n >= 16384 {
        (16384, 14)
    } else if n >= 8192 {
        (8192, 13)
    } else if n >= 4096 {
        (4096, 12)
    } else if n >= 2048 {
        (2048, 11)
    } else if n >= 1024 {
        (1024, 10)
    } else if n >= 512 {
        (512, 9)
    } else if n >= 256 {
        (256, 8)
    } else if n >= 128 {
        (128, 7)
    } else if n >= 64 {
        (64, 6)
    } else if n >= 32 {
        (32, 5)
    } else if n >= 16 {
        (16, 4)
    } else if n >= 8 {
        (8, 3)
    } else if n >= 4 {
        (4, 2)
    } else if n >= 2 {
        (2, 1)
    } else {
        (1, 0)
    }
}

/// The bits of the double that equals the whole number `n < 65536`: zero
/// for zero; otherwise the exponent field is 1023 more than the exponent of
/// the leading power of two, and the fraction field is what `n` has beyond
/// that power, scaled to 52 bits.
pub open spec fn double_of(n: nat) -> nat {
    if n == 0 {
        0
    } else {
        let (top, exp) = leading(n);
        ((1023 + exp) * 0x10_0000_0000_0000int + (n - top) * (0x10_0000_0000_0000int / top as int)) as nat
    }
}

/// The bits of the double that equals `n`.
pub fn double_from_u16(n: u16) -> (bits: u64)
    ensures
        bits == double_of(n as nat),
{
    if n == 0 {
        return 0;
    }
    let n = n as u64;
    let (top, exp): (u64, u64) = if n >= 32768 {
        (32768, 15)
    } else if n >= 16384 {
        (16384, 14)
    } else if n >= 8192 {
        (8192, 13)
    } else if n >= 4096 {
        (4096, 12)
    } else if n >= 2048 {
        (2048, 11)
    } else if n >= 1024 {
        (1024, 10)
    } else if n >= 512 {
        (512, 9)
    } else if n >= 256 {
        (256, 8)
    } else if n >= 128 {
        (128, 7)
    } else if n >= 64 {
        (64, 6)
    } else if n >= 32 {
        (32, 5)
    } else if n >= 16 {
        (16, 4)
    } else if n >= 8 {
        (8, 3)
    } else if n >= 4 {
        (4, 2)
    } else if n >= 2 {
        (2, 1)
    } else {
        (1, 0)
    };
    let scale: u64 = FRACTION / top;
    assert(n - top < top);
    assert((n - top) * scale < FRACTION) by (nonlinear_arith)
        requires
            n - top < top,
            top * scale == FRACTION,
            top >= 1,
    ;
    (1023 + exp) * FRACTION + (n - top) * scale
}

/// The double that [`double_of`] gives for `n` has the value `n`: its
/// fraction field `f` and the leading power of two `top` satisfy
/// `(2^52 + f) * top == n * 2^52`, and nothing of the fraction reaches the
/// exponent field.
pub proof fn law_double_of_value(n: nat)
    requires
        1 <= n < 65536,
    ensures
        ({
            let (top, exp) = leading(n);
            let f = double_of(n) - (1023 + exp) * 0x10_0000_0000_0000;
            &&& top <= n < 2 * top
            &&& 0 <= f < 0x10_0000_0000_0000
            &&& (0x10_0000_0000_0000 + f) * top == n * 0x10_0000_0000_0000
        }),
{
    let (top, exp) = leading(n);
    let scale = 0x10_0000_0000_0000int / top as int;
    assert(top * scale == 0x10_0000_0000_0000);
    let f = (n - top) * scale;
    assert(f < 0x10_0000_0000_0000 && f >= 0) by (nonlinear_arith)
        requires
            0 <= n - top < top,
            top * scale == 0x10_0000_0000_0000,
            top >= 1,
            f == (n - top) * scale,
    ;
    assert((0x10_0000_0000_0000 + f) * top == n * 0x10_0000_0000_0000) by (nonlinear_arith)
        requires
            top * scale == 0x10_0000_0000_0000,
            f == (n - top) * scale,
    ;
}

} // verus!
