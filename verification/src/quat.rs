//! Quaternions `a + bi + cj + dk`, held by the bit patterns of their four
//! IEEE double components.

use vstd::prelude::*;

verus! {

/// A quaternion. Each component is an IEEE double, stored as its 64 bits.
#[derive(Clone, Copy, Debug)]
pub struct Quat(pub u64, pub u64, pub u64, pub u64);

/// What a text that is no quaternion literal gives.
#[derive(Debug)]
pub struct ParseQuatError;

/// Whether `bits` is a NaN: all exponent bits set and a fraction that is not
/// zero.
pub open spec fn is_nan(bits: u64) -> bool {
    (bits & 0x7fff_ffff_ffff_ffff) > 0x7ff0_0000_0000_0000
}

/// Whether `bits` is `+0.0` or `-0.0`.
pub open spec fn is_zero(bits: u64) -> bool {
    (bits & 0x7fff_ffff_ffff_ffff) == 0
}

/// Equality of two doubles given by their bits: a NaN equals nothing, the two
/// zeros equal each other, and any other value equals only itself.
pub open spec fn num_eq(a: u64, b: u64) -> bool {
    !is_nan(a) && !is_nan(b) && (a == b || (is_zero(a) && is_zero(b)))
}

/// Equality of two quaternions, component by component.
pub open spec fn quat_eq(p: Quat, q: Quat) -> bool {
    num_eq(p.0, q.0) && num_eq(p.1, q.1) && num_eq(p.2, q.2) && num_eq(p.3, q.3)
}

/// Compares two doubles, given by their bits, as IEEE equality does.
pub fn num_equals(a: u64, b: u64) -> (r: bool)
    ensures
        r == num_eq(a, b),
{
    let ma = a & 0x7fff_ffff_ffff_ffff;
    let mb = b & 0x7fff_ffff_ffff_ffff;
    if ma > 0x7ff0_0000_0000_0000 || mb > 0x7ff0_0000_0000_0000 {
        false
    } else {
        a == b || (ma == 0 && mb == 0)
    }
}

impl Quat {
    /// The quaternion `(n, 0, 0, 0)` that stands for the real number `n`.
    pub fn from_real(n: u64) -> (q: Quat)
        ensures
            q == Quat(n, 0, 0, 0),
    {
        Quat(n, 0, 0, 0)
    }

    /// Compares component by component, as IEEE equality does.
    pub fn equals(&self, other: &Quat) -> (r: bool)
        ensures
            r == quat_eq(*self, *other),
    {
        num_equals(self.0, other.0) && num_equals(self.1, other.1) && num_equals(self.2, other.2)
            && num_equals(self.3, other.3)
    }
}

impl Default for Quat {
    fn default() -> (q: Quat)
        ensures
            q == Quat(0, 0, 0, 0),
    {
        Quat(0, 0, 0, 0)
    }
}

} // verus!
