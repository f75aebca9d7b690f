//! Element types and the rules attached to them.
use vstd::prelude::*;

verus! {

/// Element type of a tensor.
#[derive(Clone, Copy, Debug, PartialEq, Eq, Structural, Hash)]
pub enum DType {
    I8,
    I16,
    I32,
    I64,
    U8,
    U16,
    U32,
    U64,
    F16,
    BF16,
    F8,
    F32,
    F64,
    Bool,
    Bitset,
    I4,
    I2,
    I1,
    U4,
    U2,
    U1,
    T2,
    T1,
}

/// Number of bits that one element of `d` occupies.
pub open spec fn bits_of(d: DType) -> nat {
    match d {
        DType::I8 | DType::U8 | DType::F8 | DType::Bool | DType::Bitset => 8,
        DType::I16 | DType::U16 | DType::F16 | DType::BF16 => 16,
        DType::I32 | DType::U32 | DType::F32 => 32,
        DType::I64 | DType::U64 | DType::F64 => 64,
        DType::I4 | DType::U4 => 4,
        DType::I2 | DType::U2 | DType::T2 => 2,
        DType::I1 | DType::U1 | DType::T1 => 1,
    }
}

/// Sub-byte element types, stored several to a byte.
pub open spec fn packed(d: DType) -> bool {
    bits_of(d) < 8
}

/// Number of storage units that `n` logical elements of `d` take:
/// one per element, or one byte per eight bits for packed types.
pub open spec fn storage_units(d: DType, n: nat) -> nat {
    if packed(d) {
        ((n * bits_of(d) + 7) / 8) as nat
    } else {
        n
    }
}

impl DType {
    /// Width of one element in bits.
    pub fn bit_width(&self) -> (r: u32)
        ensures
            r == bits_of(*self),
    {
        match self {
            DType::I8 | DType::U8 | DType::F8 | DType::Bool | DType::Bitset => 8,
            DType::I16 | DType::U16 | DType::F16 | DType::BF16 => 16,
            DType::I32 | DType::U32 | DType::F32 => 32,
            DType::I64 | DType::U64 | DType::F64 => 64,
            DType::I4 | DType::U4 => 4,
            DType::I2 | DType::U2 | DType::T2 => 2,
            DType::I1 | DType::U1 | DType::T1 => 1,
        }
    }

    /// True for the sub-byte element types.
    pub fn is_packed(&self) -> (r: bool)
        ensures
            r == packed(*self),
    {
        self.bit_width() < 8
    }

    /// Storage length of `logical_len` elements.
    pub fn storage_len(&self, logical_len: usize) -> (r: usize)
        ensures
            r == storage_units(*self, logical_len as nat),
    {
        if self.is_packed() {
            let b = self.bit_width() as usize;
            let q = logical_len / 8;
            let rem = logical_len % 8;
            assert(1 <= b <= 4);
            assert(rem * b <= 32) by (nonlinear_arith)
                requires
                    rem < 8,
                    b <= 4,
            ;
            let tail = (rem * b + 7) / 8;
            proof {
                let n = logical_len as int;
                assert(n == 8 * q + rem) by (nonlinear_arith)
                    requires
                        q == n / 8,
                        rem == n % 8,
                ;
                assert((n * b + 7) / 8 == q * b + (rem * b + 7) / 8) by (nonlinear_arith)
                    requires
                        n == 8 * q + rem,
                        0 <= rem < 8,
                        1 <= b <= 4,
                        q >= 0,
                ;
                assert(tail <= rem) by (nonlinear_arith)
                    requires
                        tail == (rem * b + 7) / 8,
                        0 <= rem < 8,
                        1 <= b <= 4,
                ;
                assert(q * b + tail <= n) by (nonlinear_arith)
                    requires
                        tail <= rem,
                        n == 8 * q + rem,
                        1 <= b <= 4,
                        q >= 0,
                ;
                assert(q * b <= n) by (nonlinear_arith)
                    requires
                        n == 8 * q + rem,
                        0 <= rem,
                        1 <= b <= 4,
                        q >= 0,
                ;
            }
            q * b + tail
        } else {
            logical_len
        }
    }
}

} // verus!
