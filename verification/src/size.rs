//! The closed family of unsigned integer types usable as dimensions.
//!
//! Widths, heights and coordinates are generic over a `Size` type so that
//! small regions can use small index types. All arithmetic on dimension
//! values is overflow-checked: an operation that would wrap fails with
//! `None` instead.

use vstd::prelude::*;

verus! {

/// Marker that closes the set of dimension types: only the unsigned
/// integer widths below implement `Size`, so every `Size` value is known
/// to behave like a plain machine integer.
pub trait Sealed {}

impl Sealed for u8 {}

impl Sealed for u16 {}

impl Sealed for u32 {}

impl Sealed for u64 {}

impl Sealed for usize {}

/// An unsigned integer type usable for widths, heights and coordinates.
pub trait Size: Sealed + Copy {
    /// The dimension value as a mathematical integer.
    spec fn as_int(self) -> int;

    /// The largest value this dimension type can hold.
    spec fn spec_max() -> int;

    /// Every dimension value lies between zero and the type's maximum.
    proof fn lemma_bounds(self)
        ensures
            0 <= self.as_int() <= Self::spec_max(),
    ;

    /// Distinct values map to distinct integers.
    proof fn lemma_injective(self, other: Self)
        requires
            self.as_int() == other.as_int(),
        ensures
            self == other,
    ;

    fn zero() -> (r: Self)
        ensures
            r.as_int() == 0,
    ;

    fn one() -> (r: Self)
        ensures
            r.as_int() == 1,
    ;

    fn max_value() -> (r: Self)
        ensures
            r.as_int() == Self::spec_max(),
    ;

    /// The dimension value as the platform's native index type.
    ///
    /// The value must be known to fit; dimensions of well-formed regions
    /// always do.
    fn usize(self) -> (r: usize)
        requires
            self.as_int() <= usize::MAX as int,
        ensures
            r as int == self.as_int(),
    ;

    /// The dimension value as the platform's native index type, or `None`
    /// where it does not fit.
    fn try_usize(self) -> (r: Option<usize>)
        ensures
            match r {
                Some(v) => v as int == self.as_int(),
                None => self.as_int() > usize::MAX as int,
            },
    ;

    /// Conversion back from `usize`, capped at this type's maximum.
    fn from_usize_capped(n: usize) -> (r: Self)
        ensures
            r.as_int() == if n as int <= Self::spec_max() {
                n as int
            } else {
                Self::spec_max()
            },
    ;

    fn le(self, other: Self) -> (r: bool)
        ensures
            r <==> self.as_int() <= other.as_int(),
    ;

    fn lt(self, other: Self) -> (r: bool)
        ensures
            r <==> self.as_int() < other.as_int(),
    ;

    /// Add a number of elements; fails instead of wrapping.
    fn checked_limited_add(self, other: Self) -> (r: Option<Self>)
        ensures
            match r {
                Some(v) => v.as_int() == self.as_int() + other.as_int()
                    && self.as_int() + other.as_int() <= Self::spec_max(),
                None => self.as_int() + other.as_int() > Self::spec_max(),
            },
    ;

    /// Subtract a number of elements; fails instead of wrapping.
    fn checked_limited_sub(self, other: Self) -> (r: Option<Self>)
        ensures
            match r {
                Some(v) => v.as_int() == self.as_int() - other.as_int(),
                None => self.as_int() < other.as_int(),
            },
    ;

    /// Multiply the dimension by an element byte size, failing if the
    /// product would reach the largest byte length a single object may
    /// have on this platform.
    fn mul_size_of(self, elem_size: usize) -> (r: Option<usize>)
        ensures
            match r {
                Some(v) => v as int == self.as_int() * elem_size
                    && (v as int) < isize::MAX as int,
                None => self.as_int() * elem_size >= isize::MAX as int,
            },
    ;

    /// The value itself where it is not zero, `None` where it is.
    fn non_zero(self) -> (r: Option<Self>)
        ensures
            match r {
                Some(v) => v == self && self.as_int() != 0,
                None => self.as_int() == 0,
            },
    ;
}

impl Size for u8 {
    open spec fn as_int(self) -> int {
        self as int
    }

    open spec fn spec_max() -> int {
        u8::MAX as int
    }

    proof fn lemma_bounds(self) {
    }

    proof fn lemma_injective(self, other: Self) {
    }

    fn zero() -> u8 {
        0
    }

    fn one() -> u8 {
        1
    }

    fn max_value() -> u8 {
        u8::MAX
    }

    fn usize(self) -> usize {
        self as usize
    }

    fn try_usize(self) -> Option<usize> {
        Some(self as usize)
    }

    fn from_usize_capped(n: usize) -> u8 {
        if n <= u8::MAX as usize {
            n as u8
        } else {
            u8::MAX
        }
    }

    fn le(self, other: u8) -> bool {
        self <= other
    }

    fn lt(self, other: u8) -> bool {
        self < other
    }

    fn checked_limited_add(self, other: u8) -> Option<u8> {
        self.checked_add(other)
    }

    fn checked_limited_sub(self, other: u8) -> Option<u8> {
        self.checked_sub(other)
    }

    fn mul_size_of(self, elem_size: usize) -> Option<usize> {
        match (self as usize).checked_mul(elem_size) {
            Some(v) if v < isize::MAX as usize => Some(v),
            _ => None,
        }
    }
    fn non_zero(self) -> Option<u8> {
        if self != 0 {
            Some(self)
        } else {
            None
        }
    }

}

impl Size for u16 {
    open spec fn as_int(self) -> int {
        self as int
    }

    open spec fn spec_max() -> int {
        u16::MAX as int
    }

    proof fn lemma_bounds(self) {
    }

    proof fn lemma_injective(self, other: Self) {
    }

    fn zero() -> u16 {
        0
    }

    fn one() -> u16 {
        1
    }

    fn max_value() -> u16 {
        u16::MAX
    }

    fn usize(self) -> usize {
        self as usize
    }

    fn try_usize(self) -> Option<usize> {
        Some(self as usize)
    }

    fn from_usize_capped(n: usize) -> u16 {
        if n <= u16::MAX as usize {
            n as u16
        } else {
            u16::MAX
        }
    }

    fn le(self, other: u16) -> bool {
        self <= other
    }

    fn lt(self, other: u16) -> bool {
        self < other
    }

    fn checked_limited_add(self, other: u16) -> Option<u16> {
        self.checked_add(other)
    }

    fn checked_limited_sub(self, other: u16) -> Option<u16> {
        self.checked_sub(other)
    }

    fn mul_size_of(self, elem_size: usize) -> Option<usize> {
        match (self as usize).checked_mul(elem_size) {
            Some(v) if v < isize::MAX as usize => Some(v),
            _ => None,
        }
    }
    fn non_zero(self) -> Option<u16> {
        if self != 0 {
            Some(self)
        } else {
            None
        }
    }

}

impl Size for u32 {
    open spec fn as_int(self) -> int {
        self as int
    }

    open spec fn spec_max() -> int {
        u32::MAX as int
    }

    proof fn lemma_bounds(self) {
    }

    proof fn lemma_injective(self, other: Self) {
    }

    fn zero() -> u32 {
        0
    }

    fn one() -> u32 {
        1
    }

    fn max_value() -> u32 {
        u32::MAX
    }

    fn usize(self) -> usize {
        self as usize
    }

    fn try_usize(self) -> Option<usize> {
        Some(self as usize)
    }

    fn from_usize_capped(n: usize) -> u32 {
        if n <= u32::MAX as usize {
            n as u32
        } else {
            u32::MAX
        }
    }

    fn le(self, other: u32) -> bool {
        self <= other
    }

    fn lt(self, other: u32) -> bool {
        self < other
    }

    fn checked_limited_add(self, other: u32) -> Option<u32> {
        self.checked_add(other)
    }

    fn checked_limited_sub(self, other: u32) -> Option<u32> {
        self.checked_sub(other)
    }

    fn mul_size_of(self, elem_size: usize) -> Option<usize> {
        match (self as usize).checked_mul(elem_size) {
            Some(v) if v < isize::MAX as usize => Some(v),
            _ => None,
        }
    }
    fn non_zero(self) -> Option<u32> {
        if self != 0 {
            Some(self)
        } else {
            None
        }
    }

}

impl Size for u64 {
    open spec fn as_int(self) -> int {
        self as int
    }

    open spec fn spec_max() -> int {
        u64::MAX as int
    }

    proof fn lemma_bounds(self) {
    }

    proof fn lemma_injective(self, other: Self) {
    }

    fn zero() -> u64 {
        0
    }

    fn one() -> u64 {
        1
    }

    fn max_value() -> u64 {
        u64::MAX
    }

    fn usize(self) -> usize {
        self as usize
    }

    fn try_usize(self) -> Option<usize> {
        if self <= usize::MAX as u64 {
            Some(self as usize)
        } else {
            None
        }
    }

    fn from_usize_capped(n: usize) -> u64 {
        n as u64
    }

    fn le(self, other: u64) -> bool {
        self <= other
    }

    fn lt(self, other: u64) -> bool {
        self < other
    }

    fn checked_limited_add(self, other: u64) -> Option<u64> {
        self.checked_add(other)
    }

    fn checked_limited_sub(self, other: u64) -> Option<u64> {
        self.checked_sub(other)
    }

    fn mul_size_of(self, elem_size: usize) -> Option<usize> {
        if elem_size == 0 {
            Some(0)
        } else if self <= usize::MAX as u64 {
            match (self as usize).checked_mul(elem_size) {
                Some(v) if v < isize::MAX as usize => Some(v),
                _ => None,
            }
        } else {
            proof {
                assert(self as int * elem_size as int >= self as int) by (nonlinear_arith)
                    requires elem_size >= 1;
            }
            None
        }
    }
    fn non_zero(self) -> Option<u64> {
        if self != 0 {
            Some(self)
        } else {
            None
        }
    }

}

impl Size for usize {
    open spec fn as_int(self) -> int {
        self as int
    }

    open spec fn spec_max() -> int {
        usize::MAX as int
    }

    proof fn lemma_bounds(self) {
    }

    proof fn lemma_injective(self, other: Self) {
    }

    fn zero() -> usize {
        0
    }

    fn one() -> usize {
        1
    }

    fn max_value() -> usize {
        usize::MAX
    }

    fn usize(self) -> usize {
        self
    }

    fn try_usize(self) -> Option<usize> {
        Some(self)
    }

    fn from_usize_capped(n: usize) -> usize {
        n
    }

    fn le(self, other: usize) -> bool {
        self <= other
    }

    fn lt(self, other: usize) -> bool {
        self < other
    }

    fn checked_limited_add(self, other: usize) -> Option<usize> {
        self.checked_add(other)
    }

    fn checked_limited_sub(self, other: usize) -> Option<usize> {
        self.checked_sub(other)
    }

    fn mul_size_of(self, elem_size: usize) -> Option<usize> {
        match self.checked_mul(elem_size) {
            Some(v) if v < isize::MAX as usize => Some(v),
            _ => None,
        }
    }
    fn non_zero(self) -> Option<usize> {
        if self != 0 {
            Some(self)
        } else {
            None
        }
    }

}

} // verus!
