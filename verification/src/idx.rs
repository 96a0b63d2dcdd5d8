use vstd::prelude::*;
use vstd::std_specs::ops::{AddSpec, MulSpec, SubSpec};

verus! {

/// An integer type usable as a coordinate of a `Range2D`.
///
/// Each value stands for the mathematical integer `as_int()`, which lies in
/// `[min_int(), max_int()]`; `+`, `-` and `*` compute on those integers
/// wherever the result fits in the type.
pub trait Idx:
    Copy
    + PartialOrd
    + Eq
    + std::ops::Add<Output = Self>
    + std::ops::Sub<Output = Self>
    + std::ops::Mul<Output = Self>
    + std::ops::Div<Output = Self>
    + std::ops::Rem<Output = Self> {
    /// The mathematical integer that the value stands for.
    spec fn as_int(self) -> int;

    /// The least value of the type.
    spec fn min_int() -> int;

    /// The greatest value of the type.
    spec fn max_int() -> int;

    /// The value that `n as Self` gives.
    spec fn from_usize_int(n: usize) -> int;

    /// Every value lies within the type's bounds.
    proof fn lemma_in_bounds(self)
        ensures
            Self::min_int() <= self.as_int() <= Self::max_int(),
    ;

    /// The bounds of the type: it holds at least `0..=127`.
    proof fn lemma_bounds()
        ensures
            Self::min_int() <= 0,
            127 <= Self::max_int(),
    ;

    /// Two values standing for the same integer are the same value.
    proof fn lemma_injective(self, other: Self)
        ensures
            self.as_int() == other.as_int() ==> self == other,
    ;

    /// Converting a `usize` that fits in the type keeps its value.
    proof fn lemma_from_usize_fits(n: usize)
        ensures
            n <= Self::max_int() ==> Self::from_usize_int(n) == n,
    ;

    /// `+`, `-` and `*` compute the integer result wherever it fits in the type.
    proof fn lemma_arith(a: Self, b: Self)
        ensures
            Self::min_int() <= a.as_int() + b.as_int() <= Self::max_int() ==> a.add_req(b)
                && a.add_spec(b).as_int() == a.as_int() + b.as_int(),
            Self::min_int() <= a.as_int() - b.as_int() <= Self::max_int() ==> a.sub_req(b)
                && a.sub_spec(b).as_int() == a.as_int() - b.as_int(),
            Self::min_int() <= a.as_int() * b.as_int() <= Self::max_int() ==> a.mul_req(b)
                && a.mul_spec(b).as_int() == a.as_int() * b.as_int(),
            Self::obeys_add_spec(),
            Self::obeys_sub_spec(),
            Self::obeys_mul_spec(),
    ;

    /// The value `0`.
    fn zero() -> (r: Self)
        ensures
            r.as_int() == 0,
    ;

    /// The value `1`.
    fn one() -> (r: Self)
        ensures
            r.as_int() == 1,
    ;

    /// `self - rhs`, saturating at zero below and at the type's maximum above.
    fn saturating_sub(self, rhs: Self) -> (r: Self)
        ensures
            r.as_int() == clamp_diff(self.as_int(), rhs.as_int(), Self::max_int()),
    ;

    /// `n as Self`.
    fn from_usize(n: usize) -> (r: Self)
        ensures
            r.as_int() == Self::from_usize_int(n),
    ;

    /// `self as usize`.
    fn to_usize(self) -> (r: usize)
        ensures
            r == self.as_int() as usize,
    ;
}

/// `a - b` clamped to `[0, max]`.
pub open spec fn clamp_diff(a: int, b: int, max: int) -> int {
    if a < b {
        0
    } else if a - b > max {
        max
    } else {
        a - b
    }
}

impl Idx for isize {
    open spec fn as_int(self) -> int {
        self as int
    }

    open spec fn min_int() -> int {
        isize::MIN as int
    }

    open spec fn max_int() -> int {
        isize::MAX as int
    }

    open spec fn from_usize_int(n: usize) -> int {
        (n as isize) as int
    }

    proof fn lemma_in_bounds(self) {
    }

    proof fn lemma_bounds() {
    }

    proof fn lemma_injective(self, other: Self) {
    }

    proof fn lemma_from_usize_fits(n: usize) {
    }

    proof fn lemma_arith(a: Self, b: Self) {
    }

    fn zero() -> (r: Self) {
        0
    }

    fn one() -> (r: Self) {
        1
    }

    fn saturating_sub(self, rhs: Self) -> (r: Self) {
        if self < rhs {
            0
        } else if rhs < 0 && self > isize::MAX + rhs {
            isize::MAX
        } else {
            self - rhs
        }
    }

    fn from_usize(n: usize) -> (r: Self) {
        n as isize
    }

    fn to_usize(self) -> (r: usize) {
        self as usize
    }
}

impl Idx for usize {
    open spec fn as_int(self) -> int {
        self as int
    }

    open spec fn min_int() -> int {
        usize::MIN as int
    }

    open spec fn max_int() -> int {
        usize::MAX as int
    }

    open spec fn from_usize_int(n: usize) -> int {
        (n as usize) as int
    }

    proof fn lemma_in_bounds(self) {
    }

    proof fn lemma_bounds() {
    }

    proof fn lemma_injective(self, other: Self) {
    }

    proof fn lemma_from_usize_fits(n: usize) {
    }

    proof fn lemma_arith(a: Self, b: Self) {
    }

    fn zero() -> (r: Self) {
        0
    }

    fn one() -> (r: Self) {
        1
    }

    fn saturating_sub(self, rhs: Self) -> (r: Self) {
        self.saturating_sub(rhs)
    }

    fn from_usize(n: usize) -> (r: Self) {
        n as usize
    }

    fn to_usize(self) -> (r: usize) {
        self as usize
    }
}

impl Idx for i128 {
    open spec fn as_int(self) -> int {
        self as int
    }

    open spec fn min_int() -> int {
        i128::MIN as int
    }

    open spec fn max_int() -> int {
        i128::MAX as int
    }

    open spec fn from_usize_int(n: usize) -> int {
        (n as i128) as int
    }

    proof fn lemma_in_bounds(self) {
    }

    proof fn lemma_bounds() {
    }

    proof fn lemma_injective(self, other: Self) {
    }

    proof fn lemma_from_usize_fits(n: usize) {
    }

    proof fn lemma_arith(a: Self, b: Self) {
    }

    fn zero() -> (r: Self) {
        0
    }

    fn one() -> (r: Self) {
        1
    }

    fn saturating_sub(self, rhs: Self) -> (r: Self) {
        if self < rhs {
            0
        } else if rhs < 0 && self > i128::MAX + rhs {
            i128::MAX
        } else {
            self - rhs
        }
    }

    fn from_usize(n: usize) -> (r: Self) {
        n as i128
    }

    fn to_usize(self) -> (r: usize) {
        self as usize
    }
}

impl Idx for u128 {
    open spec fn as_int(self) -> int {
        self as int
    }

    open spec fn min_int() -> int {
        u128::MIN as int
    }

    open spec fn max_int() -> int {
        u128::MAX as int
    }

    open spec fn from_usize_int(n: usize) -> int {
        (n as u128) as int
    }

    proof fn lemma_in_bounds(self) {
    }

    proof fn lemma_bounds() {
    }

    proof fn lemma_injective(self, other: Self) {
    }

    proof fn lemma_from_usize_fits(n: usize) {
    }

    proof fn lemma_arith(a: Self, b: Self) {
    }

    fn zero() -> (r: Self) {
        0
    }

    fn one() -> (r: Self) {
        1
    }

    fn saturating_sub(self, rhs: Self) -> (r: Self) {
        self.saturating_sub(rhs)
    }

    fn from_usize(n: usize) -> (r: Self) {
        n as u128
    }

    fn to_usize(self) -> (r: usize) {
        self as usize
    }
}

impl Idx for i64 {
    open spec fn as_int(self) -> int {
        self as int
    }

    open spec fn min_int() -> int {
        i64::MIN as int
    }

    open spec fn max_int() -> int {
        i64::MAX as int
    }

    open spec fn from_usize_int(n: usize) -> int {
        (n as i64) as int
    }

    proof fn lemma_in_bounds(self) {
    }

    proof fn lemma_bounds() {
    }

    proof fn lemma_injective(self, other: Self) {
    }

    proof fn lemma_from_usize_fits(n: usize) {
    }

    proof fn lemma_arith(a: Self, b: Self) {
    }

    fn zero() -> (r: Self) {
        0
    }

    fn one() -> (r: Self) {
        1
    }

    fn saturating_sub(self, rhs: Self) -> (r: Self) {
        if self < rhs {
            0
        } else if rhs < 0 && self > i64::MAX + rhs {
            i64::MAX
        } else {
            self - rhs
        }
    }

    fn from_usize(n: usize) -> (r: Self) {
        n as i64
    }

    fn to_usize(self) -> (r: usize) {
        self as usize
    }
}

impl Idx for u64 {
    open spec fn as_int(self) -> int {
        self as int
    }

    open spec fn min_int() -> int {
        u64::MIN as int
    }

    open spec fn max_int() -> int {
        u64::MAX as int
    }

    open spec fn from_usize_int(n: usize) -> int {
        (n as u64) as int
    }

    proof fn lemma_in_bounds(self) {
    }

    proof fn lemma_bounds() {
    }

    proof fn lemma_injective(self, other: Self) {
    }

    proof fn lemma_from_usize_fits(n: usize) {
    }

    proof fn lemma_arith(a: Self, b: Self) {
    }

    fn zero() -> (r: Self) {
        0
    }

    fn one() -> (r: Self) {
        1
    }

    fn saturating_sub(self, rhs: Self) -> (r: Self) {
        self.saturating_sub(rhs)
    }

    fn from_usize(n: usize) -> (r: Self) {
        n as u64
    }

    fn to_usize(self) -> (r: usize) {
        self as usize
    }
}

impl Idx for i32 {
    open spec fn as_int(self) -> int {
        self as int
    }

    open spec fn min_int() -> int {
        i32::MIN as int
    }

    open spec fn max_int() -> int {
        i32::MAX as int
    }

    open spec fn from_usize_int(n: usize) -> int {
        (n as i32) as int
    }

    proof fn lemma_in_bounds(self) {
    }

    proof fn lemma_bounds() {
    }

    proof fn lemma_injective(self, other: Self) {
    }

    proof fn lemma_from_usize_fits(n: usize) {
    }

    proof fn lemma_arith(a: Self, b: Self) {
    }

    fn zero() -> (r: Self) {
        0
    }

    fn one() -> (r: Self) {
        1
    }

    fn saturating_sub(self, rhs: Self) -> (r: Self) {
        if self < rhs {
            0
        } else if rhs < 0 && self > i32::MAX + rhs {
            i32::MAX
        } else {
            self - rhs
        }
    }

    fn from_usize(n: usize) -> (r: Self) {
        n as i32
    }

    fn to_usize(self) -> (r: usize) {
        self as usize
    }
}

impl Idx for u32 {
    open spec fn as_int(self) -> int {
        self as int
    }

    open spec fn min_int() -> int {
        u32::MIN as int
    }

    open spec fn max_int() -> int {
        u32::MAX as int
    }

    open spec fn from_usize_int(n: usize) -> int {
        (n as u32) as int
    }

    proof fn lemma_in_bounds(self) {
    }

    proof fn lemma_bounds() {
    }

    proof fn lemma_injective(self, other: Self) {
    }

    proof fn lemma_from_usize_fits(n: usize) {
    }

    proof fn lemma_arith(a: Self, b: Self) {
    }

    fn zero() -> (r: Self) {
        0
    }

    fn one() -> (r: Self) {
        1
    }

    fn saturating_sub(self, rhs: Self) -> (r: Self) {
        self.saturating_sub(rhs)
    }

    fn from_usize(n: usize) -> (r: Self) {
        n as u32
    }

    fn to_usize(self) -> (r: usize) {
        self as usize
    }
}

impl Idx for i16 {
    open spec fn as_int(self) -> int {
        self as int
    }

    open spec fn min_int() -> int {
        i16::MIN as int
    }

    open spec fn max_int() -> int {
        i16::MAX as int
    }

    open spec fn from_usize_int(n: usize) -> int {
        (n as i16) as int
    }

    proof fn lemma_in_bounds(self) {
    }

    proof fn lemma_bounds() {
    }

    proof fn lemma_injective(self, other: Self) {
    }

    proof fn lemma_from_usize_fits(n: usize) {
    }

    proof fn lemma_arith(a: Self, b: Self) {
    }

    fn zero() -> (r: Self) {
        0
    }

    fn one() -> (r: Self) {
        1
    }

    fn saturating_sub(self, rhs: Self) -> (r: Self) {
        if self < rhs {
            0
        } else if rhs < 0 && self > i16::MAX + rhs {
            i16::MAX
        } else {
            self - rhs
        }
    }

    fn from_usize(n: usize) -> (r: Self) {
        n as i16
    }

    fn to_usize(self) -> (r: usize) {
        self as usize
    }
}

impl Idx for u16 {
    open spec fn as_int(self) -> int {
        self as int
    }

    open spec fn min_int() -> int {
        u16::MIN as int
    }

    open spec fn max_int() -> int {
        u16::MAX as int
    }

    open spec fn from_usize_int(n: usize) -> int {
        (n as u16) as int
    }

    proof fn lemma_in_bounds(self) {
    }

    proof fn lemma_bounds() {
    }

    proof fn lemma_injective(self, other: Self) {
    }

    proof fn lemma_from_usize_fits(n: usize) {
    }

    proof fn lemma_arith(a: Self, b: Self) {
    }

    fn zero() -> (r: Self) {
        0
    }

    fn one() -> (r: Self) {
        1
    }

    fn saturating_sub(self, rhs: Self) -> (r: Self) {
        self.saturating_sub(rhs)
    }

    fn from_usize(n: usize) -> (r: Self) {
        n as u16
    }

    fn to_usize(self) -> (r: usize) {
        self as usize
    }
}

impl Idx for i8 {
    open spec fn as_int(self) -> int {
        self as int
    }

    open spec fn min_int() -> int {
        i8::MIN as int
    }

    open spec fn max_int() -> int {
        i8::MAX as int
    }

    open spec fn from_usize_int(n: usize) -> int {
        (n as i8) as int
    }

    proof fn lemma_in_bounds(self) {
    }

    proof fn lemma_bounds() {
    }

    proof fn lemma_injective(self, other: Self) {
    }

    proof fn lemma_from_usize_fits(n: usize) {
    }

    proof fn lemma_arith(a: Self, b: Self) {
    }

    fn zero() -> (r: Self) {
        0
    }

    fn one() -> (r: Self) {
        1
    }

    fn saturating_sub(self, rhs: Self) -> (r: Self) {
        if self < rhs {
            0
        } else if rhs < 0 && self > i8::MAX + rhs {
            i8::MAX
        } else {
            self - rhs
        }
    }

    fn from_usize(n: usize) -> (r: Self) {
        n as i8
    }

    fn to_usize(self) -> (r: usize) {
        self as usize
    }
}

impl Idx for u8 {
    open spec fn as_int(self) -> int {
        self as int
    }

    open spec fn min_int() -> int {
        u8::MIN as int
    }

    open spec fn max_int() -> int {
        u8::MAX as int
    }

    open spec fn from_usize_int(n: usize) -> int {
        (n as u8) as int
    }

    proof fn lemma_in_bounds(self) {
    }

    proof fn lemma_bounds() {
    }

    proof fn lemma_injective(self, other: Self) {
    }

    proof fn lemma_from_usize_fits(n: usize) {
    }

    proof fn lemma_arith(a: Self, b: Self) {
    }

    fn zero() -> (r: Self) {
        0
    }

    fn one() -> (r: Self) {
        1
    }

    fn saturating_sub(self, rhs: Self) -> (r: Self) {
        self.saturating_sub(rhs)
    }

    fn from_usize(n: usize) -> (r: Self) {
        n as u8
    }

    fn to_usize(self) -> (r: usize) {
        self as usize
    }
}

} // verus!
