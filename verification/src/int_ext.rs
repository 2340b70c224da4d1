use vstd::prelude::*;

verus! {

/// `a / b` rounded up, for non-negative `a` and positive `b`.
pub open spec fn spec_div_ceil(a: int, b: int) -> int {
    if a % b == 0 {
        a / b
    } else {
        a / b + 1
    }
}

proof fn lemma_div_ceil_fits(a: int, b: int)
    requires
        a >= 0,
        b >= 1,
        a % b != 0,
    ensures
        b >= 2,
        a / b + 1 <= a,
{
    assert(a >= 1 && a % 1 == 0) by (nonlinear_arith)
        requires
            a >= 0,
            b >= 1,
            a % b != 0,
    ;
    assert(a / b + 1 <= a) by (nonlinear_arith)
        requires
            a >= 1,
            b >= 2,
    ;
}

/// Ceiling division on the unsigned integer types.
pub trait IntExt: Sized {
    spec fn as_int(self) -> int;

    /// Quotient of `self` by `rhs`, rounded up.
    fn div_ceil_p(self, rhs: Self) -> (r: Self)
        requires
            rhs.as_int() > 0,
        ensures
            r.as_int() == spec_div_ceil(self.as_int(), rhs.as_int()),
    ;
}

impl IntExt for u8 {
    open spec fn as_int(self) -> int {
        self as int
    }

    fn div_ceil_p(self, rhs: Self) -> (r: Self) {
        let quotient = self / rhs;
        let remainder = self % rhs;
        if remainder > 0 {
            proof {
                lemma_div_ceil_fits(self as int, rhs as int);
            }
            quotient + 1
        } else {
            quotient
        }
    }
}

impl IntExt for u16 {
    open spec fn as_int(self) -> int {
        self as int
    }

    fn div_ceil_p(self, rhs: Self) -> (r: Self) {
        let quotient = self / rhs;
        let remainder = self % rhs;
        if remainder > 0 {
            proof {
                lemma_div_ceil_fits(self as int, rhs as int);
            }
            quotient + 1
        } else {
            quotient
        }
    }
}

impl IntExt for u32 {
    open spec fn as_int(self) -> int {
        self as int
    }

    fn div_ceil_p(self, rhs: Self) -> (r: Self) {
        let quotient = self / rhs;
        let remainder = self % rhs;
        if remainder > 0 {
            proof {
                lemma_div_ceil_fits(self as int, rhs as int);
            }
            quotient + 1
        } else {
            quotient
        }
    }
}

impl IntExt for u64 {
    open spec fn as_int(self) -> int {
        self as int
    }

    fn div_ceil_p(self, rhs: Self) -> (r: Self) {
        let quotient = self / rhs;
        let remainder = self % rhs;
        if remainder > 0 {
            proof {
                lemma_div_ceil_fits(self as int, rhs as int);
            }
            quotient + 1
        } else {
            quotient
        }
    }
}

impl IntExt for usize {
    open spec fn as_int(self) -> int {
        self as int
    }

    fn div_ceil_p(self, rhs: Self) -> (r: Self) {
        let quotient = self / rhs;
        let remainder = self % rhs;
        if remainder > 0 {
            proof {
                lemma_div_ceil_fits(self as int, rhs as int);
            }
            quotient + 1
        } else {
            quotient
        }
    }
}

} // verus!
