//! Double-precision numbers held as bit patterns: told apart, compared and
//! ordered, never computed with.
use vstd::prelude::*;

verus! {

/// The sign bit.
pub const SIGN: u64 = 0x8000_0000_0000_0000;

/// The bit pattern of positive infinity.
pub const INFINITE: u64 = 0x7ff0_0000_0000_0000;

/// The bit pattern of negative infinity.
pub const NEG_INFINITE: u64 = 0xfff0_0000_0000_0000;

/// A double, as the bits of its IEEE 754 encoding.
#[derive(Clone, Copy, Debug, PartialEq, Eq, Structural)]
pub struct Num {
    pub bits: u64,
}

impl Num {
    /// The bits without the sign.
    pub open spec fn magnitude(self) -> int {
        if self.bits < SIGN {
            self.bits as int
        } else {
            self.bits - SIGN
        }
    }

    pub open spec fn nan(self) -> bool {
        self.magnitude() > INFINITE
    }

    pub open spec fn infinite(self) -> bool {
        self.magnitude() == INFINITE
    }

    pub open spec fn finite(self) -> bool {
        self.magnitude() < INFINITE
    }

    /// Either zero.
    pub open spec fn zero(self) -> bool {
        self.magnitude() == 0
    }

    /// An integer that orders the numbers as their values are ordered; the
    /// two zeros share one. It says nothing of NaN.
    pub open spec fn place(self) -> int {
        if self.bits < SIGN {
            self.magnitude()
        } else {
            -self.magnitude()
        }
    }

    /// An integer that orders all bit patterns as `f64::total_cmp` does.
    pub open spec fn total(self) -> int {
        if self.bits < SIGN {
            self.magnitude()
        } else {
            -self.magnitude() - 1
        }
    }

    /// `<` of doubles.
    pub open spec fn less(self, other: Num) -> bool {
        !self.nan() && !other.nan() && self.place() < other.place()
    }

    /// `==` of doubles.
    pub open spec fn equal(self, other: Num) -> bool {
        !self.nan() && !other.nan() && self.place() == other.place()
    }

    /// `> 0.0`.
    pub open spec fn positive(self) -> bool {
        !self.nan() && self.place() > 0
    }

    fn magnitude_of(self) -> (r: u64)
        ensures
            r == self.magnitude(),
    {
        if self.bits < SIGN {
            self.bits
        } else {
            self.bits - SIGN
        }
    }

    pub fn is_nan(self) -> (r: bool)
        ensures
            r == self.nan(),
    {
        self.magnitude_of() > INFINITE
    }

    pub fn is_infinite(self) -> (r: bool)
        ensures
            r == self.infinite(),
    {
        self.magnitude_of() == INFINITE
    }

    pub fn is_finite(self) -> (r: bool)
        ensures
            r == self.finite(),
    {
        self.magnitude_of() < INFINITE
    }

    pub fn is_zero(self) -> (r: bool)
        ensures
            r == self.zero(),
    {
        self.magnitude_of() == 0
    }

    pub fn is_positive(self) -> (r: bool)
        ensures
            r == self.positive(),
    {
        self.bits < SIGN && self.bits != 0 && !self.is_nan()
    }

    fn place_of(self) -> (r: i64)
        ensures
            r == self.place(),
    {
        let m: i64 = self.magnitude_of() as i64;
        if self.bits < SIGN {
            m
        } else {
            -m
        }
    }

    /// The key that orders as `f64::total_cmp` does.
    pub fn total_key(self) -> (r: i64)
        ensures
            r == self.total(),
    {
        let m: i64 = self.magnitude_of() as i64;
        if self.bits < SIGN {
            m
        } else {
            -m - 1
        }
    }

    pub fn is_less(self, other: Num) -> (r: bool)
        ensures
            r == self.less(other),
    {
        !self.is_nan() && !other.is_nan() && self.place_of() < other.place_of()
    }

    pub fn is_equal(self, other: Num) -> (r: bool)
        ensures
            r == self.equal(other),
    {
        !self.is_nan() && !other.is_nan() && self.place_of() == other.place_of()
    }
}

/// The number 0.
#[verifier::allow_in_spec]
pub fn zero() -> Num
    returns
        (Num { bits: 0 }),
{
    Num { bits: 0 }
}

/// The number 1.
#[verifier::allow_in_spec]
pub fn one() -> Num
    returns
        (Num { bits: 0x3ff0_0000_0000_0000 }),
{
    Num { bits: 0x3ff0_0000_0000_0000 }
}

/// The number 100.
#[verifier::allow_in_spec]
pub fn hundred() -> Num
    returns
        (Num { bits: 0x4059_0000_0000_0000 }),
{
    Num { bits: 0x4059_0000_0000_0000 }
}

/// `f64::min`, keeping the first of two equal numbers.
pub open spec fn lower(a: Num, b: Num) -> Num {
    if a.nan() || b.less(a) {
        b
    } else {
        a
    }
}

/// `f64::max`, keeping the first of two equal numbers.
pub open spec fn upper(a: Num, b: Num) -> Num {
    if a.nan() || a.less(b) {
        b
    } else {
        a
    }
}

pub fn lower_of(a: Num, b: Num) -> (r: Num)
    ensures
        r == lower(a, b),
{
    if a.is_nan() || b.is_less(a) {
        b
    } else {
        a
    }
}

pub fn upper_of(a: Num, b: Num) -> (r: Num)
    ensures
        r == upper(a, b),
{
    if a.is_nan() || a.is_less(b) {
        b
    } else {
        a
    }
}

/// `==` of two optional doubles.
pub open spec fn same_num(a: Option<Num>, b: Option<Num>) -> bool {
    match (a, b) {
        (Some(x), Some(y)) => x.equal(y),
        (None, None) => true,
        _ => false,
    }
}

pub fn is_same_num(a: Option<Num>, b: Option<Num>) -> (r: bool)
    ensures
        r == same_num(a, b),
{
    match (a, b) {
        (Some(x), Some(y)) => x.is_equal(y),
        (None, None) => true,
        _ => false,
    }
}

/// Present and not zero.
pub open spec fn nonzero(v: Option<Num>) -> bool {
    v is Some && !v->0.zero()
}

pub fn is_nonzero(v: Option<Num>) -> (r: bool)
    ensures
        r == nonzero(v),
{
    match v {
        Some(n) => !n.is_zero(),
        None => false,
    }
}

/// The total order agrees with the order of the values.
pub proof fn lemma_total_order_keeps_value_order(a: Num, b: Num)
    ensures
        a.less(b) ==> a.total() < b.total(),
        a.total() == b.total() ==> a == b,
{
}

} // verus!
