//! Decimal numbers: a 96-bit magnitude, a sign and a power-of-ten scale.
//!
//! The arithmetic is that of the `rust_decimal` crate. This type holds the parts
//! of such a number as plain values, so that contracts can speak of them.
use crate::text::{digits, int_text, padded_digits};
use vstd::prelude::*;

verus! {

/// How a value is brought to fewer decimal places: `HalfUp` rounds half away
/// from zero, `HalfEven` half to the even neighbour, `Floor` toward negative
/// infinity and `Ceil` toward positive infinity.
#[derive(Clone, Copy, Debug, PartialEq, Eq, Structural)]
pub enum RoundingMode {
    HalfUp,
    HalfEven,
    Floor,
    Ceil,
}

/// Ten to the power `n`.
pub open spec fn pow10(n: nat) -> nat
    decreases n,
{
    if n == 0 {
        1
    } else {
        10 * pow10((n - 1) as nat)
    }
}

pub proof fn pow10_positive(n: nat)
    ensures
        pow10(n) > 0,
    decreases n,
{
    if n > 0 {
        pow10_positive((n - 1) as nat);
    }
}

proof fn pow10_product(a: nat, b: nat)
    ensures
        pow10(a + b) == pow10(a) * pow10(b),
    decreases a,
{
    if a > 0 {
        pow10_product((a - 1) as nat, b);
        let (x, y) = (pow10((a - 1) as nat), pow10(b));
        assert((10 * x) * y == 10 * (x * y)) by (nonlinear_arith);
        assert(a + b - 1 == (a - 1) as nat + b);
    } else {
        assert(1 * pow10(b) == pow10(b));
    }
}

/// A decimal number. Two numbers of the same value may differ in their scale:
/// `1.5` and `1.50` are different values of this type.
#[derive(Clone, Copy, Debug)]
pub struct Decimal {
    negative: bool,
    lo: u32,
    mid: u32,
    hi: u32,
    scale: u32,
}

impl Decimal {
    /// A number has at most 28 decimal places.
    #[verifier::type_invariant]
    spec fn well_formed(self) -> bool {
        self.scale <= 28
    }

    /// Whether the sign is negative. Zero may carry a negative sign.
    pub closed spec fn negative(self) -> bool {
        self.negative
    }

    /// Number of decimal places.
    pub closed spec fn places(self) -> nat {
        self.scale as nat
    }

    /// The digits of the number as one integer, without sign and point.
    pub closed spec fn magnitude(self) -> nat {
        (self.hi as nat) * 0x1_0000_0000_0000_0000 + (self.mid as nat) * 0x1_0000_0000 + (
        self.lo as nat)
    }

    /// The number with the given parts.
    pub closed spec fn of_parts(negative: bool, magnitude: nat, places: nat) -> Decimal {
        Decimal {
            negative,
            lo: (magnitude % 0x1_0000_0000) as u32,
            mid: ((magnitude / 0x1_0000_0000) % 0x1_0000_0000) as u32,
            hi: (magnitude / 0x1_0000_0000_0000_0000) as u32,
            scale: places as u32,
        }
    }

    /// The integer `i`, without decimal places.
    pub open spec fn of_int(i: int) -> Decimal {
        Decimal::of_parts(i < 0, if i < 0 { (-i) as nat } else { i as nat }, 0)
    }

    /// Zero, without decimal places.
    pub open spec fn zero_value() -> Decimal {
        Decimal::of_int(0)
    }

    /// The digits of the number with its sign.
    pub open spec fn mantissa(self) -> int {
        if self.negative() {
            -(self.magnitude() as int)
        } else {
            self.magnitude() as int
        }
    }

    /// Whether the value of `self` is below the value of `other`.
    pub open spec fn below(self, other: Decimal) -> bool {
        self.mantissa() * pow10(other.places()) < other.mantissa() * pow10(self.places())
    }

    /// Whether the two numbers have the same value.
    pub open spec fn equals(self, other: Decimal) -> bool {
        self.mantissa() * pow10(other.places()) == other.mantissa() * pow10(self.places())
    }

    /// Whether the number is `mantissa` over ten to the power `places`.
    pub open spec fn has_value(self, mantissa: int, places: nat) -> bool {
        self.mantissa() * pow10(places) == mantissa * pow10(self.places())
    }

    /// The digits of the number with its sign, brought to `places` decimal places.
    pub open spec fn aligned(self, places: nat) -> int {
        self.mantissa() * pow10((places - self.places()) as nat)
    }

    /// The decimal places of the finer of two numbers.
    pub open spec fn finer_places(self, other: Decimal) -> nat {
        if self.places() < other.places() {
            other.places()
        } else {
            self.places()
        }
    }

    /// Whether a total of two numbers is kept exactly: both have 64-bit digits, their decimal
    /// places differ by no more than 19, and the digits of the total fit 96 bits.
    pub open spec fn keeps_total(self, other: Decimal, total: int) -> bool {
        &&& self.magnitude() < 0x1_0000_0000_0000_0000
        &&& other.magnitude() < 0x1_0000_0000_0000_0000
        &&& self.places() <= other.places() + 19
        &&& other.places() <= self.places() + 19
        &&& -0x1_0000_0000_0000_0000_0000_0000 < total < 0x1_0000_0000_0000_0000_0000_0000
    }

    /// The sum at the decimal places of the finer number.
    pub open spec fn total(self, other: Decimal) -> int {
        self.aligned(self.finer_places(other)) + other.aligned(self.finer_places(other))
    }

    /// The difference at the decimal places of the finer number.
    pub open spec fn gap(self, other: Decimal) -> int {
        self.aligned(self.finer_places(other)) - other.aligned(self.finer_places(other))
    }

    /// Whether a product is kept exactly: its digits fit 96 bits, and its decimal places are at
    /// most 28.
    pub open spec fn keeps_product(self, other: Decimal) -> bool {
        &&& self.magnitude() * other.magnitude() < 0x1_0000_0000_0000_0000_0000_0000
        &&& self.places() + other.places() <= 28
    }

    /// The whole part, toward zero.
    pub open spec fn whole(self) -> nat {
        self.magnitude() / pow10(self.places())
    }

    /// The digits behind the point.
    pub open spec fn fraction(self) -> nat {
        self.magnitude() % pow10(self.places())
    }

    /// The value as an `i64`, when it has no fraction and fits.
    pub open spec fn index_value(self) -> Option<i64> {
        let whole = if self.negative() {
            -(self.whole() as int)
        } else {
            self.whole() as int
        };
        if self.fraction() == 0 && i64::MIN <= whole <= i64::MAX {
            Some(whole as i64)
        } else {
            None
        }
    }

    /// The whole part toward zero as an `i64`, when it fits.
    pub open spec fn truncated(self) -> Option<i64> {
        let whole = if self.negative() {
            -(self.whole() as int)
        } else {
            self.whole() as int
        };
        if i64::MIN <= whole <= i64::MAX {
            Some(whole as i64)
        } else {
            None
        }
    }

    /// The largest integer at or below the number.
    pub open spec fn floor_value(self) -> Decimal {
        if self.places() == 0 {
            self
        } else {
            Decimal::of_parts(
                self.negative(),
                self.whole() + if self.negative() && self.fraction() > 0 {
                    1nat
                } else {
                    0nat
                },
                0,
            )
        }
    }

    /// The smallest integer at or above the number.
    pub open spec fn ceil_value(self) -> Decimal {
        if self.places() == 0 {
            self
        } else {
            Decimal::of_parts(
                self.negative(),
                self.whole() + if !self.negative() && self.fraction() > 0 {
                    1nat
                } else {
                    0nat
                },
                0,
            )
        }
    }

    /// The number brought to `places` decimal places under `mode`. A number that
    /// has no more than `places` decimal places stays as it is.
    pub open spec fn rounded(self, places: nat, mode: RoundingMode) -> Decimal {
        if self.places() <= places {
            self
        } else {
            let unit = pow10((self.places() - places) as nat);
            let kept = self.magnitude() / unit;
            let cut = self.magnitude() % unit;
            let up = match mode {
                RoundingMode::HalfUp => 2 * cut >= unit,
                RoundingMode::HalfEven => 2 * cut > unit || (2 * cut == unit && kept % 2 == 1),
                RoundingMode::Floor => self.negative() && cut > 0,
                RoundingMode::Ceil => !self.negative() && cut > 0,
            };
            let result = if up {
                kept + 1
            } else {
                kept
            };
            Decimal::of_parts(
                self.negative() && (result != 0 || self.magnitude() == 0),
                result,
                places,
            )
        }
    }

    /// The text of the number: sign, whole digits, point and decimal places.
    pub open spec fn text(self) -> Seq<char> {
        let unsigned = if self.places() == 0 {
            digits(self.magnitude())
        } else {
            digits(self.whole()).push('.') + padded_digits(self.fraction(), self.places())
        };
        if self.negative() {
            seq!['-'] + unsigned
        } else {
            unsigned
        }
    }

    /// A number has the parts it is made of.
    pub proof fn parts_of(negative: bool, magnitude: nat, places: nat)
        requires
            magnitude < 0x1_0000_0000_0000_0000_0000_0000,
            places <= 28,
        ensures
            Decimal::of_parts(negative, magnitude, places).negative() == negative,
            Decimal::of_parts(negative, magnitude, places).magnitude() == magnitude,
            Decimal::of_parts(negative, magnitude, places).places() == places,
    {
    }

    /// The text of an integer as a number is its decimal text.
    pub proof fn int_as_text(i: int)
        requires
            -0x1_0000_0000_0000_0000 < i < 0x1_0000_0000_0000_0000,
        ensures
            Decimal::of_int(i).text() == int_text(i),
    {
        Decimal::parts_of(i < 0, if i < 0 { (-i) as nat } else { i as nat }, 0);
    }

    /// Reading an integer back from its number gives the integer.
    pub proof fn int_as_index(i: i64)
        ensures
            Decimal::of_int(i as int).index_value() == Some(i),
            Decimal::of_int(i as int).truncated() == Some(i),
    {
        Decimal::parts_of(i < 0, if i < 0 { (-i) as nat } else { i as nat }, 0);
        assert(pow10(0) == 1);
    }

    /// A number without decimal places stays as it is when rounded.
    pub proof fn int_rounded(i: i64, places: nat, mode: RoundingMode)
        ensures
            Decimal::of_int(i as int).rounded(places, mode) == Decimal::of_int(i as int),
    {
        Decimal::parts_of(i < 0, if i < 0 { (-i) as nat } else { i as nat }, 0);
    }

    /// A number at the target scale is a fixed point of rounding, and what rounding gives is one.
    pub proof fn rounding_settles(d: Decimal, places: nat, mode: RoundingMode)
        requires
            d.places() <= 28,
        ensures
            d.places() <= places ==> d.rounded(places, mode) == d,
            d.rounded(places, mode).rounded(places, mode) == d.rounded(places, mode),
    {
    }

    /// Rounding down and up enclose a number, and rounding to the nearer neighbour gives one of
    /// the two: the number itself where it has no more decimal places than are asked for.
    pub proof fn rounding_encloses(d: Decimal, places: nat, mode: RoundingMode)
        requires
            d.places() <= 28,
        ensures
            ({
                let low = d.rounded(places, RoundingMode::Floor);
                let high = d.rounded(places, RoundingMode::Ceil);
                &&& !d.below(low)
                &&& !high.below(d)
                &&& d.rounded(places, mode) == low || d.rounded(places, mode) == high
                &&& d.places() <= places ==> low == d && high == d
            }),
    {
        if d.places() > places {
            let unit = pow10((d.places() - places) as nat);
            let kept = d.magnitude() / unit;
            let cut = d.magnitude() % unit;
            let (p, q) = (pow10(places), pow10(d.places()));
            pow10_positive((d.places() - places) as nat);
            pow10_positive(places);
            pow10_product(places, (d.places() - places) as nat);
            assert(unit == 10 * pow10((d.places() - places - 1) as nat));
            pow10_positive((d.places() - places - 1) as nat);
            assert(d.magnitude() == kept * unit + cut && cut < unit) by (nonlinear_arith)
                requires
                    unit > 0,
                    kept == d.magnitude() / unit,
                    cut == d.magnitude() % unit,
            ;
            assert(kept + 1 < 0x1_0000_0000_0000_0000_0000_0000) by (nonlinear_arith)
                requires
                    unit >= 10,
                    d.magnitude() == kept * unit + cut,
                    d.magnitude() < 0x1_0000_0000_0000_0000_0000_0000,
                    cut >= 0,
                    kept >= 0,
            ;
            let m = d.magnitude();
            assert(kept * q <= m * p <= (kept + 1) * q) by (nonlinear_arith)
                requires
                    q == p * unit,
                    m == kept * unit + cut,
                    0 <= cut < unit,
                    p > 0,
            ;
            assert(cut == 0 ==> kept * q == m * p) by (nonlinear_arith)
                requires
                    q == p * unit,
                    m == kept * unit + cut,
            ;
            assert((-(m as int)) * (p as int) == -((m * p) as int)) by (nonlinear_arith);
            assert((-(kept as int)) * (q as int) == -((kept * q) as int)) by (nonlinear_arith);
            assert((-((kept + 1) as int)) * (q as int) == -(((kept + 1) * q) as int))
                by (nonlinear_arith);
            let sign = d.negative();
            Decimal::parts_of(sign && (kept != 0 || m == 0), kept, places);
            Decimal::parts_of(sign, kept + 1, places);
            assert(0 * q == 0);
        }
        if d.places() <= places {
            assert(!d.below(d));
        }
    }

    /// A number with more decimal places than are asked for is rounded to these: down to the next
    /// multiple of their unit that is at most the number, up to the next that is at least it, or to
    /// the nearer one; halfway between two to the one farther from zero, or to the even one.
    pub proof fn rounding_is_to_a_neighbour(d: Decimal, places: nat, mode: RoundingMode)
        requires
            places < d.places() <= 28,
        ensures
            ({
                let r = d.rounded(places, mode);
                let unit = pow10((d.places() - places) as nat) as int;
                let off = r.mantissa() * unit - d.mantissa();
                &&& r.places() == places
                &&& match mode {
                    RoundingMode::Floor => -unit < off <= 0,
                    RoundingMode::Ceil => 0 <= off < unit,
                    RoundingMode::HalfUp => {
                        &&& -unit <= 2 * off <= unit
                        &&& 2 * off == unit ==> d.mantissa() > 0
                        &&& 2 * off == -unit ==> d.mantissa() < 0
                    },
                    RoundingMode::HalfEven => {
                        &&& -unit <= 2 * off <= unit
                        &&& 2 * off == unit || 2 * off == -unit ==> r.magnitude() % 2 == 0
                    },
                }
            }),
    {
        let n = (d.places() - places) as nat;
        let unit = pow10(n) as int;
        let m = d.magnitude() as int;
        let (kept, cut) = (m / unit, m % unit);
        pow10_positive(n);
        pow10_positive((n - 1) as nat);
        assert(unit >= 10);
        assert(m == kept * unit + cut && 0 <= cut < unit && 0 <= kept) by (nonlinear_arith)
            requires
                unit > 0,
                m >= 0,
                kept == m / unit,
                cut == m % unit,
        ;
        assert(kept + 1 < 0x1_0000_0000_0000_0000_0000_0000) by (nonlinear_arith)
            requires
                unit >= 10,
                m >= kept * unit,
                kept >= 0,
                m < 0x1_0000_0000_0000_0000_0000_0000,
        ;
        assert((kept + 1) * unit == kept * unit + unit) by (nonlinear_arith);
        assert((-kept) * unit == -(kept * unit)) by (nonlinear_arith);
        assert((-(kept + 1)) * unit == -(kept * unit) - unit) by (nonlinear_arith);
        assert(0 * unit == 0);
        let neg = d.negative();
        Decimal::parts_of(neg && (kept != 0 || m == 0), kept as nat, places);
        Decimal::parts_of(neg, (kept + 1) as nat, places);
        assert(unit % 2 == 0) by {
            assert(unit == 10 * pow10((n - 1) as nat));
        }
    }

    /// The whole part and the fraction of a number make it up.
    proof fn whole_and_fraction(d: Decimal)
        requires
            d.places() <= 28,
        ensures
            d.magnitude() == d.whole() * pow10(d.places()) + d.fraction(),
            d.fraction() < pow10(d.places()),
            d.whole() <= d.magnitude(),
            d.magnitude() < 0x1_0000_0000_0000_0000_0000_0000,
            d.places() > 0 ==> d.whole() + 1 < 0x1_0000_0000_0000_0000_0000_0000,
    {
        let (m, p) = (d.magnitude(), pow10(d.places()));
        pow10_positive(d.places());
        assert(m == (m / p) * p + m % p && m % p < p && m / p <= m) by (nonlinear_arith)
            requires
                p > 0,
        ;
        if d.places() > 0 {
            pow10_positive((d.places() - 1) as nat);
            let w = d.whole();
            assert(w + 1 < 0x1_0000_0000_0000_0000_0000_0000) by (nonlinear_arith)
                requires
                    p >= 10,
                    m >= w * p,
                    w >= 0,
                    m < 0x1_0000_0000_0000_0000_0000_0000,
            ;
        }
    }

    /// The floor of a number is the greatest whole number that is at most the number.
    pub proof fn floor_is_next_below(d: Decimal)
        requires
            d.places() <= 28,
        ensures
            exists|k: int| #[trigger]
                d.floor_value().has_value(k, 0) && k * pow10(d.places()) <= d.mantissa() < (k + 1)
                    * pow10(d.places()),
    {
        Decimal::whole_and_fraction(d);
        let (w, p, r) = (d.whole() as int, pow10(d.places()) as int, d.fraction() as int);
        let k = if d.negative() {
            if r > 0 {
                -w - 1
            } else {
                -w
            }
        } else {
            w
        };
        assert(k * p <= d.mantissa() < (k + 1) * p) by (nonlinear_arith)
            requires
                0 <= r < p,
                d.mantissa() == if d.negative() {
                    -(w * p + r)
                } else {
                    w * p + r
                },
                k == if d.negative() {
                    if r > 0 {
                        -w - 1
                    } else {
                        -w
                    }
                } else {
                    w
                },
        ;
        assert(pow10(0) == 1);
        if d.places() == 0 {
            assert(w * 1 == w) by (nonlinear_arith);
        } else {
            Decimal::parts_of(
                d.negative(),
                d.whole() + if d.negative() && d.fraction() > 0 {
                    1nat
                } else {
                    0nat
                },
                0,
            );
        }
        assert(d.floor_value().has_value(k, 0));
    }

    /// The ceiling of a number is the least whole number that is at least the number.
    pub proof fn ceil_is_next_above(d: Decimal)
        requires
            d.places() <= 28,
        ensures
            exists|k: int| #[trigger]
                d.ceil_value().has_value(k, 0) && (k - 1) * pow10(d.places()) < d.mantissa() <= k
                    * pow10(d.places()),
    {
        Decimal::whole_and_fraction(d);
        let (w, p, r) = (d.whole() as int, pow10(d.places()) as int, d.fraction() as int);
        let k = if d.negative() {
            -w
        } else if r > 0 {
            w + 1
        } else {
            w
        };
        assert((k - 1) * p < d.mantissa() <= k * p) by (nonlinear_arith)
            requires
                0 <= r < p,
                d.mantissa() == if d.negative() {
                    -(w * p + r)
                } else {
                    w * p + r
                },
                k == if d.negative() {
                    -w
                } else if r > 0 {
                    w + 1
                } else {
                    w
                },
        ;
        assert(pow10(0) == 1);
        if d.places() == 0 {
            assert(w * 1 == w) by (nonlinear_arith);
        } else {
            Decimal::parts_of(
                d.negative(),
                d.whole() + if !d.negative() && d.fraction() > 0 {
                    1nat
                } else {
                    0nat
                },
                0,
            );
        }
        assert(d.ceil_value().has_value(k, 0));
    }

    /// A number of the value of an integer reads back as that integer.
    pub proof fn whole_has_index(d: Decimal, key: i64)
        requires
            d.has_value(key as int, 0),
        ensures
            d.index_value() == Some(key),
            d.truncated() == Some(key),
    {
        let (m, p, k) = (d.magnitude() as int, pow10(d.places()) as int, key as int);
        pow10_positive(d.places());
        assert(pow10(0) == 1);
        assert(d.mantissa() == k * p);
        let size = if k < 0 {
            -k
        } else {
            k
        };
        assert(m == size * p) by (nonlinear_arith)
            requires
                p > 0,
                m >= 0,
                size == if k < 0 {
                    -k
                } else {
                    k
                },
                k * p == m || k * p == -m,
        ;
        assert(m / p == size && m % p == 0) by (nonlinear_arith)
            requires
                p > 0,
                m == size * p,
        ;
        if d.negative() {
            assert(k <= 0) by (nonlinear_arith)
                requires
                    k * p == -m,
                    p > 0,
                    m >= 0,
            ;
        } else {
            assert(k >= 0) by (nonlinear_arith)
                requires
                    k * p == m,
                    p > 0,
                    m >= 0,
            ;
        }
    }

    /// Zero.
    pub fn zero() -> (r: Decimal)
        ensures
            r == Decimal::zero_value(),
    {
        Decimal { negative: false, lo: 0, mid: 0, hi: 0, scale: 0 }
    }

    /// The number `mantissa` over ten to the power `places`, or `None` with more
    /// than 28 decimal places.
    pub fn new(mantissa: i64, places: u32) -> (r: Option<Decimal>)
        ensures
            r == if places <= 28 {
                Some(
                    Decimal::of_parts(
                        mantissa < 0,
                        if mantissa < 0 {
                            (-mantissa) as nat
                        } else {
                            mantissa as nat
                        },
                        places as nat,
                    ),
                )
            } else {
                None
            },
    {
        if places > 28 {
            return None;
        }
        let magnitude: u64 = if mantissa < 0 {
            (-(mantissa as i128)) as u64
        } else {
            mantissa as u64
        };
        Some(
            Decimal {
                negative: mantissa < 0,
                lo: (magnitude % 0x1_0000_0000) as u32,
                mid: (magnitude / 0x1_0000_0000) as u32,
                hi: 0,
                scale: places,
            },
        )
    }

    /// The integer `value`.
    pub fn from_i64(value: i64) -> (r: Decimal)
        ensures
            r == Decimal::of_int(value as int),
    {
        let magnitude: u64 = if value < 0 {
            (-(value as i128)) as u64
        } else {
            value as u64
        };
        Decimal {
            negative: value < 0,
            lo: (magnitude % 0x1_0000_0000) as u32,
            mid: (magnitude / 0x1_0000_0000) as u32,
            hi: 0,
            scale: 0,
        }
    }

    /// Whether the value is zero.
    pub fn is_zero(&self) -> (r: bool)
        ensures
            r == (self.magnitude() == 0),
    {
        self.lo == 0 && self.mid == 0 && self.hi == 0
    }
}

/// The number that a text stands for, where it is exactly representable.
pub uninterp spec fn exact_decimal(text: Seq<char>) -> Option<Decimal>;

/// A nonzero number without trailing zeros of its fraction.
pub open spec fn strip(negative: bool, magnitude: nat, places: nat) -> Decimal
    decreases places,
{
    if places > 0 && magnitude % 10 == 0 {
        strip(negative, magnitude / 10, (places - 1) as nat)
    } else {
        Decimal::of_parts(negative, magnitude, places)
    }
}

/// A sum that fits is exact.
pub open spec fn sums_exactly(a: Decimal, b: Decimal, r: Option<Decimal>) -> bool {
    a.keeps_total(b, a.total(b)) ==> (r matches Some(x) && x.has_value(
        a.total(b),
        a.finer_places(b),
    ))
}

/// A difference that fits is exact.
pub open spec fn subtracts_exactly(a: Decimal, b: Decimal, r: Option<Decimal>) -> bool {
    a.keeps_total(b, a.gap(b)) ==> (r matches Some(x) && x.has_value(a.gap(b), a.finer_places(b)))
}

/// A product that fits is exact.
pub open spec fn multiplies_exactly(a: Decimal, b: Decimal, r: Option<Decimal>) -> bool {
    a.keeps_product(b) ==> (r matches Some(x) && x.has_value(
        a.mantissa() * b.mantissa(),
        a.places() + b.places(),
    ))
}

/// The sum that `rust_decimal`'s `checked_add` gives, or `None` where it overflows.
pub uninterp spec fn decimal_sum(a: Decimal, b: Decimal) -> Option<Decimal>;

/// The difference that `rust_decimal`'s `checked_sub` gives, or `None` where it overflows.
pub uninterp spec fn decimal_difference(a: Decimal, b: Decimal) -> Option<Decimal>;

/// The product that `rust_decimal`'s `checked_mul` gives, or `None` where it overflows.
pub uninterp spec fn decimal_product(a: Decimal, b: Decimal) -> Option<Decimal>;

/// The quotient that `rust_decimal`'s `checked_div` gives, or `None` where it overflows
/// or the divisor is zero.
pub uninterp spec fn decimal_quotient(a: Decimal, b: Decimal) -> Option<Decimal>;

impl Decimal {
    /// `rust_decimal::Decimal::checked_add`: the sum, a function of the two numbers. Small
    /// numbers are aligned and added exactly; a total that does not fit is rounded, which is
    /// left to the name.
    #[verifier::external_body]
    pub(crate) fn checked_add(&self, other: &Decimal) -> (r: Option<Decimal>)
        ensures
            r == decimal_sum(*self, *other),
            sums_exactly(*self, *other, r),
    {
        let (a, b) = (self, other);
        let mut x = rust_decimal::Decimal::from_parts(a.lo, a.mid, a.hi, a.negative, a.scale);
        x.set_sign_negative(a.negative);
        let mut y = rust_decimal::Decimal::from_parts(b.lo, b.mid, b.hi, b.negative, b.scale);
        y.set_sign_negative(b.negative);
        let u = x.checked_add(y)?.unpack();
        Some(Decimal { negative: u.negative, lo: u.lo, mid: u.mid, hi: u.hi, scale: u.scale })
    }

    /// `rust_decimal::Decimal::checked_sub`: the difference, a function of the two numbers.
    /// Small numbers are aligned and subtracted exactly; a difference that does not fit is
    /// rounded, which is left to the name.
    #[verifier::external_body]
    pub(crate) fn checked_sub(&self, other: &Decimal) -> (r: Option<Decimal>)
        ensures
            r == decimal_difference(*self, *other),
            subtracts_exactly(*self, *other, r),
    {
        let (a, b) = (self, other);
        let mut x = rust_decimal::Decimal::from_parts(a.lo, a.mid, a.hi, a.negative, a.scale);
        x.set_sign_negative(a.negative);
        let mut y = rust_decimal::Decimal::from_parts(b.lo, b.mid, b.hi, b.negative, b.scale);
        y.set_sign_negative(b.negative);
        let u = x.checked_sub(y)?.unpack();
        Some(Decimal { negative: u.negative, lo: u.lo, mid: u.mid, hi: u.hi, scale: u.scale })
    }

    /// `rust_decimal::Decimal::checked_mul`: the product, a function of the two numbers. It is
    /// exact where its digits fit; otherwise it is rounded, which is left to the name.
    #[verifier::external_body]
    pub(crate) fn checked_mul(&self, other: &Decimal) -> (r: Option<Decimal>)
        ensures
            r == decimal_product(*self, *other),
            multiplies_exactly(*self, *other, r),
    {
        let (a, b) = (self, other);
        let mut x = rust_decimal::Decimal::from_parts(a.lo, a.mid, a.hi, a.negative, a.scale);
        x.set_sign_negative(a.negative);
        let mut y = rust_decimal::Decimal::from_parts(b.lo, b.mid, b.hi, b.negative, b.scale);
        y.set_sign_negative(b.negative);
        let u = x.checked_mul(y)?.unpack();
        Some(Decimal { negative: u.negative, lo: u.lo, mid: u.mid, hi: u.hi, scale: u.scale })
    }

    /// `rust_decimal::Decimal::checked_div`: the quotient, a function of the two numbers.
    #[verifier::external_body]
    pub(crate) fn checked_div(&self, other: &Decimal) -> (r: Option<Decimal>)
        ensures
            r == decimal_quotient(*self, *other),
    {
        let (a, b) = (self, other);
        let mut x = rust_decimal::Decimal::from_parts(a.lo, a.mid, a.hi, a.negative, a.scale);
        x.set_sign_negative(a.negative);
        let mut y = rust_decimal::Decimal::from_parts(b.lo, b.mid, b.hi, b.negative, b.scale);
        y.set_sign_negative(b.negative);
        let u = x.checked_div(y)?.unpack();
        Some(Decimal { negative: u.negative, lo: u.lo, mid: u.mid, hi: u.hi, scale: u.scale })
    }

    /// `rust_decimal::Decimal`'s `<` compares the two values.
    #[verifier::external_body]
    pub(crate) fn is_below(&self, other: &Decimal) -> (r: bool)
        ensures
            r == self.below(*other),
    {
        let (a, b) = (self, other);
        let mut x = rust_decimal::Decimal::from_parts(a.lo, a.mid, a.hi, a.negative, a.scale);
        x.set_sign_negative(a.negative);
        let mut y = rust_decimal::Decimal::from_parts(b.lo, b.mid, b.hi, b.negative, b.scale);
        y.set_sign_negative(b.negative);
        x < y
    }

    /// `rust_decimal::Decimal`'s `==` compares the two values.
    #[verifier::external_body]
    pub(crate) fn same_value(&self, other: &Decimal) -> (r: bool)
        ensures
            r == self.equals(*other),
    {
        let (a, b) = (self, other);
        let mut x = rust_decimal::Decimal::from_parts(a.lo, a.mid, a.hi, a.negative, a.scale);
        x.set_sign_negative(a.negative);
        let mut y = rust_decimal::Decimal::from_parts(b.lo, b.mid, b.hi, b.negative, b.scale);
        y.set_sign_negative(b.negative);
        x == y
    }

    /// `rust_decimal::Decimal::floor`: the largest integer at or below the number.
    #[verifier::external_body]
    pub(crate) fn floor(&self) -> (r: Decimal)
        ensures
            r == self.floor_value(),
    {
        let a = self;
        let mut x = rust_decimal::Decimal::from_parts(a.lo, a.mid, a.hi, a.negative, a.scale);
        x.set_sign_negative(a.negative);
        let u = x.floor().unpack();
        Decimal { negative: u.negative, lo: u.lo, mid: u.mid, hi: u.hi, scale: u.scale }
    }

    /// `rust_decimal::Decimal::ceil`: the smallest integer at or above the number.
    #[verifier::external_body]
    pub(crate) fn ceil(&self) -> (r: Decimal)
        ensures
            r == self.ceil_value(),
    {
        let a = self;
        let mut x = rust_decimal::Decimal::from_parts(a.lo, a.mid, a.hi, a.negative, a.scale);
        x.set_sign_negative(a.negative);
        let u = x.ceil().unpack();
        Decimal { negative: u.negative, lo: u.lo, mid: u.mid, hi: u.hi, scale: u.scale }
    }

    /// `rust_decimal::Decimal::round_dp_with_strategy` with the strategy
    /// `MidpointAwayFromZero`: half away from zero.
    #[verifier::external_body]
    fn round_half_up(&self, places: u32) -> (r: Decimal)
        ensures
            r == self.rounded(places as nat, RoundingMode::HalfUp),
    {
        let a = self;
        let mut x = rust_decimal::Decimal::from_parts(a.lo, a.mid, a.hi, a.negative, a.scale);
        x.set_sign_negative(a.negative);
        let strategy = rust_decimal::RoundingStrategy::MidpointAwayFromZero;
        let u = x.round_dp_with_strategy(places, strategy).unpack();
        Decimal { negative: u.negative, lo: u.lo, mid: u.mid, hi: u.hi, scale: u.scale }
    }

    /// `rust_decimal::Decimal::round_dp_with_strategy` with the strategy
    /// `MidpointNearestEven`: half to the even neighbour.
    #[verifier::external_body]
    fn round_half_even(&self, places: u32) -> (r: Decimal)
        ensures
            r == self.rounded(places as nat, RoundingMode::HalfEven),
    {
        let a = self;
        let mut x = rust_decimal::Decimal::from_parts(a.lo, a.mid, a.hi, a.negative, a.scale);
        x.set_sign_negative(a.negative);
        let strategy = rust_decimal::RoundingStrategy::MidpointNearestEven;
        let u = x.round_dp_with_strategy(places, strategy).unpack();
        Decimal { negative: u.negative, lo: u.lo, mid: u.mid, hi: u.hi, scale: u.scale }
    }

    /// `rust_decimal::Decimal::round_dp_with_strategy` with the strategy
    /// `ToNegativeInfinity`.
    #[verifier::external_body]
    fn round_down(&self, places: u32) -> (r: Decimal)
        ensures
            r == self.rounded(places as nat, RoundingMode::Floor),
    {
        let a = self;
        let mut x = rust_decimal::Decimal::from_parts(a.lo, a.mid, a.hi, a.negative, a.scale);
        x.set_sign_negative(a.negative);
        let strategy = rust_decimal::RoundingStrategy::ToNegativeInfinity;
        let u = x.round_dp_with_strategy(places, strategy).unpack();
        Decimal { negative: u.negative, lo: u.lo, mid: u.mid, hi: u.hi, scale: u.scale }
    }

    /// `rust_decimal::Decimal::round_dp_with_strategy` with the strategy
    /// `ToPositiveInfinity`.
    #[verifier::external_body]
    fn round_up(&self, places: u32) -> (r: Decimal)
        ensures
            r == self.rounded(places as nat, RoundingMode::Ceil),
    {
        let a = self;
        let mut x = rust_decimal::Decimal::from_parts(a.lo, a.mid, a.hi, a.negative, a.scale);
        x.set_sign_negative(a.negative);
        let strategy = rust_decimal::RoundingStrategy::ToPositiveInfinity;
        let u = x.round_dp_with_strategy(places, strategy).unpack();
        Decimal { negative: u.negative, lo: u.lo, mid: u.mid, hi: u.hi, scale: u.scale }
    }

    /// `rust_decimal::Decimal::fract` is zero where there is no fraction.
    #[verifier::external_body]
    fn is_integral(&self) -> (r: bool)
        ensures
            r == (self.fraction() == 0),
    {
        let a = self;
        let x = rust_decimal::Decimal::from_parts(a.lo, a.mid, a.hi, a.negative, a.scale);
        x.fract().is_zero()
    }

    /// `rust_decimal`'s `to_i64` cuts the fraction and fails outside the range of `i64`.
    #[verifier::external_body]
    pub(crate) fn to_i64(&self) -> (r: Option<i64>)
        ensures
            r == self.truncated(),
    {
        let a = self;
        let x = rust_decimal::Decimal::from_parts(a.lo, a.mid, a.hi, a.negative, a.scale);
        rust_decimal::prelude::ToPrimitive::to_i64(&x)
    }

    /// The number without trailing zeros behind the point.
    pub open spec fn stripped(self) -> Decimal {
        if self.magnitude() == 0 {
            Decimal::zero_value()
        } else {
            strip(self.negative(), self.magnitude(), self.places())
        }
    }

    /// `rust_decimal`'s `normalize` strips trailing zeros of the fraction and the sign of zero.
    #[verifier::external_body]
    fn without_zeros(&self) -> (r: Decimal)
        ensures
            r == self.stripped(),
    {
        let a = self;
        let x = rust_decimal::Decimal::from_parts(a.lo, a.mid, a.hi, a.negative, a.scale);
        let y = x.normalize();
        let u = y.unpack();
        Decimal { negative: u.negative, lo: u.lo, mid: u.mid, hi: u.hi, scale: u.scale }
    }

    /// `rust_decimal`'s `from_str_exact` reads a number without rounding it.
    #[verifier::external_body]
    fn read_exact(text: &str) -> (r: Option<Decimal>)
        ensures
            r == exact_decimal(text@),
    {
        match rust_decimal::Decimal::from_str_exact(text) {
            Ok(x) => {
                let u = x.unpack();
                Some(Decimal { negative: u.negative, lo: u.lo, mid: u.mid, hi: u.hi, scale: u.scale })
            },
            Err(_) => None,
        }
    }

    /// The number without trailing zeros of its fraction.
    pub fn normalize(&self) -> (r: Decimal)
        ensures
            r == self.stripped(),
    {
        self.without_zeros()
    }

    /// The number that a text stands for, where it is exactly representable.
    pub fn from_text(text: &str) -> (r: Option<Decimal>)
        ensures
            r == exact_decimal(text@),
    {
        Decimal::read_exact(text)
    }

    /// `rust_decimal::Decimal`'s `Display` writes sign, whole digits, point and decimal places.
    #[verifier::external_body]
    fn display(&self) -> (r: String)
        ensures
            r@ == self.text(),
    {
        let a = self;
        let mut x = rust_decimal::Decimal::from_parts(a.lo, a.mid, a.hi, a.negative, a.scale);
        x.set_sign_negative(a.negative);
        x.to_string()
    }

    /// The text of the number.
    pub fn to_text(&self) -> (r: String)
        ensures
            r@ == self.text(),
    {
        self.display()
    }

    /// The number brought to `places` decimal places under `mode`.
    pub fn round(&self, places: u8, mode: RoundingMode) -> (r: Decimal)
        ensures
            r == self.rounded(places as nat, mode),
    {
        match mode {
            RoundingMode::HalfUp => self.round_half_up(places as u32),
            RoundingMode::HalfEven => self.round_half_even(places as u32),
            RoundingMode::Floor => self.round_down(places as u32),
            RoundingMode::Ceil => self.round_up(places as u32),
        }
    }

    /// The value as an `i64`, when it has no fraction and fits.
    pub fn to_index(&self) -> (r: Option<i64>)
        ensures
            r == self.index_value(),
    {
        if self.is_integral() {
            self.to_i64()
        } else {
            None
        }
    }
}

} // verus!
