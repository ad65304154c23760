//! Exact fixed-point decimal numbers for coordinates and radii.
//!
//! A [`Decimal`] is a plain pair of an `i128` mantissa and a power-of-ten
//! scale: it denotes the rational number `mantissa / 10^scale`. All
//! arithmetic the pipeline needs (alignment, addition, subtraction,
//! multiplication, division by a pin count) is exact where the result is
//! representable, and reports failure instead of rounding silently wherever
//! it is not — except division, which extends the scale digit by digit and
//! stops once the scale cap or the mantissa width is reached.

use vstd::prelude::*;

verus! {

/// Largest scale (number of decimal fraction digits) a [`Decimal`] may carry.
pub const MAX_SCALE: u32 = 28;

/// An exact decimal number: the value `mantissa / 10^scale`.
#[derive(Clone, Copy, Debug, PartialEq, Eq, Structural)]
pub struct Decimal {
    /// Signed digits of the number.
    pub mantissa: i128,
    /// Number of fraction digits: the denominator is `10^scale`.
    pub scale: u32,
}

/// `10^n` as a mathematical integer.
pub open spec fn pow10(n: nat) -> int
    decreases n,
{
    if n == 0 {
        1
    } else {
        10 * pow10((n - 1) as nat)
    }
}

pub proof fn lemma_pow10_pos(n: nat)
    ensures
        pow10(n) >= 1,
    decreases n,
{
    if n > 0 {
        lemma_pow10_pos((n - 1) as nat);
    }
}

pub proof fn lemma_pow10_mono(m: nat, n: nat)
    requires
        m <= n,
    ensures
        pow10(m) <= pow10(n),
    decreases n - m,
{
    if m < n {
        lemma_pow10_mono(m, (n - 1) as nat);
        lemma_pow10_pos((n - 1) as nat);
    }
}

pub proof fn lemma_pow10_max_scale()
    ensures
        pow10(MAX_SCALE as nat) == 0x204fce5e3e25026110000000,
{
    reveal_with_fuel(pow10, 29);
}

/// `10^n`, for scales up to [`MAX_SCALE`].
pub fn pow10_i128(n: u32) -> (r: i128)
    requires
        n <= MAX_SCALE,
    ensures
        r == pow10(n as nat),
        r >= 1,
{
    proof {
        lemma_pow10_pos(n as nat);
    }
    let mut r: i128 = 1;
    let mut k: u32 = 0;
    while k < n
        invariant
            k <= n <= MAX_SCALE,
            r == pow10(k as nat),
        decreases n - k,
    {
        proof {
            lemma_pow10_pos(k as nat);
            lemma_pow10_mono((k + 1) as nat, MAX_SCALE as nat);
            lemma_pow10_max_scale();
        }
        r = r * 10;
        k = k + 1;
    }
    r
}

/// Two decimals denote the same rational number:
/// `a.mantissa / 10^a.scale == b.mantissa / 10^b.scale`, cross-multiplied.
pub open spec fn same_value(a: Decimal, b: Decimal) -> bool {
    a.mantissa * pow10(b.scale as nat) == b.mantissa * pow10(a.scale as nat)
}

/// The value of a well-formed decimal as an exact integer count of
/// `10^-MAX_SCALE`: two well-formed decimals are equal as rationals exactly
/// when these integers are equal, and sums and differences are linear in
/// them.
pub open spec fn spec_val(d: Decimal) -> int
    recommends
        d.wf(),
{
    d.mantissa * pow10((MAX_SCALE - d.scale) as nat)
}

pub proof fn lemma_pow10_add(m: nat, n: nat)
    ensures
        pow10(m + n) == pow10(m) * pow10(n),
    decreases m,
{
    if m > 0 {
        lemma_pow10_add((m - 1) as nat, n);
        assert(10 * (pow10((m - 1) as nat) * pow10(n)) == (10 * pow10((m - 1) as nat)) * pow10(
            n,
        )) by (nonlinear_arith);
    }
}

/// An addition that succeeds is exact: the result's value is the sum of
/// the values.
pub proof fn lemma_add_val(a: Decimal, b: Decimal, c: Decimal)
    requires
        a.wf(),
        b.wf(),
        spec_add(a, b) == Some(c),
    ensures
        c.wf(),
        spec_val(c) == spec_val(a) + spec_val(b),
{
    let s = if a.scale >= b.scale {
        a.scale
    } else {
        b.scale
    };
    let pa1 = pow10((s - a.scale) as nat);
    let pb1 = pow10((s - b.scale) as nat);
    let p2 = pow10((MAX_SCALE - s) as nat);
    lemma_pow10_add((s - a.scale) as nat, (MAX_SCALE - s) as nat);
    lemma_pow10_add((s - b.scale) as nat, (MAX_SCALE - s) as nat);
    assert((a.mantissa * pa1 + b.mantissa * pb1) * p2 == a.mantissa * (pa1 * p2) + b.mantissa * (
    pb1 * p2)) by (nonlinear_arith);
}

/// A subtraction that succeeds is exact: the result's value is the
/// difference of the values.
pub proof fn lemma_sub_val(a: Decimal, b: Decimal, c: Decimal)
    requires
        a.wf(),
        b.wf(),
        spec_sub(a, b) == Some(c),
    ensures
        c.wf(),
        spec_val(c) == spec_val(a) - spec_val(b),
{
    let s = if a.scale >= b.scale {
        a.scale
    } else {
        b.scale
    };
    let pa1 = pow10((s - a.scale) as nat);
    let pb1 = pow10((s - b.scale) as nat);
    let p2 = pow10((MAX_SCALE - s) as nat);
    lemma_pow10_add((s - a.scale) as nat, (MAX_SCALE - s) as nat);
    lemma_pow10_add((s - b.scale) as nat, (MAX_SCALE - s) as nat);
    assert((a.mantissa * pa1 - b.mantissa * pb1) * p2 == a.mantissa * (pa1 * p2) - b.mantissa * (
    pb1 * p2)) by (nonlinear_arith);
}

pub proof fn lemma_same_value_trans(a: Decimal, b: Decimal, c: Decimal)
    requires
        same_value(a, b),
        same_value(b, c),
    ensures
        same_value(a, c),
{
    let pa = pow10(a.scale as nat);
    let pb = pow10(b.scale as nat);
    let pc = pow10(c.scale as nat);
    lemma_pow10_pos(a.scale as nat);
    lemma_pow10_pos(b.scale as nat);
    lemma_pow10_pos(c.scale as nat);
    let ma = a.mantissa as int;
    let mb = b.mantissa as int;
    let mc = c.mantissa as int;
    assert(ma * pc * pb == mc * pa * pb) by (nonlinear_arith)
        requires
            ma * pb == mb * pa,
            mb * pc == mc * pb,
    ;
    assert(ma * pc == mc * pa) by (nonlinear_arith)
        requires
            ma * pc * pb == mc * pa * pb,
            pb >= 1,
    ;
}

/// Exact sum of two decimals: both mantissas are aligned to the larger
/// scale; `None` exactly when an aligned mantissa or the sum leaves `i128`.
pub open spec fn spec_add(a: Decimal, b: Decimal) -> Option<Decimal> {
    let s = if a.scale >= b.scale {
        a.scale
    } else {
        b.scale
    };
    let ma = a.mantissa * pow10((s - a.scale) as nat);
    let mb = b.mantissa * pow10((s - b.scale) as nat);
    if ma < i128::MIN || ma > i128::MAX {
        None
    } else if mb < i128::MIN || mb > i128::MAX {
        None
    } else if ma + mb < i128::MIN || ma + mb > i128::MAX {
        None
    } else {
        Some(Decimal { mantissa: (ma + mb) as i128, scale: s })
    }
}

/// Exact difference of two decimals, aligned like [`spec_add`]; `None`
/// exactly when an aligned mantissa or the difference leaves `i128`.
pub open spec fn spec_sub(a: Decimal, b: Decimal) -> Option<Decimal> {
    let s = if a.scale >= b.scale {
        a.scale
    } else {
        b.scale
    };
    let ma = a.mantissa * pow10((s - a.scale) as nat);
    let mb = b.mantissa * pow10((s - b.scale) as nat);
    if ma < i128::MIN || ma > i128::MAX {
        None
    } else if mb < i128::MIN || mb > i128::MAX {
        None
    } else if ma - mb < i128::MIN || ma - mb > i128::MAX {
        None
    } else {
        Some(Decimal { mantissa: (ma - mb) as i128, scale: s })
    }
}

/// Exact product of two decimals: mantissas multiply and scales add;
/// `None` exactly when the product mantissa leaves `i128` or the summed
/// scale passes [`MAX_SCALE`].
pub open spec fn spec_mul(a: Decimal, b: Decimal) -> Option<Decimal> {
    if a.scale + b.scale > MAX_SCALE {
        None
    } else {
        let m = a.mantissa * b.mantissa;
        if m < i128::MIN || m > i128::MAX {
            None
        } else {
            Some(Decimal { mantissa: m as i128, scale: (a.scale + b.scale) as u32 })
        }
    }
}

/// Long division of a nonnegative mantissa by `n`, digit by digit: starting
/// from quotient `q`, remainder `r` and scale `s`, each step appends one
/// decimal digit of the quotient and raises the scale, until the remainder
/// is zero, the scale cap is reached, or the next quotient would not fit
/// `i128` (the quotient is then truncated there).
pub open spec fn spec_div_loop(q: int, r: int, n: int, s: int) -> (int, int)
    recommends
        n >= 1,
        0 <= r < n,
        q >= 0,
    decreases MAX_SCALE - s,
{
    if s < 0 || s >= MAX_SCALE || r == 0 || q * 10 + (r * 10) / n > i128::MAX {
        (q, s)
    } else {
        spec_div_loop(q * 10 + (r * 10) / n, (r * 10) % n, n, s + 1)
    }
}

/// Division of a decimal by a positive integer, by long division on the
/// magnitude; `None` only for the one mantissa whose magnitude does not fit
/// `i128`.
pub open spec fn spec_div(a: Decimal, n: u64) -> Option<Decimal> {
    if a.mantissa == i128::MIN {
        None
    } else {
        let neg = a.mantissa < 0;
        let m = if neg {
            -a.mantissa as int
        } else {
            a.mantissa as int
        };
        let (q, s) = spec_div_loop(m / (n as int), m % (n as int), n as int, a.scale as int);
        Some(
            Decimal {
                mantissa: if neg {
                    (-q) as i128
                } else {
                    q as i128
                },
                scale: s as u32,
            },
        )
    }
}

impl Decimal {
    /// A decimal is well formed when its scale is within the cap.
    pub open spec fn wf(self) -> bool {
        self.scale <= MAX_SCALE
    }

    /// Builds the decimal `mantissa / 10^scale`.
    pub fn new(mantissa: i128, scale: u32) -> (r: Decimal)
        requires
            scale <= MAX_SCALE,
        ensures
            r == (Decimal { mantissa, scale }),
            r.wf(),
    {
        Decimal { mantissa, scale }
    }

    /// Exact addition; `None` exactly when the aligned mantissas or their
    /// sum do not fit `i128`.
    pub fn checked_add(&self, other: &Decimal) -> (r: Option<Decimal>)
        requires
            self.wf(),
            other.wf(),
        ensures
            r == spec_add(*self, *other),
            r is Some ==> r.unwrap().wf(),
    {
        let s = if self.scale >= other.scale {
            self.scale
        } else {
            other.scale
        };
        let pa = pow10_i128(s - self.scale);
        let pb = pow10_i128(s - other.scale);
        let ma = match self.mantissa.checked_mul(pa) {
            Some(v) => v,
            None => {
                return None;
            },
        };
        let mb = match other.mantissa.checked_mul(pb) {
            Some(v) => v,
            None => {
                return None;
            },
        };
        match ma.checked_add(mb) {
            Some(m) => Some(Decimal { mantissa: m, scale: s }),
            None => None,
        }
    }

    /// Exact subtraction; `None` exactly when the aligned mantissas or
    /// their difference do not fit `i128`.
    pub fn checked_sub(&self, other: &Decimal) -> (r: Option<Decimal>)
        requires
            self.wf(),
            other.wf(),
        ensures
            r == spec_sub(*self, *other),
            r is Some ==> r.unwrap().wf(),
    {
        let s = if self.scale >= other.scale {
            self.scale
        } else {
            other.scale
        };
        let pa = pow10_i128(s - self.scale);
        let pb = pow10_i128(s - other.scale);
        let ma = match self.mantissa.checked_mul(pa) {
            Some(v) => v,
            None => {
                return None;
            },
        };
        let mb = match other.mantissa.checked_mul(pb) {
            Some(v) => v,
            None => {
                return None;
            },
        };
        match ma.checked_sub(mb) {
            Some(m) => Some(Decimal { mantissa: m, scale: s }),
            None => None,
        }
    }

    /// Exact multiplication; `None` exactly when the product mantissa does
    /// not fit `i128` or the summed scale passes [`MAX_SCALE`].
    pub fn checked_mul(&self, other: &Decimal) -> (r: Option<Decimal>)
        requires
            self.wf(),
            other.wf(),
        ensures
            r == spec_mul(*self, *other),
            r is Some ==> r.unwrap().wf(),
    {
        if self.scale > MAX_SCALE - other.scale {
            return None;
        }
        match self.mantissa.checked_mul(other.mantissa) {
            Some(m) => Some(Decimal { mantissa: m, scale: self.scale + other.scale }),
            None => None,
        }
    }

    /// Divides by a positive integer, extending the scale digit by digit as
    /// [`spec_div`] describes; `None` only when the mantissa is `i128::MIN`.
    pub fn checked_div_u64(&self, n: u64) -> (r: Option<Decimal>)
        requires
            self.wf(),
            n >= 1,
        ensures
            r == spec_div(*self, n),
            r is Some ==> r.unwrap().wf(),
    {
        if self.mantissa == i128::MIN {
            return None;
        }
        let neg = self.mantissa < 0;
        let mag: u128 = if neg {
            (-self.mantissa) as u128
        } else {
            self.mantissa as u128
        };
        let nu: u128 = n as u128;
        let mut q: u128 = mag / nu;
        let mut rem: u128 = mag % nu;
        let mut s: u32 = self.scale;
        let ghost q0 = q as int;
        let ghost rem0 = rem as int;
        let ghost s0 = s as int;
        loop
            invariant
                1 <= nu,
                nu == n as int,
                q <= i128::MAX as u128,
                rem < nu,
                self.scale <= s <= MAX_SCALE,
                spec_div_loop(q as int, rem as int, n as int, s as int) == spec_div_loop(
                    q0,
                    rem0,
                    n as int,
                    s0,
                ),
            ensures
                spec_div_loop(q as int, rem as int, n as int, s as int) == spec_div_loop(
                    q0,
                    rem0,
                    n as int,
                    s0,
                ),
                s >= MAX_SCALE || rem == 0 || (q as int) * 10 + ((rem as int) * 10) / (n as int)
                    > i128::MAX,
                self.scale <= s <= MAX_SCALE,
                q <= i128::MAX as u128,
            decreases MAX_SCALE - s,
        {
            if s >= MAX_SCALE || rem == 0 {
                break;
            }
            let digit: u128 = (rem * 10) / nu;
            assert(digit < 10) by {
                vstd::arithmetic::div_mod::lemma_div_is_ordered((rem as int) * 10, (nu as int) * 10 - 1, nu as int);
                vstd::arithmetic::div_mod::lemma_fundamental_div_mod((nu as int) * 10 - 1, nu as int);
                assert(((nu as int) * 10 - 1) / (nu as int) <= 9) by (nonlinear_arith)
                    requires
                        nu >= 1,
                        (nu as int) * 10 - 1 == (nu as int) * (((nu as int) * 10 - 1) / (nu as int))
                            + ((nu as int) * 10 - 1) % (nu as int),
                        0 <= ((nu as int) * 10 - 1) % (nu as int) < nu as int,
                ;
            }
            let cap: u128 = i128::MAX as u128;
            if q > (cap - digit) / 10 {
                proof {
                    let kd = (cap - digit) as int;
                    vstd::arithmetic::div_mod::lemma_fundamental_div_mod(kd, 10);
                }
                break;
            }
            proof {
                let kd = (cap - digit) as int;
                vstd::arithmetic::div_mod::lemma_fundamental_div_mod(kd, 10);
                assert((q as int) * 10 + digit <= i128::MAX);
                vstd::arithmetic::div_mod::lemma_mod_division_less_than_divisor((rem as int) * 10, nu as int);
            }
            q = q * 10 + digit;
            rem = (rem * 10) % nu;
            s = s + 1;
        }
        let m: i128 = if neg {
            -(q as i128)
        } else {
            q as i128
        };
        Some(Decimal { mantissa: m, scale: s })
    }

    /// The same value with trailing fraction zeros removed: repeatedly drops
    /// a final zero digit of the fraction until the scale is zero or the
    /// last digit is significant.
    pub fn normalized(&self) -> (r: Decimal)
        requires
            self.wf(),
        ensures
            r.wf(),
            same_value(*self, r),
            r.scale == 0 || (if r.mantissa >= 0 {
                r.mantissa as int
            } else {
                -(r.mantissa as int)
            }) % 10 != 0,
    {
        if self.mantissa == i128::MIN {
            return *self;
        }
        let neg = self.mantissa < 0;
        let mut mag: u128 = if neg {
            (-self.mantissa) as u128
        } else {
            self.mantissa as u128
        };
        let mut s: u32 = self.scale;
        while s > 0 && mag % 10 == 0
            invariant
                s <= MAX_SCALE,
                mag <= i128::MAX as u128,
                same_value(
                    *self,
                    Decimal {
                        mantissa: if neg {
                            (-(mag as int)) as i128
                        } else {
                            mag as i128
                        },
                        scale: s,
                    },
                ),
            decreases s,
        {
            let ghost before = Decimal {
                mantissa: if neg {
                    (-(mag as int)) as i128
                } else {
                    mag as i128
                },
                scale: s,
            };
            proof {
                vstd::arithmetic::div_mod::lemma_fundamental_div_mod(mag as int, 10);
            }
            mag = mag / 10;
            s = s - 1;
            proof {
                let after = Decimal {
                    mantissa: if neg {
                        (-(mag as int)) as i128
                    } else {
                        mag as i128
                    },
                    scale: s,
                };
                assert(pow10((s + 1) as nat) == 10 * pow10(s as nat));
                assert(same_value(before, after)) by (nonlinear_arith)
                    requires
                        before.mantissa as int == 10 * (after.mantissa as int),
                        pow10(before.scale as nat) == 10 * pow10(after.scale as nat),
                        after.scale == before.scale - 1,
                        same_value(before, after) == (before.mantissa as int * pow10(
                            after.scale as nat,
                        ) == after.mantissa as int * pow10(before.scale as nat)),
                ;
                lemma_same_value_trans(*self, before, after);
            }
        }
        let m: i128 = mag as i128;
        Decimal { mantissa: if neg { -m } else { m }, scale: s }
    }
}

/// An ASCII decimal digit.
pub open spec fn spec_is_digit(b: u8) -> bool {
    0x30 <= b <= 0x39
}

/// A decimal separator: `.` or `,` (the record grammar allows either).
pub open spec fn spec_is_separator(b: u8) -> bool {
    b == 0x2e || b == 0x2c
}

/// Digits of a decimal literal after the optional sign: decimal digits with
/// at most one separator among them and at least one digit; yields the
/// accumulated mantissa magnitude and the number of digits after the
/// separator. `None` for any other byte, a mantissa past `i128::MAX`, or no
/// digit at all.
pub open spec fn spec_parse_dec_digits(
    s: Seq<u8>,
    m: int,
    seen_digit: bool,
    dot: bool,
    frac: int,
) -> Option<(int, int)>
    decreases s.len(),
{
    if s.len() == 0 {
        if seen_digit {
            Some((m, frac))
        } else {
            None
        }
    } else if spec_is_digit(s[0]) {
        let m2 = m * 10 + (s[0] - 0x30);
        if m2 > i128::MAX {
            None
        } else {
            spec_parse_dec_digits(
                s.skip(1),
                m2,
                true,
                dot,
                if dot {
                    frac + 1
                } else {
                    frac
                },
            )
        }
    } else if spec_is_separator(s[0]) && !dot {
        spec_parse_dec_digits(s.skip(1), m, seen_digit, true, frac)
    } else {
        None
    }
}

/// A decimal literal: an optional `+` or `-` sign, then digits with at most
/// one separator; `None` for a malformed literal, a mantissa past
/// `i128::MAX`, or more than [`MAX_SCALE`] fraction digits.
pub open spec fn spec_parse_decimal(s: Seq<u8>) -> Option<Decimal> {
    let neg = s.len() > 0 && s[0] == 0x2d;
    let rest = if s.len() > 0 && (s[0] == 0x2d || s[0] == 0x2b) {
        s.skip(1)
    } else {
        s
    };
    let parsed = spec_parse_dec_digits(rest, 0, false, false, 0);
    if parsed is None {
        None
    } else {
        let m = parsed.unwrap().0;
        let frac = parsed.unwrap().1;
        if frac <= MAX_SCALE {
            Some(
                Decimal {
                    mantissa: (if neg {
                        -m
                    } else {
                        m
                    }) as i128,
                    scale: frac as u32,
                },
            )
        } else {
            None
        }
    }
}

/// Parses the bytes of a decimal literal, exactly as [`spec_parse_decimal`]
/// describes.
pub fn parse_decimal_bytes(s: &[u8]) -> (r: Option<Decimal>)
    ensures
        r == spec_parse_decimal(s@),
        r is Some ==> r.unwrap().wf(),
{
    let len = s.len();
    let mut i: usize = 0;
    let mut neg = false;
    if len > 0 && (s[0] == 0x2d || s[0] == 0x2b) {
        neg = s[0] == 0x2d;
        i = 1;
    }
    let ghost rest = if s@.len() > 0 && (s@[0] == 0x2d || s@[0] == 0x2b) {
        s@.skip(1)
    } else {
        s@
    };
    let mut m: i128 = 0;
    let mut seen_digit = false;
    let mut dot = false;
    let mut frac: usize = 0;
    proof {
        assert(s@.skip(i as int) =~= rest);
    }
    while i < len
        invariant
            i <= len,
            len == s@.len(),
            0 <= m,
            frac <= i,
            rest == (if s@.len() > 0 && (s@[0] == 0x2d || s@[0] == 0x2b) {
                s@.skip(1)
            } else {
                s@
            }),
            spec_parse_dec_digits(s@.skip(i as int), m as int, seen_digit, dot, frac as int)
                == spec_parse_dec_digits(rest, 0, false, false, 0),
        decreases len - i,
    {
        proof {
            assert(s@.skip(i as int)[0] == s@[i as int]);
            assert(s@.skip(i as int).skip(1) =~= s@.skip(i as int + 1));
        }
        let b = s[i];
        if b >= 0x30 && b <= 0x39 {
            let d = (b - 0x30) as i128;
            let m10 = match m.checked_mul(10) {
                Some(v) => v,
                None => {
                    proof {
                        assert(m * 10 + d > i128::MAX);
                        assert(spec_parse_dec_digits(
                            s@.skip(i as int),
                            m as int,
                            seen_digit,
                            dot,
                            frac as int,
                        ) is None);
                    }
                    return None;
                },
            };
            let m2 = match m10.checked_add(d) {
                Some(v) => v,
                None => {
                    proof {
                        assert(m * 10 + d > i128::MAX);
                        assert(spec_parse_dec_digits(
                            s@.skip(i as int),
                            m as int,
                            seen_digit,
                            dot,
                            frac as int,
                        ) is None);
                    }
                    return None;
                },
            };
            m = m2;
            seen_digit = true;
            if dot {
                frac = frac + 1;
            }
        } else if (b == 0x2e || b == 0x2c) && !dot {
            dot = true;
        } else {
            proof {
                assert(spec_parse_dec_digits(
                    s@.skip(i as int),
                    m as int,
                    seen_digit,
                    dot,
                    frac as int,
                ) is None);
                assert(spec_parse_dec_digits(rest, 0, false, false, 0) is None);
            }
            return None;
        }
        i = i + 1;
    }
    proof {
        assert(s@.skip(len as int) =~= Seq::<u8>::empty());
    }
    if !seen_digit {
        return None;
    }
    if frac > 28 {
        return None;
    }
    Some(Decimal { mantissa: if neg { -m } else { m }, scale: frac as u32 })
}

} // verus!
